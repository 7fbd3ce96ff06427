//! A registry of annotation tasks: the task model and its status lifecycle,
//! the stored-row form of a task, and a store with collision-free id allocation.

pub mod codec;
pub mod model;
pub mod registry;
