//! Tasks, their requests, and the rules of their lifecycle.

use vstd::prelude::*;

verus! {

/// Where a task stands in its one-way lifecycle.
#[derive(Debug, Clone, Copy, PartialEq, Eq, Structural)]
pub enum TaskStatus {
    Pending,
    Completed,
    Broken,
}

/// Priority hint given when a task is requested.
#[derive(Debug, Clone, Copy, PartialEq, Eq, Structural)]
pub enum Urgency {
    Immediate,
    Day,
    Week,
}

/// Errors of the registry's operations.
#[derive(Debug, Clone, Copy, PartialEq, Eq, Structural)]
pub enum RegistryError {
    /// No task has the requested id.
    NotFound,
    /// A task with the same id is already stored.
    Conflict,
    /// The status change is not allowed from the task's current status.
    InvalidTransition,
    /// A box was given for an object the task does not ask for.
    UnknownObject,
    /// A stored value could not be decoded.
    SerializationFailure,
    /// The storage engine reported an error.
    StorageFailure,
    /// No unused id was found within the allowed number of draws.
    IdSpaceExhausted,
}

/// A bounding box drawn by a worker around one object.
#[derive(Debug, Clone, PartialEq, Eq)]
pub struct BoundingBox {
    pub left: u32,
    pub top: u32,
    pub width: u32,
    pub height: u32,
    pub label: Option<String>,
}

pub open spec fn is_empty_box(b: BoundingBox) -> bool {
    b.left == 0 && b.top == 0 && b.width == 0 && b.height == 0 && b.label is None
}

impl BoundingBox {
    /// The box that stands for an object nobody has annotated yet.
    pub fn empty() -> (r: BoundingBox)
        ensures
            is_empty_box(r),
    {
        BoundingBox { left: 0, top: 0, width: 0, height: 0, label: None }
    }
}

/// One entry of a task's response: an object name and its box.
#[derive(Debug, Clone, PartialEq, Eq)]
pub struct ResponseEntry {
    pub object: String,
    pub bbox: BoundingBox,
}

/// A request to create a task.
#[derive(Debug, Clone, PartialEq, Eq)]
pub struct NewTask {
    pub instruction: String,
    pub urgency: Option<Urgency>,
    pub objects: Vec<String>,
    pub with_labels: bool,
    pub attachment: String,
}

/// A unit of annotation work.
#[derive(Debug, Clone, PartialEq, Eq)]
pub struct Task {
    pub id: u32,
    pub created_at: u64,
    pub completed_at: u64,
    pub instruction: String,
    pub status: TaskStatus,
    pub urgency: Urgency,
    pub task_type: String,
    pub attachment: String,
    pub objects_to_annotate: Vec<String>,
    pub with_labels: bool,
    pub response: Vec<ResponseEntry>,
}

/// The object names of a response, in order.
pub open spec fn keys_of(resp: Seq<ResponseEntry>) -> Seq<Seq<char>> {
    resp.map_values(|e: ResponseEntry| e.object@)
}

/// The names of a list of strings.
pub open spec fn names_of(objs: Seq<String>) -> Seq<Seq<char>> {
    objs.map_values(|s: String| s@)
}

/// No object name occurs twice in the response.
pub open spec fn keys_unique(resp: Seq<ResponseEntry>) -> bool {
    forall|i: int, j: int|
        0 <= i < j < resp.len() ==> resp[i].object@ != resp[j].object@
}

/// The response names exactly the requested objects, each once.
pub open spec fn response_matches(resp: Seq<ResponseEntry>, objs: Seq<String>) -> bool {
    &&& keys_unique(resp)
    &&& keys_of(resp).to_set() == names_of(objs).to_set()
}

/// The text of the one task type there is.
pub open spec fn annotation_type() -> Seq<char> {
    seq!['a', 'n', 'n', 'o', 't', 'a', 't', 'i', 'o', 'n']
}

impl Task {
    /// The invariants every stored task keeps.
    pub open spec fn wf(&self) -> bool {
        &&& response_matches(self.response@, self.objects_to_annotate@)
        &&& (self.status is Completed <==> self.completed_at != 0)
    }

    /// The task that a request yields, under the given id and creation time.
    pub open spec fn built_from(&self, req: NewTask, id: u32, created_at: u64) -> bool {
        &&& self.id == id
        &&& self.created_at == created_at
        &&& self.completed_at == 0
        &&& self.instruction == req.instruction
        &&& self.status == TaskStatus::Pending
        &&& self.urgency == (match req.urgency {
            Some(u) => u,
            None => Urgency::Week,
        })
        &&& self.task_type@ == annotation_type()
        &&& self.attachment == req.attachment
        &&& self.objects_to_annotate == req.objects
        &&& self.with_labels == req.with_labels
        &&& response_matches(self.response@, req.objects@)
        &&& forall|i: int| 0 <= i < self.response@.len() ==> is_empty_box(#[trigger] self.response@[i].bbox)
    }
}

/// The position of the entry named `name` in `resp`, if there is one.
pub(crate) fn position_of(resp: &Vec<ResponseEntry>, name: &String) -> (r: Option<usize>)
    ensures
        match r {
            Some(i) => i < resp@.len() && resp@[i as int].object@ == name@,
            None => !keys_of(resp@).contains(name@),
        },
{
    let mut i: usize = 0;
    while i < resp.len()
        invariant
            i <= resp@.len(),
            forall|k: int| 0 <= k < i ==> resp@[k].object@ != name@,
        decreases resp@.len() - i,
    {
        if resp[i].object == *name {
            return Some(i);
        }
        i = i + 1;
    }
    proof {
        if keys_of(resp@).contains(name@) {
            let k = choose|k: int| 0 <= k < keys_of(resp@).len() && keys_of(resp@)[k] == name@;
            assert(resp@[k].object@ != name@);
        }
    }
    None
}

/// One empty box for each distinct object, in the order of first mention.
fn empty_response(objects: &Vec<String>) -> (r: Vec<ResponseEntry>)
    ensures
        response_matches(r@, objects@),
        forall|i: int| 0 <= i < r@.len() ==> is_empty_box(#[trigger] r@[i].bbox),
{
    let mut resp: Vec<ResponseEntry> = Vec::new();
    let mut i: usize = 0;
    while i < objects.len()
        invariant
            i <= objects@.len(),
            keys_unique(resp@),
            keys_of(resp@).to_set() == names_of(objects@.take(i as int)).to_set(),
            forall|k: int| 0 <= k < resp@.len() ==> is_empty_box(#[trigger] resp@[k].bbox),
        decreases objects@.len() - i,
    {
        let name = &objects[i];
        let found = position_of(&resp, name);
        let ghost old_resp = resp@;
        proof {
            assert(objects@.take(i + 1) == objects@.take(i as int).push(objects@[i as int]));
            assert(names_of(objects@.take(i + 1)) == names_of(objects@.take(i as int)).push(name@));
        }
        if found.is_none() {
            resp.push(ResponseEntry { object: name.clone(), bbox: BoundingBox::empty() });
            proof {
                assert(keys_of(resp@) == keys_of(old_resp).push(name@));
                assert forall|a: int, b: int| 0 <= a < b < resp@.len() implies resp@[a].object@
                    != resp@[b].object@ by {
                    if b == resp@.len() - 1 {
                        assert(keys_of(old_resp)[a] == resp@[a].object@);
                    }
                }
                assert(keys_of(resp@).to_set() == names_of(objects@.take(i + 1)).to_set()) by {
                    vstd::seq_lib::seq_to_set_distributes_over_add(keys_of(old_resp), seq![name@]);
                    vstd::seq_lib::seq_to_set_distributes_over_add(
                        names_of(objects@.take(i as int)),
                        seq![name@],
                    );
                    assert(keys_of(old_resp).push(name@) == keys_of(old_resp) + seq![name@]);
                    assert(names_of(objects@.take(i as int)).push(name@) == names_of(
                        objects@.take(i as int),
                    ) + seq![name@]);
                }
            }
        } else {
            proof {
                let k = found->Some_0 as int;
                assert(keys_of(resp@)[k] == name@);
                assert(names_of(objects@.take(i + 1)).to_set() == names_of(
                    objects@.take(i as int),
                ).to_set().insert(name@)) by {
                    vstd::seq_lib::seq_to_set_distributes_over_add(
                        names_of(objects@.take(i as int)),
                        seq![name@],
                    );
                    assert(names_of(objects@.take(i as int)).push(name@) == names_of(
                        objects@.take(i as int),
                    ) + seq![name@]);
                    assert forall|y: Seq<char>| seq![name@].to_set().contains(y) implies y
                        == name@ by {
                        let j = choose|j: int| 0 <= j < 1 && seq![name@][j] == y;
                    }
                    assert(seq![name@][0] == name@);
                    assert(seq![name@].to_set() =~= set![name@]);
                }
                assert(keys_of(resp@).to_set().contains(name@));
                assert(keys_of(resp@).to_set().insert(name@) =~= keys_of(resp@).to_set());
            }
        }
        i = i + 1;
    }
    proof {
        assert(objects@.take(objects@.len() as int) == objects@);
    }
    resp
}

impl Task {
    /// A task with the given fields.
    pub fn new(
        id: u32,
        created_at: u64,
        completed_at: u64,
        instruction: String,
        status: TaskStatus,
        urgency: Urgency,
        task_type: String,
        attachment: String,
        objects_to_annotate: Vec<String>,
        with_labels: bool,
        response: Vec<ResponseEntry>,
    ) -> (r: Task)
        ensures
            r == (Task {
                id,
                created_at,
                completed_at,
                instruction,
                status,
                urgency,
                task_type,
                attachment,
                objects_to_annotate,
                with_labels,
                response,
            }),
    {
        Task {
            id,
            created_at,
            completed_at,
            instruction,
            status,
            urgency,
            task_type,
            attachment,
            objects_to_annotate,
            with_labels,
            response,
        }
    }

    /// Builds the initial record of a request: pending, not completed, urgency
    /// `Week` unless given, and one empty box per requested object.
    pub fn from_new_task(new_task: NewTask, id: u32, created_at: u64) -> (r: Task)
        ensures
            r.built_from(new_task, id, created_at),
            r.wf(),
    {
        let response = empty_response(&new_task.objects);
        let urgency = match new_task.urgency {
            Some(u) => u,
            None => Urgency::Week,
        };
        let task_type = "annotation".to_owned();
        proof {
            reveal_strlit("annotation");
            assert(task_type@ =~= annotation_type());
        }
        Task::new(
            id,
            created_at,
            0,
            new_task.instruction,
            TaskStatus::Pending,
            urgency,
            task_type,
            new_task.attachment,
            new_task.objects,
            new_task.with_labels,
            response,
        )
    }
}

/// Every field but the status and completion time is kept.
pub open spec fn same_but_status(a: Task, b: Task) -> bool {
    &&& a.id == b.id
    &&& a.created_at == b.created_at
    &&& a.instruction == b.instruction
    &&& a.urgency == b.urgency
    &&& a.task_type == b.task_type
    &&& a.attachment == b.attachment
    &&& a.objects_to_annotate == b.objects_to_annotate
    &&& a.with_labels == b.with_labels
    &&& a.response == b.response
}

impl Task {
    /// Moves a pending task to `Completed` at the given (non-zero) time.
    pub fn complete(&mut self, at: u64) -> (r: Result<(), RegistryError>)
        ensures
            r is Err <==> (!(old(self).status is Pending) || at == 0),
            r is Err ==> r == Err::<(), RegistryError>(RegistryError::InvalidTransition)
                && *final(self) == *old(self),
            r is Ok ==> final(self).status == TaskStatus::Completed && final(self).completed_at == at
                && same_but_status(*final(self), *old(self)),
            old(self).wf() ==> final(self).wf(),
    {
        if self.status != TaskStatus::Pending || at == 0 {
            return Err(RegistryError::InvalidTransition);
        }
        self.status = TaskStatus::Completed;
        self.completed_at = at;
        Ok(())
    }

    /// Moves a pending task to `Broken`.
    pub fn mark_broken(&mut self) -> (r: Result<(), RegistryError>)
        ensures
            r is Err <==> !(old(self).status is Pending),
            r is Err ==> r == Err::<(), RegistryError>(RegistryError::InvalidTransition)
                && *final(self) == *old(self),
            r is Ok ==> final(self).status == TaskStatus::Broken && final(self).completed_at
                == old(self).completed_at && same_but_status(*final(self), *old(self)),
            old(self).wf() ==> final(self).wf(),
    {
        if self.status != TaskStatus::Pending {
            return Err(RegistryError::InvalidTransition);
        }
        self.status = TaskStatus::Broken;
        Ok(())
    }

    /// Records the box of one requested object of a pending task.
    pub fn set_box(&mut self, object: &String, bbox: BoundingBox) -> (r: Result<
        (),
        RegistryError,
    >)
        ensures
            r == Err::<(), RegistryError>(RegistryError::InvalidTransition) <==> !(old(
                self,
            ).status is Pending),
            r == Err::<(), RegistryError>(RegistryError::UnknownObject) <==> (old(
                self,
            ).status is Pending && !keys_of(old(self).response@).contains(object@)),
            r is Err ==> *final(self) == *old(self),
            r is Ok ==> exists|i: int|
                0 <= i < old(self).response@.len() && old(self).response@[i].object@ == object@
                    && final(self).response@ == old(self).response@.update(
                    i,
                    ResponseEntry { object: old(self).response@[i].object, bbox },
                ),
            r is Ok ==> final(self).status == old(self).status && final(self).completed_at
                == old(self).completed_at && final(self).id == old(self).id
                && final(self).created_at == old(self).created_at && final(self).instruction
                == old(self).instruction && final(self).urgency == old(self).urgency
                && final(self).task_type == old(self).task_type && final(self).attachment
                == old(self).attachment && final(self).objects_to_annotate == old(
                self,
            ).objects_to_annotate && final(self).with_labels == old(self).with_labels,
            old(self).wf() ==> final(self).wf(),
    {
        if self.status != TaskStatus::Pending {
            return Err(RegistryError::InvalidTransition);
        }
        match position_of(&self.response, object) {
            None => Err(RegistryError::UnknownObject),
            Some(i) => {
                let name = self.response[i].object.clone();
                let ghost before = self.response@;
                self.response.set(i, ResponseEntry { object: name, bbox });
                proof {
                    assert(keys_of(before)[i as int] == object@);
                    assert(keys_of(self.response@) =~= keys_of(before));
                }
                Ok(())
            },
        }
    }
}

/// A request that names no urgency yields a task of urgency `Week`.
pub proof fn lemma_default_urgency(t: Task, req: NewTask, id: u32, at: u64)
    requires
        t.built_from(req, id, at),
        req.urgency is None,
    ensures
        t.urgency == Urgency::Week,
{
}

} // verus!
