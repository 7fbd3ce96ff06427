//! An in-memory task store and the id allocator.

use vstd::prelude::*;

use crate::model::{same_but_status, NewTask, RegistryError, Task, TaskStatus};

verus! {

/// How many ids are drawn before allocation gives up.
pub const MAX_DRAWS: u32 = 10;

/// What the allocator does after a draw.
#[derive(Debug, Clone, Copy, PartialEq, Eq, Structural)]
pub enum Allocation {
    /// The drawn id is unused: take it.
    Accept(u32),
    /// The drawn id is taken: draw again.
    Redraw,
    /// The id is taken and the allowed draws are spent.
    Exhausted,
}

/// Decides on the `draws_made`-th draw, `draw`, given whether the store already
/// holds that id.
pub fn decide(draws_made: u32, draw: u32, taken: bool) -> (r: Allocation)
    ensures
        !taken ==> r == Allocation::Accept(draw),
        taken && draws_made < MAX_DRAWS ==> r == Allocation::Redraw,
        taken && draws_made >= MAX_DRAWS ==> r == Allocation::Exhausted,
{
    if !taken {
        Allocation::Accept(draw)
    } else if draws_made < MAX_DRAWS {
        Allocation::Redraw
    } else {
        Allocation::Exhausted
    }
}

/// Relies on rand::random::<u32>: a value drawn from the thread-local generator;
/// nothing is known of it.
#[verifier::external_body]
fn draw_id() -> (r: u32) {
    rand::random::<u32>()
}

/// No two tasks of the sequence share an id.
pub open spec fn ids_unique(s: Seq<Task>) -> bool {
    forall|i: int, j: int| 0 <= i < j < s.len() ==> s[i].id != s[j].id
}

/// Some task of the sequence has the id.
pub open spec fn holds_id(s: Seq<Task>, id: u32) -> bool {
    exists|i: int| 0 <= i < s.len() && s[i].id == id
}

/// The tasks of the sequence with the given status, in stored order.
pub open spec fn with_status(s: Seq<Task>, status: TaskStatus) -> Seq<Task> {
    s.filter(status_is(status))
}

/// The test that a task has the given status.
pub open spec fn status_is(status: TaskStatus) -> spec_fn(Task) -> bool {
    |t: Task| t.status == status
}

/// The tasks that a sequence of references points at.
pub open spec fn derefs(s: Seq<&Task>) -> Seq<Task> {
    s.map_values(|t: &Task| *t)
}

/// Tasks ordered by creation time, earliest first.
pub open spec fn by_creation(s: Seq<Task>) -> bool {
    forall|i: int, j: int| 0 <= i < j < s.len() ==> s[i].created_at <= s[j].created_at
}

/// Position `k` of `s` is where a task created at `at` goes: after every task
/// created no later, before every task created later.
pub open spec fn slot_for(s: Seq<Task>, k: int, at: u64) -> bool {
    &&& 0 <= k <= s.len()
    &&& forall|i: int| 0 <= i < k ==> s[i].created_at <= at
    &&& forall|i: int| k <= i < s.len() ==> s[i].created_at > at
}

/// An in-memory task store: tasks ordered by creation time, ids unique.
pub struct Registry {
    tasks: Vec<Task>,
}

impl View for Registry {
    type V = Seq<Task>;

    closed spec fn view(&self) -> Seq<Task> {
        self.tasks@
    }
}

/// `after` is `before` with one more task, built from `req` under a fresh id and
/// placed at its creation time's slot.
pub open spec fn created(before: Registry, after: Registry, req: NewTask, id: u32, at: u64) -> bool {
    &&& !holds_id(before@, id)
    &&& exists|k: int| #[trigger]
        slot_for(before@, k, at) && after@ == before@.insert(k, after@[k]) && after@[k].built_from(
            req,
            id,
            at,
        ) && after@[k].wf()
}

impl Registry {
    /// The store keeps its ids unique and its tasks ordered by creation time.
    pub open spec fn wf(&self) -> bool {
        &&& ids_unique(self@)
        &&& by_creation(self@)
    }

    /// An empty store.
    pub fn new() -> (r: Registry)
        ensures
            r@ == Seq::<Task>::empty(),
            r.wf(),
    {
        Registry { tasks: Vec::new() }
    }

    /// The number of stored tasks.
    pub fn len(&self) -> (r: usize)
        ensures
            r == self@.len(),
    {
        self.tasks.len()
    }

    fn index_of(&self, id: u32) -> (r: Option<usize>)
        ensures
            match r {
                Some(i) => i < self@.len() && self@[i as int].id == id,
                None => !holds_id(self@, id),
            },
    {
        let mut i: usize = 0;
        while i < self.tasks.len()
            invariant
                i <= self@.len(),
                self@ == self.tasks@,
                forall|k: int| 0 <= k < i ==> self@[k].id != id,
            decreases self@.len() - i,
        {
            if self.tasks[i].id == id {
                return Some(i);
            }
            i = i + 1;
        }
        None
    }

    /// Whether a task with this id is stored.
    pub fn contains_id(&self, id: u32) -> (r: bool)
        ensures
            r == holds_id(self@, id),
    {
        self.index_of(id).is_some()
    }

    /// Stores a task at its creation time's slot; fails with `Conflict` when its id
    /// is already present.
    pub fn insert(&mut self, task: Task) -> (r: Result<(), RegistryError>)
        requires
            old(self).wf(),
        ensures
            final(self).wf(),
            r is Err <==> holds_id(old(self)@, task.id),
            r is Err ==> r == Err::<(), RegistryError>(RegistryError::Conflict) && final(self)@
                == old(self)@,
            r is Ok ==> exists|k: int| #[trigger]
                slot_for(old(self)@, k, task.created_at) && final(self)@ == old(self)@.insert(
                    k,
                    task,
                ),
    {
        if self.contains_id(task.id) {
            return Err(RegistryError::Conflict);
        }
        let mut k: usize = 0;
        while k < self.tasks.len() && self.tasks[k].created_at <= task.created_at
            invariant
                k <= self@.len(),
                self@ == self.tasks@,
                forall|i: int| 0 <= i < k ==> self@[i].created_at <= task.created_at,
            decreases self@.len() - k,
        {
            k = k + 1;
        }
        let ghost before = *self;
        proof {
            assert(slot_for(before@, k as int, task.created_at));
        }
        self.tasks.insert(k, task);
        proof {
            lemma_get_after_insert(before, *self, task, k as int);
        }
        Ok(())
    }

    /// The stored task with this id, if any.
    pub fn get(&self, id: u32) -> (r: Option<&Task>)
        requires
            self.wf(),
        ensures
            r is None <==> !holds_id(self@, id),
            r matches Some(t) ==> exists|i: int| 0 <= i < self@.len() && self@[i] == *t,
            r matches Some(t) ==> t.id == id,
    {
        match self.index_of(id) {
            Some(i) => Some(&self.tasks[i]),
            None => None,
        }
    }

    /// The stored task with this id; `NotFound` when there is none.
    pub fn find(&self, id: u32) -> (r: Result<&Task, RegistryError>)
        requires
            self.wf(),
        ensures
            r is Err <==> !holds_id(self@, id),
            r is Err ==> r == Err::<&Task, RegistryError>(RegistryError::NotFound),
            r matches Ok(t) ==> exists|i: int| 0 <= i < self@.len() && self@[i] == *t,
            r matches Ok(t) ==> t.id == id,
    {
        match self.get(id) {
            Some(t) => Ok(t),
            None => Err(RegistryError::NotFound),
        }
    }

    /// The stored tasks with the given status, in insertion order.
    pub fn list(&self, status: TaskStatus) -> (r: Vec<&Task>)
        requires
            self.wf(),
        ensures
            derefs(r@) == with_status(self@, status),
            forall|a: int, b: int| 0 <= a < b < r@.len() ==> r@[a].created_at <= r@[b].created_at,
    {
        let mut out: Vec<&Task> = Vec::new();
        let mut i: usize = 0;
        while i < self.tasks.len()
            invariant
                i <= self@.len(),
                self@ == self.tasks@,
                derefs(out@) == with_status(self@.take(i as int), status),
                by_creation(self@),
                forall|a: int, b: int|
                    0 <= a < b < out@.len() ==> out@[a].created_at <= out@[b].created_at,
                forall|a: int, m: int|
                    0 <= a < out@.len() && i <= m < self@.len() ==> out@[a].created_at
                        <= self@[m].created_at,
            decreases self@.len() - i,
        {
            let t = &self.tasks[i];
            proof {
                assert(self@.take(i + 1).drop_last() == self@.take(i as int));
                reveal(Seq::filter);
            }
            let ghost prev = out@;
            if t.status == status {
                out.push(t);
                proof {
                    assert(derefs(out@) == derefs(prev).push(*t));
                }
            }
            i = i + 1;
        }
        proof {
            assert(self@.take(self@.len() as int) == self@);
        }
        out
    }

    /// The pending tasks, in insertion order.
    pub fn list_pending(&self) -> (r: Vec<&Task>)
        requires
            self.wf(),
        ensures
            derefs(r@) == with_status(self@, TaskStatus::Pending),
            forall|a: int, b: int| 0 <= a < b < r@.len() ==> r@[a].created_at <= r@[b].created_at,
    {
        self.list(TaskStatus::Pending)
    }

    /// Marks the stored task with this id completed at `at`.
    pub fn complete_task(&mut self, id: u32, at: u64) -> (r: Result<(), RegistryError>)
        requires
            old(self).wf(),
        ensures
            final(self).wf(),
            final(self)@.len() == old(self)@.len(),
            !holds_id(old(self)@, id) ==> r == Err::<(), RegistryError>(RegistryError::NotFound)
                && final(self)@ == old(self)@,
            forall|i: int|
                0 <= i < old(self)@.len() && old(self)@[i].id == id ==> {
                    &&& (r is Err <==> (!(old(self)@[i].status is Pending) || at == 0))
                    &&& r is Err ==> r == Err::<(), RegistryError>(
                        RegistryError::InvalidTransition,
                    ) && final(self)@ == old(self)@
                    &&& r is Ok ==> final(self)@[i].status == TaskStatus::Completed
                        && final(self)@[i].completed_at == at && same_but_status(
                        final(self)@[i],
                        old(self)@[i],
                    )
                    &&& r is Ok ==> forall|k: int|
                        0 <= k < old(self)@.len() && k != i ==> final(self)@[k] == old(self)@[k]
                },
    {
        match self.index_of(id) {
            None => Err(RegistryError::NotFound),
            Some(i) => {
                let ghost before = self@;
                let mut t = self.tasks.remove(i);
                let r = t.complete(at);
                self.tasks.insert(i, t);
                proof {
                    self.lemma_replaced(before, i as int);
                }
                r
            },
        }
    }

    /// Marks the stored task with this id broken.
    pub fn break_task(&mut self, id: u32) -> (r: Result<(), RegistryError>)
        requires
            old(self).wf(),
        ensures
            final(self).wf(),
            final(self)@.len() == old(self)@.len(),
            !holds_id(old(self)@, id) ==> r == Err::<(), RegistryError>(RegistryError::NotFound)
                && final(self)@ == old(self)@,
            forall|i: int|
                0 <= i < old(self)@.len() && old(self)@[i].id == id ==> {
                    &&& (r is Err <==> !(old(self)@[i].status is Pending))
                    &&& r is Err ==> r == Err::<(), RegistryError>(
                        RegistryError::InvalidTransition,
                    ) && final(self)@ == old(self)@
                    &&& r is Ok ==> final(self)@[i].status == TaskStatus::Broken
                        && final(self)@[i].completed_at == old(self)@[i].completed_at
                        && same_but_status(final(self)@[i], old(self)@[i])
                    &&& r is Ok ==> forall|k: int|
                        0 <= k < old(self)@.len() && k != i ==> final(self)@[k] == old(self)@[k]
                },
    {
        match self.index_of(id) {
            None => Err(RegistryError::NotFound),
            Some(i) => {
                let ghost before = self@;
                let mut t = self.tasks.remove(i);
                let r = t.mark_broken();
                self.tasks.insert(i, t);
                proof {
                    self.lemma_replaced(before, i as int);
                }
                r
            },
        }
    }

    /// Replacing one task by one with the same id and creation time keeps the
    /// store well formed.
    proof fn lemma_replaced(&self, before: Seq<Task>, i: int)
        requires
            ids_unique(before),
            by_creation(before),
            0 <= i < before.len(),
            self@.len() == before.len(),
            self@[i].id == before[i].id,
            self@[i].created_at == before[i].created_at,
            forall|k: int| 0 <= k < before.len() && k != i ==> self@[k] == before[k],
        ensures
            ids_unique(self@),
            by_creation(self@),
            forall|j: int| 0 <= j < before.len() && before[j].id == before[i].id ==> j == i,
    {
        assert forall|a: int, b: int| 0 <= a < b < self@.len() implies self@[a].id
            != self@[b].id by {
            assert(before[a].id != before[b].id);
        }
        assert forall|a: int, b: int| 0 <= a < b < self@.len() implies self@[a].created_at
            <= self@[b].created_at by {
            assert(before[a].created_at <= before[b].created_at);
        }
    }

    /// Draws random ids until one is unused, at most `MAX_DRAWS` times.
    pub fn allocate(&self) -> (r: Result<u32, RegistryError>)
        ensures
            r matches Ok(id) ==> !holds_id(self@, id),
            r is Err ==> r == Err::<u32, RegistryError>(RegistryError::IdSpaceExhausted),
            self@.len() == 0 ==> r is Ok,
    {
        let mut draws: u32 = 0;
        while draws < MAX_DRAWS
            invariant
                draws <= MAX_DRAWS,
                self@.len() == 0 ==> draws == 0,
            decreases MAX_DRAWS - draws,
        {
            draws = draws + 1;
            let id = draw_id();
            match decide(draws, id, self.contains_id(id)) {
                Allocation::Accept(v) => {
                    return Ok(v);
                },
                Allocation::Redraw => {},
                Allocation::Exhausted => {
                    return Err(RegistryError::IdSpaceExhausted);
                },
            }
        }
        Err(RegistryError::IdSpaceExhausted)
    }

    /// Allocates a fresh id, builds the task of `req` created at `created_at`,
    /// stores it and returns its id.
    pub fn create(&mut self, req: NewTask, created_at: u64) -> (r: Result<u32, RegistryError>)
        requires
            old(self).wf(),
        ensures
            final(self).wf(),
            r matches Ok(id) ==> created(*old(self), *final(self), req, id, created_at),
            r is Err ==> r == Err::<u32, RegistryError>(RegistryError::IdSpaceExhausted)
                && final(self)@ == old(self)@,
            old(self)@.len() == 0 ==> r is Ok,
    {
        let id = match self.allocate() {
            Ok(id) => id,
            Err(e) => {
                return Err(e);
            },
        };
        let task = Task::from_new_task(req, id, created_at);
        let ghost before = *self;
        let ghost t = task;
        let res = self.insert(task);
        proof {
            if res is Ok {
                let k = choose|k: int| #[trigger]
                    slot_for(before@, k, created_at) && self@ == before@.insert(k, t);
                before@.insert_ensures(k, t);
                assert(slot_for(before@, k, created_at) && self@ == before@.insert(k, self@[k])
                    && self@[k].built_from(req, id, created_at) && self@[k].wf());
            }
        }
        match res {
            Ok(()) => Ok(id),
            Err(e) => Err(e),
        }
    }
}

/// In a well-formed store no two tasks carry the same id; each creation keeps
/// the store well formed, so any number of successive creations leave distinct ids.
pub proof fn lemma_created_ids_distinct(before: Registry, after: Registry, req: NewTask, id: u32, at: u64)
    requires
        before.wf(),
        created(before, after, req, id, at),
    ensures
        after.wf(),
        forall|i: int, j: int| 0 <= i < j < after@.len() ==> after@[i].id != after@[j].id,
{
    let k = choose|k: int| #[trigger]
        slot_for(before@, k, at) && after@ == before@.insert(k, after@[k]) && after@[k].built_from(
            req,
            id,
            at,
        ) && after@[k].wf();
    lemma_get_after_insert(before, after, after@[k], k);
}

/// A creation keeps every id the store held and adds the new one.
proof fn lemma_created_keeps(before: Registry, after: Registry, req: NewTask, id: u32, at: u64)
    requires
        created(before, after, req, id, at),
    ensures
        holds_id(after@, id),
        forall|x: u32| holds_id(before@, x) ==> holds_id(after@, x),
{
    let k = choose|k: int| #[trigger]
        slot_for(before@, k, at) && after@ == before@.insert(k, after@[k]) && after@[k].built_from(
            req,
            id,
            at,
        ) && after@[k].wf();
    before@.insert_ensures(k, after@[k]);
    assert forall|x: u32| holds_id(before@, x) implies holds_id(after@, x) by {
        let m = choose|m: int| 0 <= m < before@.len() && before@[m].id == x;
        if m < k {
            assert(after@[m].id == x);
        } else {
            assert(after@[m + 1].id == x);
        }
    }
}

proof fn lemma_chain_keeps(
    rs: Seq<Registry>,
    reqs: Seq<NewTask>,
    ids: Seq<u32>,
    ats: Seq<u64>,
    a: int,
    b: int,
    x: u32,
)
    requires
        rs.len() == ids.len() + 1,
        reqs.len() == ids.len(),
        ats.len() == ids.len(),
        forall|i: int|
            0 <= i < ids.len() ==> #[trigger] created(rs[i], rs[i + 1], reqs[i], ids[i], ats[i]),
        0 <= a <= b < rs.len(),
        holds_id(rs[a]@, x),
    ensures
        holds_id(rs[b]@, x),
    decreases b - a,
{
    if a < b {
        lemma_chain_keeps(rs, reqs, ids, ats, a, b - 1, x);
        let c = b - 1;
        assert(created(rs[c], rs[c + 1], reqs[c], ids[c], ats[c]));
        lemma_created_keeps(rs[c], rs[c + 1], reqs[c], ids[c], ats[c]);
    }
}

/// Any number of successive creations hand out ids that are pairwise distinct,
/// none held by the store before the first, all held by it after the last.
pub proof fn lemma_successive_creates_distinct(
    rs: Seq<Registry>,
    reqs: Seq<NewTask>,
    ids: Seq<u32>,
    ats: Seq<u64>,
)
    requires
        rs.len() == ids.len() + 1,
        reqs.len() == ids.len(),
        ats.len() == ids.len(),
        forall|i: int|
            0 <= i < ids.len() ==> #[trigger] created(rs[i], rs[i + 1], reqs[i], ids[i], ats[i]),
    ensures
        forall|i: int, j: int| 0 <= i < j < ids.len() ==> ids[i] != ids[j],
        forall|i: int| 0 <= i < ids.len() ==> !holds_id(rs[0]@, #[trigger] ids[i]),
        forall|i: int| 0 <= i < ids.len() ==> holds_id(rs[ids.len() as int]@, #[trigger] ids[i]),
{
    assert forall|i: int| 0 <= i < ids.len() implies holds_id(rs[i + 1]@, ids[i]) by {
        assert(created(rs[i], rs[i + 1], reqs[i], ids[i], ats[i]));
        lemma_created_keeps(rs[i], rs[i + 1], reqs[i], ids[i], ats[i]);
    }
    assert forall|i: int, j: int| 0 <= i < j < ids.len() implies ids[i] != ids[j] by {
        lemma_chain_keeps(rs, reqs, ids, ats, i + 1, j, ids[i]);
        assert(created(rs[j], rs[j + 1], reqs[j], ids[j], ats[j]));
    }
    assert forall|i: int| 0 <= i < ids.len() implies !holds_id(rs[0]@, #[trigger] ids[i]) by {
        assert(created(rs[i], rs[i + 1], reqs[i], ids[i], ats[i]));
        if holds_id(rs[0]@, ids[i]) {
            lemma_chain_keeps(rs, reqs, ids, ats, 0, i, ids[i]);
        }
    }
    assert forall|i: int| 0 <= i < ids.len() implies holds_id(
        rs[ids.len() as int]@,
        #[trigger] ids[i],
    ) by {
        lemma_chain_keeps(rs, reqs, ids, ats, i + 1, ids.len() as int, ids[i]);
    }
}

/// Two successive creations never hand out the same id, whatever the draws.
pub proof fn lemma_successive_creates_differ(
    a: Registry,
    b: Registry,
    c: Registry,
    req1: NewTask,
    req2: NewTask,
    id1: u32,
    id2: u32,
    at1: u64,
    at2: u64,
)
    requires
        created(a, b, req1, id1, at1),
        created(b, c, req2, id2, at2),
    ensures
        id1 != id2,
{
    lemma_created_keeps(a, b, req1, id1, at1);
}

/// After a task is inserted at its slot under an unused id, the store stays well
/// formed and the task stored under that id is the inserted one.
pub proof fn lemma_get_after_insert(before: Registry, after: Registry, task: Task, k: int)
    requires
        before.wf(),
        !holds_id(before@, task.id),
        slot_for(before@, k, task.created_at),
        after@ == before@.insert(k, task),
    ensures
        after.wf(),
        holds_id(after@, task.id),
        forall|i: int| 0 <= i < after@.len() && after@[i].id == task.id ==> after@[i] == task,
{
    before@.insert_ensures(k, task);
    let s = after@;
    assert forall|i: int| 0 <= i < s.len() && s[i].id == task.id implies s[i] == task by {
        if i < k {
            assert(s[i] == before@[i]);
        } else if i > k {
            assert(s[(i - 1) + 1] == before@[i - 1]);
        }
    }
    assert forall|i: int, j: int| 0 <= i < j < s.len() implies #[trigger] s[i].id != #[trigger] s[j].id
        && s[i].created_at <= s[j].created_at by {
        if i < k {
            assert(s[i] == before@[i]);
        } else if i > k {
            assert(s[(i - 1) + 1] == before@[i - 1]);
        }
        if j < k {
            assert(s[j] == before@[j]);
        } else if j > k {
            assert(s[(j - 1) + 1] == before@[j - 1]);
        }
    }
    assert(s[k] == task);
}

proof fn lemma_filtered_from(s: Seq<Task>, status: TaskStatus)
    ensures
        forall|t: Task| #[trigger] with_status(s, status).contains(t) ==> s.contains(t),
    decreases s.len(),
{
    reveal(Seq::filter);
    if s.len() > 0 {
        lemma_filtered_from(s.drop_last(), status);
        assert forall|t: Task| #[trigger] with_status(s, status).contains(t) implies s.contains(
            t,
        ) by {
            let k = choose|k: int|
                0 <= k < with_status(s, status).len() && with_status(s, status)[k] == t;
            let rest = with_status(s.drop_last(), status);
            if k < rest.len() {
                assert(rest[k] == t);
                assert(rest.contains(t));
                let m = choose|m: int| 0 <= m < s.drop_last().len() && s.drop_last()[m] == t;
                assert(s[m] == t);
            } else {
                assert(t == s.last());
                assert(s[s.len() - 1] == t);
            }
        }
    }
}

/// Listing by a status yields exactly the stored tasks with that status.
pub proof fn lemma_list_exact(s: Seq<Task>, status: TaskStatus)
    ensures
        forall|t: Task| #[trigger]
            with_status(s, status).contains(t) <==> (s.contains(t) && t.status == status),
{
    broadcast use vstd::seq_lib::group_filter_ensures;

    let pred = status_is(status);
    assert forall|t: Task| #[trigger] with_status(s, status).contains(t) <==> (s.contains(t)
        && t.status == status) by {
        if with_status(s, status).contains(t) {
            let k = choose|k: int| 0 <= k < s.filter(pred).len() && s.filter(pred)[k] == t;
            assert(pred(s.filter(pred)[k]));
            lemma_filtered_from(s, status);
        }
        if s.contains(t) && t.status == status {
            let k = choose|k: int| 0 <= k < s.len() && s[k] == t;
            assert(s.filter(pred).contains(s[k]));
        }
    }
}

} // verus!
