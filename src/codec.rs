//! The row form of a task and the text of its enumerations.

use vstd::prelude::*;

use crate::model::{
    keys_of, keys_unique, names_of, position_of, response_matches, RegistryError, ResponseEntry,
    Task, TaskStatus, Urgency,
};

verus! {

/// The stored text of a status.
pub open spec fn status_name(s: TaskStatus) -> Seq<char> {
    match s {
        TaskStatus::Pending => "pending"@,
        TaskStatus::Completed => "completed"@,
        TaskStatus::Broken => "broken"@,
    }
}

/// The status a stored text stands for, if any.
pub open spec fn status_from_name(s: Seq<char>) -> Option<TaskStatus> {
    if s == "pending"@ {
        Some(TaskStatus::Pending)
    } else if s == "completed"@ {
        Some(TaskStatus::Completed)
    } else if s == "broken"@ {
        Some(TaskStatus::Broken)
    } else {
        None
    }
}

/// The stored text of an urgency.
pub open spec fn urgency_name(u: Urgency) -> Seq<char> {
    match u {
        Urgency::Immediate => "immediate"@,
        Urgency::Day => "day"@,
        Urgency::Week => "week"@,
    }
}

/// The urgency a stored text stands for, if any.
pub open spec fn urgency_from_name(s: Seq<char>) -> Option<Urgency> {
    if s == "immediate"@ {
        Some(Urgency::Immediate)
    } else if s == "day"@ {
        Some(Urgency::Day)
    } else if s == "week"@ {
        Some(Urgency::Week)
    } else {
        None
    }
}

/// Every status reads back from its stored text.
pub proof fn lemma_status_name_round_trip(s: TaskStatus)
    ensures
        status_from_name(status_name(s)) == Some(s),
{
    reveal_strlit("pending");
    reveal_strlit("completed");
    reveal_strlit("broken");
    assert("completed"@.len() != "pending"@.len());
    assert("broken"@[0] != "pending"@[0]);
    assert("broken"@[0] != "completed"@[0]);
}

/// Every urgency reads back from its stored text.
pub proof fn lemma_urgency_name_round_trip(u: Urgency)
    ensures
        urgency_from_name(urgency_name(u)) == Some(u),
{
    reveal_strlit("immediate");
    reveal_strlit("day");
    reveal_strlit("week");
    assert("day"@.len() != "immediate"@.len());
    assert("week"@.len() != "immediate"@.len());
    assert("week"@.len() != "day"@.len());
}

/// The stored text of a status.
pub fn status_text(s: TaskStatus) -> (r: String)
    ensures
        r@ == status_name(s),
{
    match s {
        TaskStatus::Pending => "pending".to_owned(),
        TaskStatus::Completed => "completed".to_owned(),
        TaskStatus::Broken => "broken".to_owned(),
    }
}

/// Reads a status from its stored text.
pub fn parse_status(text: &String) -> (r: Option<TaskStatus>)
    ensures
        r == status_from_name(text@),
{
    if *text == "pending".to_owned() {
        Some(TaskStatus::Pending)
    } else if *text == "completed".to_owned() {
        Some(TaskStatus::Completed)
    } else if *text == "broken".to_owned() {
        Some(TaskStatus::Broken)
    } else {
        None
    }
}

/// The stored text of an urgency.
pub fn urgency_text(u: Urgency) -> (r: String)
    ensures
        r@ == urgency_name(u),
{
    match u {
        Urgency::Immediate => "immediate".to_owned(),
        Urgency::Day => "day".to_owned(),
        Urgency::Week => "week".to_owned(),
    }
}

/// Reads an urgency from its stored text.
pub fn parse_urgency(text: &String) -> (r: Option<Urgency>)
    ensures
        r == urgency_from_name(text@),
{
    if *text == "immediate".to_owned() {
        Some(Urgency::Immediate)
    } else if *text == "day".to_owned() {
        Some(Urgency::Day)
    } else if *text == "week".to_owned() {
        Some(Urgency::Week)
    } else {
        None
    }
}

/// A task as one row of the `tasks` table: status and urgency as text.
#[derive(Debug, Clone, PartialEq, Eq)]
pub struct DatabaseTask {
    pub id: u32,
    pub created_at: u64,
    pub completed_at: u64,
    pub instruction: String,
    pub status: String,
    pub urgency: String,
    pub task_type: String,
    pub attachment: String,
    pub objects_to_annotate: Vec<String>,
    pub with_labels: bool,
    pub response: Vec<ResponseEntry>,
}

impl DatabaseTask {
    /// This row stores exactly the task `t`.
    pub open spec fn encodes(&self, t: Task) -> bool {
        &&& self.id == t.id
        &&& self.created_at == t.created_at
        &&& self.completed_at == t.completed_at
        &&& self.instruction == t.instruction
        &&& self.status@ == status_name(t.status)
        &&& self.urgency@ == urgency_name(t.urgency)
        &&& self.task_type == t.task_type
        &&& self.attachment == t.attachment
        &&& self.objects_to_annotate == t.objects_to_annotate
        &&& self.with_labels == t.with_labels
        &&& self.response == t.response
    }

    /// The row holds a well-formed task.
    pub open spec fn decodable(&self) -> bool {
        &&& status_from_name(self.status@) is Some
        &&& urgency_from_name(self.urgency@) is Some
        &&& response_matches(self.response@, self.objects_to_annotate@)
        &&& (status_from_name(self.status@) == Some(TaskStatus::Completed) <==> self.completed_at
            != 0)
    }
}

/// Whether `name` is one of `objs`.
fn names_contain(objs: &Vec<String>, name: &String) -> (r: bool)
    ensures
        r == names_of(objs@).contains(name@),
{
    let mut i: usize = 0;
    while i < objs.len()
        invariant
            i <= objs@.len(),
            forall|k: int| 0 <= k < i ==> objs@[k]@ != name@,
        decreases objs@.len() - i,
    {
        if objs[i] == *name {
            proof {
                assert(names_of(objs@)[i as int] == name@);
            }
            return true;
        }
        i = i + 1;
    }
    proof {
        if names_of(objs@).contains(name@) {
            let k = choose|k: int| 0 <= k < names_of(objs@).len() && names_of(objs@)[k] == name@;
            assert(objs@[k]@ != name@);
        }
    }
    false
}

/// Whether the response names exactly the given objects, each once.
pub fn check_response(resp: &Vec<ResponseEntry>, objs: &Vec<String>) -> (r: bool)
    ensures
        r == response_matches(resp@, objs@),
{
    let mut i: usize = 0;
    while i < resp.len()
        invariant
            i <= resp@.len(),
            keys_unique(resp@.take(i as int)),
            forall|k: int| 0 <= k < i ==> names_of(objs@).contains(#[trigger] resp@[k].object@),
        decreases resp@.len() - i,
    {
        let mut j: usize = 0;
        while j < i
            invariant
                i < resp@.len(),
                j <= i,
                forall|k: int| 0 <= k < j ==> resp@[k].object@ != resp@[i as int].object@,
            decreases i - j,
        {
            if resp[j].object == resp[i].object {
                proof {
                    assert(!keys_unique(resp@)) by {
                        assert(resp@[j as int].object@ == resp@[i as int].object@);
                    }
                }
                return false;
            }
            j = j + 1;
        }
        if !names_contain(objs, &resp[i].object) {
            proof {
                assert(keys_of(resp@)[i as int] == resp@[i as int].object@);
                assert(keys_of(resp@).to_set().contains(resp@[i as int].object@));
            }
            return false;
        }
        proof {
            let next = resp@.take(i + 1);
            assert forall|a: int, b: int| 0 <= a < b < i + 1 implies #[trigger] next[a].object@
                != #[trigger] next[b].object@ by {
                if b < i {
                    assert(resp@.take(i as int)[a] == resp@[a]);
                    assert(resp@.take(i as int)[b] == resp@[b]);
                }
            }
            assert(keys_unique(next));
        }
        i = i + 1;
    }
    proof {
        assert(resp@.take(resp@.len() as int) == resp@);
    }
    let mut m: usize = 0;
    while m < objs.len()
        invariant
            m <= objs@.len(),
            forall|k: int| 0 <= k < m ==> keys_of(resp@).contains(#[trigger] objs@[k]@),
        decreases objs@.len() - m,
    {
        let found = position_of(resp, &objs[m]);
        if let Some(p) = found {
            proof {
                assert(keys_of(resp@)[p as int] == objs@[m as int]@);
            }
        }
        if found.is_none() {
            proof {
                assert(names_of(objs@)[m as int] == objs@[m as int]@);
                assert(names_of(objs@).to_set().contains(objs@[m as int]@));
            }
            return false;
        }
        m = m + 1;
    }
    proof {
        assert forall|x: Seq<char>| keys_of(resp@).to_set().contains(x) implies names_of(
            objs@,
        ).to_set().contains(x) by {
            let k = choose|k: int| 0 <= k < keys_of(resp@).len() && keys_of(resp@)[k] == x;
            assert(names_of(objs@).contains(resp@[k].object@));
        }
        assert forall|x: Seq<char>| names_of(objs@).to_set().contains(x) implies keys_of(
            resp@,
        ).to_set().contains(x) by {
            let k = choose|k: int| 0 <= k < names_of(objs@).len() && names_of(objs@)[k] == x;
            assert(keys_of(resp@).contains(objs@[k]@));
        }
        assert(keys_of(resp@).to_set() =~= names_of(objs@).to_set());
    }
    true
}

impl Task {
    /// Status and urgency go to their stored text; every other field is kept.
    pub fn to_db_task(self) -> (r: DatabaseTask)
        ensures
            r.encodes(self),
    {
        DatabaseTask {
            id: self.id,
            created_at: self.created_at,
            completed_at: self.completed_at,
            instruction: self.instruction,
            status: status_text(self.status),
            urgency: urgency_text(self.urgency),
            task_type: self.task_type,
            attachment: self.attachment,
            objects_to_annotate: self.objects_to_annotate,
            with_labels: self.with_labels,
            response: self.response,
        }
    }
}

impl DatabaseTask {
    /// The task this row stores; `SerializationFailure` when the row holds an
    /// unknown status or urgency, or breaks a task invariant.
    pub fn to_task(self) -> (r: Result<Task, RegistryError>)
        ensures
            r is Ok <==> self.decodable(),
            r is Err ==> r == Err::<Task, RegistryError>(RegistryError::SerializationFailure),
            r matches Ok(t) ==> self.encodes(t) && t.wf(),
    {
        let status = match parse_status(&self.status) {
            Some(s) => s,
            None => {
                return Err(RegistryError::SerializationFailure);
            },
        };
        let urgency = match parse_urgency(&self.urgency) {
            Some(u) => u,
            None => {
                return Err(RegistryError::SerializationFailure);
            },
        };
        if !check_response(&self.response, &self.objects_to_annotate) {
            return Err(RegistryError::SerializationFailure);
        }
        if (status == TaskStatus::Completed) != (self.completed_at != 0) {
            return Err(RegistryError::SerializationFailure);
        }
        proof {
            lemma_status_name_round_trip(status);
            lemma_urgency_name_round_trip(urgency);
            lemma_status_name_unique(self.status@, status);
            lemma_urgency_name_unique(self.urgency@, urgency);
        }
        Ok(
            Task {
                id: self.id,
                created_at: self.created_at,
                completed_at: self.completed_at,
                instruction: self.instruction,
                status,
                urgency,
                task_type: self.task_type,
                attachment: self.attachment,
                objects_to_annotate: self.objects_to_annotate,
                with_labels: self.with_labels,
                response: self.response,
            },
        )
    }
}

proof fn lemma_status_name_unique(s: Seq<char>, st: TaskStatus)
    requires
        status_from_name(s) == Some(st),
    ensures
        s == status_name(st),
{
}

proof fn lemma_urgency_name_unique(s: Seq<char>, u: Urgency)
    requires
        urgency_from_name(s) == Some(u),
    ensures
        s == urgency_name(u),
{
}

/// A well-formed task survives a trip through its row: the row decodes, and
/// the task it decodes to is the original.
pub proof fn lemma_row_round_trip(t: Task, row: DatabaseTask, back: Task)
    requires
        t.wf(),
        row.encodes(t),
        row.encodes(back),
    ensures
        row.decodable(),
        back == t,
{
    lemma_status_name_round_trip(t.status);
    lemma_urgency_name_round_trip(t.urgency);
    lemma_status_name_round_trip(back.status);
    lemma_urgency_name_round_trip(back.urgency);
}

} // verus!
