use task_registry::codec::{parse_status, parse_urgency, status_text, urgency_text, check_response};
use task_registry::model::{BoundingBox, NewTask, RegistryError, ResponseEntry, Task, TaskStatus, Urgency};
use task_registry::registry::{decide, Allocation, Registry, MAX_DRAWS};

fn request(instruction: &str, objects: &[&str], urgency: Option<Urgency>) -> NewTask {
    NewTask {
        instruction: instruction.to_string(),
        urgency,
        objects: objects.iter().map(|s| s.to_string()).collect(),
        with_labels: true,
        attachment: "img.png".to_string(),
    }
}

fn is_empty(b: &BoundingBox) -> bool {
    b.left == 0 && b.top == 0 && b.width == 0 && b.height == 0 && b.label.is_none()
}

#[test]
fn create_find_cats() {
    let mut reg = Registry::new();
    let id = reg.create(request("find cats", &["cat1", "cat2"], None), 1_700_000_000).unwrap();
    let t = reg.find(id).unwrap();
    assert_eq!(t.id, id);
    assert_eq!(t.status, TaskStatus::Pending);
    assert_eq!(t.completed_at, 0);
    assert_eq!(t.created_at, 1_700_000_000);
    assert_eq!(t.urgency, Urgency::Week);
    assert_eq!(t.task_type, "annotation");
    assert_eq!(t.instruction, "find cats");
    assert_eq!(t.attachment, "img.png");
    assert!(t.with_labels);
    assert_eq!(t.objects_to_annotate, vec!["cat1".to_string(), "cat2".to_string()]);
    let keys: Vec<&str> = t.response.iter().map(|e| e.object.as_str()).collect();
    assert_eq!(keys, vec!["cat1", "cat2"]);
    assert!(t.response.iter().all(|e| is_empty(&e.bbox)));
}

#[test]
fn urgency_defaults_to_week() {
    let t = Task::from_new_task(request("x", &["a"], None), 3, 10);
    assert_eq!(t.urgency, Urgency::Week);
    let t = Task::from_new_task(request("x", &["a"], Some(Urgency::Immediate)), 3, 10);
    assert_eq!(t.urgency, Urgency::Immediate);
}

#[test]
fn repeated_objects_get_one_box() {
    let t = Task::from_new_task(request("x", &["dog", "cat", "dog"], None), 1, 1);
    let keys: Vec<&str> = t.response.iter().map(|e| e.object.as_str()).collect();
    assert_eq!(keys, vec!["dog", "cat"]);
    assert_eq!(t.objects_to_annotate.len(), 3);
}

#[test]
fn no_objects_means_empty_response() {
    let t = Task::from_new_task(request("x", &[], None), 1, 1);
    assert!(t.response.is_empty());
}

#[test]
fn get_unknown_id_is_not_found() {
    let mut reg = Registry::new();
    assert!(reg.get(42).is_none());
    assert_eq!(reg.find(42).err(), Some(RegistryError::NotFound));
    reg.insert(Task::from_new_task(request("x", &["a"], None), 7, 1)).unwrap();
    assert!(reg.get(42).is_none());
    assert_eq!(reg.find(42).err(), Some(RegistryError::NotFound));
}

#[test]
fn get_after_insert_returns_same_task() {
    let mut reg = Registry::new();
    let t = Task::from_new_task(request("label birds", &["bird"], Some(Urgency::Day)), 99, 5);
    let copy = t.clone();
    reg.insert(t).unwrap();
    assert_eq!(reg.get(99), Some(&copy));
}

#[test]
fn insert_same_id_conflicts() {
    let mut reg = Registry::new();
    reg.insert(Task::from_new_task(request("a", &["a"], None), 5, 1)).unwrap();
    let r = reg.insert(Task::from_new_task(request("b", &["b"], None), 5, 2));
    assert_eq!(r, Err(RegistryError::Conflict));
    assert_eq!(reg.len(), 1);
    assert_eq!(reg.get(5).unwrap().instruction, "a");
}

#[test]
fn many_creates_give_distinct_ids() {
    let mut reg = Registry::new();
    let mut ids = Vec::new();
    for i in 0..200u64 {
        ids.push(reg.create(request("t", &["o"], None), i).unwrap());
    }
    let mut sorted = ids.clone();
    sorted.sort();
    sorted.dedup();
    assert_eq!(sorted.len(), 200);
    assert_eq!(reg.len(), 200);
}

#[test]
fn two_creates_differ() {
    let mut reg = Registry::new();
    let a = reg.create(request("a", &["x"], None), 1).unwrap();
    let b = reg.create(request("b", &["y"], None), 2).unwrap();
    assert_ne!(a, b);
}

#[test]
fn list_pending_excludes_finished() {
    let mut reg = Registry::new();
    let pending = Task::from_new_task(request("p", &["a"], None), 1, 1);
    let mut done = Task::from_new_task(request("c", &["a"], None), 2, 1);
    done.complete(50).unwrap();
    let mut broken = Task::from_new_task(request("b", &["a"], None), 3, 1);
    broken.mark_broken().unwrap();
    let pending2 = Task::from_new_task(request("q", &["a"], None), 4, 1);
    reg.insert(pending).unwrap();
    reg.insert(done).unwrap();
    reg.insert(broken).unwrap();
    reg.insert(pending2).unwrap();
    let ids: Vec<u32> = reg.list_pending().iter().map(|t| t.id).collect();
    assert_eq!(ids, vec![1, 4]);
    let ids: Vec<u32> = reg.list(TaskStatus::Completed).iter().map(|t| t.id).collect();
    assert_eq!(ids, vec![2]);
    let ids: Vec<u32> = reg.list(TaskStatus::Broken).iter().map(|t| t.id).collect();
    assert_eq!(ids, vec![3]);
}

#[test]
fn list_pending_on_empty_store() {
    let reg = Registry::new();
    assert!(reg.list_pending().is_empty());
}

#[test]
fn decide_branches() {
    assert_eq!(decide(1, 17, false), Allocation::Accept(17));
    assert_eq!(decide(1, 17, true), Allocation::Redraw);
    assert_eq!(decide(MAX_DRAWS - 1, 17, true), Allocation::Redraw);
    assert_eq!(decide(MAX_DRAWS, 17, true), Allocation::Exhausted);
    assert_eq!(decide(MAX_DRAWS, 17, false), Allocation::Accept(17));
}

#[test]
fn complete_sets_time_once() {
    let mut t = Task::from_new_task(request("x", &["a"], None), 1, 1);
    assert_eq!(t.complete(0), Err(RegistryError::InvalidTransition));
    assert_eq!(t.status, TaskStatus::Pending);
    assert_eq!(t.complete(77), Ok(()));
    assert_eq!(t.status, TaskStatus::Completed);
    assert_eq!(t.completed_at, 77);
    assert_eq!(t.complete(88), Err(RegistryError::InvalidTransition));
    assert_eq!(t.mark_broken(), Err(RegistryError::InvalidTransition));
    assert_eq!(t.completed_at, 77);
}

#[test]
fn broken_is_terminal() {
    let mut t = Task::from_new_task(request("x", &["a"], None), 1, 1);
    assert_eq!(t.mark_broken(), Ok(()));
    assert_eq!(t.status, TaskStatus::Broken);
    assert_eq!(t.completed_at, 0);
    assert_eq!(t.mark_broken(), Err(RegistryError::InvalidTransition));
    assert_eq!(t.complete(5), Err(RegistryError::InvalidTransition));
}

#[test]
fn set_box_on_known_and_unknown_object() {
    let mut t = Task::from_new_task(request("x", &["cat1", "cat2"], None), 1, 1);
    let b = BoundingBox { left: 1, top: 2, width: 3, height: 4, label: Some("tabby".to_string()) };
    assert_eq!(t.set_box(&"cat2".to_string(), b.clone()), Ok(()));
    assert_eq!(t.response[1].bbox, b);
    assert!(is_empty(&t.response[0].bbox));
    assert_eq!(t.set_box(&"dog".to_string(), b.clone()), Err(RegistryError::UnknownObject));
    t.mark_broken().unwrap();
    assert_eq!(t.set_box(&"cat1".to_string(), b), Err(RegistryError::InvalidTransition));
}

#[test]
fn status_and_urgency_texts() {
    assert_eq!(status_text(TaskStatus::Pending), "pending");
    assert_eq!(status_text(TaskStatus::Completed), "completed");
    assert_eq!(status_text(TaskStatus::Broken), "broken");
    assert_eq!(urgency_text(Urgency::Immediate), "immediate");
    assert_eq!(urgency_text(Urgency::Day), "day");
    assert_eq!(urgency_text(Urgency::Week), "week");
    for s in [TaskStatus::Pending, TaskStatus::Completed, TaskStatus::Broken] {
        assert_eq!(parse_status(&status_text(s)), Some(s));
    }
    for u in [Urgency::Immediate, Urgency::Day, Urgency::Week] {
        assert_eq!(parse_urgency(&urgency_text(u)), Some(u));
    }
    assert_eq!(parse_status(&"Pending".to_string()), None);
    assert_eq!(parse_urgency(&"".to_string()), None);
}

#[test]
fn row_round_trip() {
    let mut t = Task::from_new_task(request("find cats", &["cat1", "cat2"], Some(Urgency::Day)), 12, 34);
    t.complete(56).unwrap();
    let copy = t.clone();
    let row = t.to_db_task();
    assert_eq!(row.status, "completed");
    assert_eq!(row.urgency, "day");
    assert_eq!(row.to_task(), Ok(copy));
}

#[test]
fn row_with_bad_text_fails() {
    let t = Task::from_new_task(request("x", &["a"], None), 1, 1);
    let mut row = t.clone().to_db_task();
    row.status = "done".to_string();
    assert_eq!(row.to_task(), Err(RegistryError::SerializationFailure));
    let mut row = t.clone().to_db_task();
    row.urgency = "soon".to_string();
    assert_eq!(row.to_task(), Err(RegistryError::SerializationFailure));
}

#[test]
fn row_breaking_invariants_fails() {
    let t = Task::from_new_task(request("x", &["a", "b"], None), 1, 1);
    let mut row = t.clone().to_db_task();
    row.response.pop();
    assert_eq!(row.to_task(), Err(RegistryError::SerializationFailure));
    let mut row = t.clone().to_db_task();
    row.completed_at = 9;
    assert_eq!(row.to_task(), Err(RegistryError::SerializationFailure));
    let mut row = t.to_db_task();
    row.response.push(ResponseEntry { object: "a".to_string(), bbox: BoundingBox::empty() });
    row.objects_to_annotate.push("a".to_string());
    assert_eq!(row.to_task(), Err(RegistryError::SerializationFailure));
}

#[test]
fn check_response_cases() {
    let objs = vec!["a".to_string(), "b".to_string()];
    let entry = |n: &str| ResponseEntry { object: n.to_string(), bbox: BoundingBox::empty() };
    assert!(check_response(&vec![entry("b"), entry("a")], &objs));
    assert!(!check_response(&vec![entry("a")], &objs));
    assert!(!check_response(&vec![entry("a"), entry("b"), entry("c")], &objs));
    assert!(!check_response(&vec![entry("a"), entry("a"), entry("b")], &objs));
    assert!(check_response(&vec![], &vec![]));
}

#[test]
fn stored_task_transitions() {
    let mut reg = Registry::new();
    let a = reg.create(request("a", &["x"], None), 1).unwrap();
    let b = reg.create(request("b", &["y"], None), 2).unwrap();
    let missing = if a != 0 && b != 0 { 0 } else if a != 1 && b != 1 { 1 } else { 2 };
    assert_eq!(reg.complete_task(missing, 5), Err(RegistryError::NotFound));
    assert_eq!(reg.break_task(missing), Err(RegistryError::NotFound));
    assert_eq!(reg.complete_task(a, 0), Err(RegistryError::InvalidTransition));
    assert_eq!(reg.complete_task(a, 9), Ok(()));
    assert_eq!(reg.get(a).unwrap().status, TaskStatus::Completed);
    assert_eq!(reg.get(a).unwrap().completed_at, 9);
    assert_eq!(reg.break_task(a), Err(RegistryError::InvalidTransition));
    assert_eq!(reg.break_task(b), Ok(()));
    assert_eq!(reg.get(b).unwrap().status, TaskStatus::Broken);
    assert_eq!(reg.complete_task(b, 3), Err(RegistryError::InvalidTransition));
    assert!(reg.list_pending().is_empty());
    assert_eq!(reg.len(), 2);
}

#[test]
fn new_keeps_every_field() {
    let resp = vec![ResponseEntry { object: "o".to_string(), bbox: BoundingBox::empty() }];
    let t = Task::new(
        4,
        5,
        6,
        "i".to_string(),
        TaskStatus::Completed,
        Urgency::Day,
        "annotation".to_string(),
        "file.jpg".to_string(),
        vec!["o".to_string()],
        false,
        resp.clone(),
    );
    assert_eq!(t.id, 4);
    assert_eq!(t.created_at, 5);
    assert_eq!(t.completed_at, 6);
    assert_eq!(t.instruction, "i");
    assert_eq!(t.status, TaskStatus::Completed);
    assert_eq!(t.urgency, Urgency::Day);
    assert_eq!(t.attachment, "file.jpg");
    assert!(!t.with_labels);
    assert_eq!(t.response, resp);
}

#[test]
fn empty_box_is_zero() {
    let b = BoundingBox::empty();
    assert!(is_empty(&b));
}

#[test]
fn pending_listed_by_creation_time() {
    let mut reg = Registry::new();
    reg.insert(Task::from_new_task(request("late", &["a"], None), 1, 30)).unwrap();
    reg.insert(Task::from_new_task(request("early", &["a"], None), 2, 10)).unwrap();
    reg.insert(Task::from_new_task(request("middle", &["a"], None), 3, 20)).unwrap();
    reg.insert(Task::from_new_task(request("middle too", &["a"], None), 4, 20)).unwrap();
    let times: Vec<u64> = reg.list_pending().iter().map(|t| t.created_at).collect();
    assert_eq!(times, vec![10, 20, 20, 30]);
    let ids: Vec<u32> = reg.list_pending().iter().map(|t| t.id).collect();
    assert_eq!(ids, vec![2, 3, 4, 1]);
}

#[test]
fn create_on_empty_store_succeeds() {
    let mut reg = Registry::new();
    assert!(reg.allocate().is_ok());
    assert!(reg.create(request("x", &["a"], None), 0).is_ok());
}
