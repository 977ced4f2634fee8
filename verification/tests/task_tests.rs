use claw::task::{Task, TaskList};

#[test]
fn test_task_creation() {
    let task = Task { id: 1, description: "Test task".to_string(), completed: false };

    assert_eq!(task.id, 1);
    assert_eq!(task.description, "Test task");
    assert!(!task.completed);
}

#[test]
fn test_tasklist_new() {
    let task_list = TaskList::new();
    assert!(task_list.is_empty());
    assert_eq!(task_list.len(), 0);
    assert_eq!(task_list.next_id, 0);
}

#[test]
fn task_test_add_task() {
    let mut task_list = TaskList::new();
    let id = task_list.add_task("Test task".to_string());

    assert_eq!(id, 0);
    assert_eq!(task_list.len(), 1);
    assert_eq!(task_list.next_id, 1);

    let task = task_list.get_task(0).unwrap();
    assert_eq!(task.description, "Test task");
    assert!(!task.completed);
}

#[test]
fn task_test_complete_task() {
    let mut task_list = TaskList::new();
    let id = task_list.add_task("Test task".to_string());

    assert!(task_list.complete_task(id));
    let task = task_list.get_task(id).unwrap();
    assert!(task.completed);

    // Completing a task that does not exist reports a miss.
    assert!(!task_list.complete_task(999));
}

#[test]
fn task_test_remove_task() {
    let mut task_list = TaskList::new();
    let id = task_list.add_task("Test task".to_string());

    assert_eq!(task_list.len(), 1);
    assert!(task_list.remove_task(id));
    assert_eq!(task_list.len(), 0);
    assert!(task_list.get_task(id).is_none());

    // Removing a task that does not exist reports a miss.
    assert!(!task_list.remove_task(999));
}

#[test]
fn test_multiple_tasks() {
    let mut task_list = TaskList::new();

    let id1 = task_list.add_task("First task".to_string());
    let id2 = task_list.add_task("Second task".to_string());
    let id3 = task_list.add_task("Third task".to_string());

    assert_eq!(task_list.len(), 3);
    assert_eq!(id1, 0);
    assert_eq!(id2, 1);
    assert_eq!(id3, 2);

    task_list.complete_task(id2);
    assert!(task_list.get_task(id2).unwrap().completed);
    assert!(!task_list.get_task(id1).unwrap().completed);
    assert!(!task_list.get_task(id3).unwrap().completed);

    task_list.remove_task(id1);
    assert_eq!(task_list.len(), 2);
    assert!(task_list.get_task(id1).is_none());
}

#[test]
fn test_task_serialization() {
    let mut task_list = TaskList::new();
    task_list.add_task("Test task".to_string());
    task_list.complete_task(0);

    let json = claw::codec::store_to_json(&task_list);
    let deserialized: TaskList = claw::codec::store_from_json(&json).unwrap();

    assert_eq!(task_list, deserialized);
}

#[test]
fn test_ids_not_reused_after_remove() {
    let mut task_list = TaskList::new();
    let id1 = task_list.add_task("one".to_string());
    let id2 = task_list.add_task("two".to_string());
    assert!(task_list.remove_task(id1));
    assert!(task_list.remove_task(id2));
    let id3 = task_list.add_task("three".to_string());
    assert!(id3 > id2 && id2 > id1);
    assert_eq!(id3, 2);
}

#[test]
fn test_toggle_task() {
    let mut task_list = TaskList::new();
    let id = task_list.add_task("flip me".to_string());
    assert!(task_list.toggle_task(id));
    assert!(task_list.get_task(id).unwrap().completed);
    assert!(task_list.toggle_task(id));
    assert!(!task_list.get_task(id).unwrap().completed);
    assert!(!task_list.toggle_task(999));
}

#[test]
fn test_pending_count() {
    let mut task_list = TaskList::new();
    assert_eq!(task_list.pending_count(), 0);
    task_list.add_task("one".to_string());
    task_list.add_task("two".to_string());
    task_list.add_task("three".to_string());
    assert_eq!(task_list.pending_count(), 3);
    task_list.complete_task(1);
    assert_eq!(task_list.pending_count(), 2);
}
