use claw::manager::{Config, Task, TaskInStore, TaskManager, UUIDorIndex};
use std::time::{SystemTime, UNIX_EPOCH};

fn setup_manager_with_tasks(n: usize) -> TaskManager {
    let mut manager = TaskManager::new(Config::default());
    for i in 0..n {
        manager.create_task(format!("Task {}", i));
    }
    manager
}

#[test]
fn test_task_new() {
    let title = String::from("Test Task");
    let index = 1;
    let task = Task::new(title.clone(), index);
    assert_eq!(task.title, title);
    assert_eq!(task.index, index);
    assert!(task.tags.is_empty());
    assert!(task.description.is_none());
    assert!(task.project.is_none());
    assert!(task.due_date.is_none());
}

#[test]
fn test_task_display() {
    let title = String::from("Display Task");
    let index = 42;
    let task = Task::new(title.clone(), index);
    let display = task.display_string();
    assert_eq!(display, format!("[{}]: {}", index, title));
}

#[test]
fn test_task_clone() {
    let task1 = Task::new("Clone Task".to_string(), 2);
    let task2 = task1.clone();
    assert_eq!(task1.title, task2.title);
    assert_eq!(task1.index, task2.index);
    assert_eq!(task1.uuid, task2.uuid);
}

#[test]
fn test_task_timestamps() {
    let task = Task::new("Timestamp Task".to_string(), 3);
    let now = SystemTime::now().duration_since(UNIX_EPOCH).unwrap();
    // Allow a small difference due to execution time
    assert!(task.created_at.secs <= now.as_secs());
    assert!(task.updated_at.secs <= now.as_secs());
    assert!(now.as_secs() - task.created_at.secs < 5);
    assert!(now.as_secs() - task.updated_at.secs < 5);
}

#[test]
fn test_create_task_normal() {
    let mut manager = TaskManager::new(Config::default());
    let task = manager.create_task("Test Task".to_string());
    assert_eq!(task.title, "Test Task");
    assert_eq!(task.index, 0);
    assert_eq!(manager.tasks.len(), 1);
    assert_eq!(manager.tasks[0].uuid, task.uuid);
}

#[test]
fn test_create_task_empty_title() {
    let mut manager = TaskManager::new(Config::default());
    let task = manager.create_task("".to_string());
    assert_eq!(task.title, "");
    assert_eq!(task.index, 0);
    assert_eq!(manager.tasks.len(), 1);
}

#[test]
fn test_remove_task_by_uuid_existing() {
    let mut manager = setup_manager_with_tasks(2);
    let uuid = manager.tasks[0].uuid;
    manager.remove_task(UUIDorIndex::UUID(uuid));
    assert_eq!(manager.tasks.len(), 1);
    assert!(manager.tasks.iter().all(|t| t.uuid != uuid));
}

#[test]
fn test_remove_task_by_uuid_non_existing() {
    let mut manager = setup_manager_with_tasks(2);
    let fake_uuid = uuid::Uuid::now_v7().as_u128();
    let len_before = manager.tasks.len();
    manager.remove_task(UUIDorIndex::UUID(fake_uuid));
    assert_eq!(manager.tasks.len(), len_before);
}

#[test]
fn test_remove_task_by_index_valid() {
    let mut manager = setup_manager_with_tasks(3);
    manager.remove_task(UUIDorIndex::Index(1));
    assert_eq!(manager.tasks.len(), 2);
    // Ensure the correct task was removed
    assert_eq!(manager.tasks[0].index, 0);
    assert_eq!(manager.tasks[1].index, 2);
}

#[test]
fn test_remove_task_by_index_out_of_bounds() {
    let mut manager = setup_manager_with_tasks(2);
    manager.remove_task(UUIDorIndex::Index(5));
    assert_eq!(manager.tasks.len(), 2);
}

#[test]
fn test_get_tasks_by_uuid_existing() {
    let manager = setup_manager_with_tasks(2);
    let uuid = manager.tasks[1].uuid;
    let task = manager.get_task(UUIDorIndex::UUID(uuid));
    assert!(task.is_some());
    assert_eq!(task.unwrap().uuid, uuid);
}

#[test]
fn test_get_tasks_by_uuid_non_existing() {
    let manager = setup_manager_with_tasks(2);
    let fake_uuid = uuid::Uuid::now_v7().as_u128();
    let task = manager.get_task(UUIDorIndex::UUID(fake_uuid));
    assert!(task.is_none());
}

#[test]
fn test_get_tasks_by_index_valid() {
    let manager = setup_manager_with_tasks(2);
    let task = manager.get_task(UUIDorIndex::Index(1));
    assert!(task.is_some());
    assert_eq!(task.unwrap().index, 1);
}

#[test]
fn test_get_tasks_by_index_out_of_bounds() {
    let manager = setup_manager_with_tasks(2);
    let task = manager.get_task(UUIDorIndex::Index(5));
    assert!(task.is_none());
}

#[test]
fn test_get_tasks_by_priority_takes_prefix() {
    let manager = setup_manager_with_tasks(3);
    let first_two = manager.get_tasks_by_priority(2);
    assert_eq!(first_two.len(), 2);
    assert_eq!(first_two[0].index, 0);
    assert_eq!(first_two[1].index, 1);
    assert_eq!(manager.get_tasks_by_priority(10).len(), 3);
}

#[test]
fn test_task_store_round_trip_through_store_form() {
    let task = Task::new("Stored".to_string(), 7);
    let uuid = task.uuid;
    let stored: TaskInStore = task.clone().into();
    let back = claw::manager::task_from_store(stored, uuid);
    assert_eq!(back.title, task.title);
    assert_eq!(back.index, task.index);
    assert_eq!(back.uuid, task.uuid);
    assert_eq!(back.created_at, task.created_at);
}

#[test]
fn test_parse_id_index() {
    assert_eq!(claw::manager::parse_id("42"), Ok(UUIDorIndex::Index(42)));
    assert_eq!(claw::manager::parse_id("007"), Ok(UUIDorIndex::Index(7)));
    assert_eq!(claw::manager::parse_id("+3"), Ok(UUIDorIndex::Index(3)));
}

#[test]
fn test_parse_id_uuid() {
    let text = "67e55044-10b1-426f-9247-bb680e5fe0c8";
    let expected = uuid::Uuid::parse_str(text).unwrap().as_u128();
    assert_eq!(claw::manager::parse_id(text), Ok(UUIDorIndex::UUID(expected)));
    assert_eq!(expected, 0x67e5504410b1426f9247bb680e5fe0c8);
}

#[test]
fn test_parse_id_invalid() {
    assert_eq!(
        claw::manager::parse_id("not-an-id"),
        Err("Invalid UUID or index: not-an-id".to_string())
    );
}

#[test]
fn test_task_store_path() {
    let config = Config { store_location: Some("/tmp/claw".to_string()) };
    assert_eq!(config.get_task_store_path(), Some("/tmp/claw/tasks".to_string()));
    assert_eq!(Config::default().get_task_store_path(), None);
}

#[test]
fn test_insert_loaded_rebuilds_counter() {
    let mut manager = TaskManager::new(Config::default());
    let a = Task::new("a".to_string(), 0);
    let b = Task::new("b".to_string(), 5);
    manager.insert_loaded(a.clone());
    assert_eq!(manager.next_index, 1);
    manager.insert_loaded(b.clone());
    assert_eq!(manager.tasks.len(), 2);
    assert_eq!(manager.tasks[0].uuid, a.uuid);
    assert_eq!(manager.tasks[1].uuid, b.uuid);
    // The counter stands one past the largest index seen, so a task
    // created after loading never reuses an index.
    assert_eq!(manager.next_index, 6);
    let fresh = manager.create_task("fresh".to_string());
    assert_eq!(fresh.index, 6);
}

#[test]
fn test_parse_id_through_from_str() {
    let parsed: Result<UUIDorIndex, String> = "17".parse();
    assert_eq!(parsed, Ok(UUIDorIndex::Index(17)));
    let parsed: Result<UUIDorIndex, String> = "nope".parse();
    assert_eq!(parsed, Err("Invalid UUID or index: nope".to_string()));
}
