use claw::config::Config;
use claw::task::TaskList;

fn create_test_config() -> Config {
    Config {
        data_dir: None,
        data_format: Some("json".to_string()),
        default_priority: Some("high".to_string()),
        show_completed: Some(false),
    }
}

fn create_sample_task_list() -> TaskList {
    let mut task_list = TaskList::new();
    task_list.add_task("First task".to_string());
    task_list.add_task("Second task".to_string());
    task_list.add_task("Third task".to_string());
    task_list.complete_task(1); // Complete second task
    task_list
}

fn assert_task_exists(task_list: &TaskList, id: usize, description: &str, completed: bool) {
    let task = task_list.get_task(id).unwrap_or_else(|| panic!("Task {} should exist", id));
    assert_eq!(task.description, description);
    assert_eq!(task.completed, completed);
}

fn count_completed_tasks(task_list: &TaskList) -> usize {
    task_list.tasks.iter().filter(|t| t.completed).count()
}

fn count_pending_tasks(task_list: &TaskList) -> usize {
    task_list.tasks.iter().filter(|t| !t.completed).count()
}

#[test]
fn test_create_test_config() {
    let config = create_test_config();
    assert_eq!(config.data_format, Some("json".to_string()));
    assert_eq!(config.default_priority, Some("high".to_string()));
    assert_eq!(config.show_completed, Some(false));
}

#[test]
fn test_create_sample_task_list() {
    let task_list = create_sample_task_list();
    assert_eq!(task_list.len(), 3);
    assert_eq!(count_completed_tasks(&task_list), 1);
    assert_eq!(count_pending_tasks(&task_list), 2);

    assert_task_exists(&task_list, 0, "First task", false);
    assert_task_exists(&task_list, 1, "Second task", true);
    assert_task_exists(&task_list, 2, "Third task", false);
}

#[test]
fn test_task_counting() {
    let mut task_list = TaskList::new();
    assert_eq!(count_completed_tasks(&task_list), 0);
    assert_eq!(count_pending_tasks(&task_list), 0);

    task_list.add_task("Task 1".to_string());
    task_list.add_task("Task 2".to_string());
    assert_eq!(count_completed_tasks(&task_list), 0);
    assert_eq!(count_pending_tasks(&task_list), 2);

    task_list.complete_task(0);
    assert_eq!(count_completed_tasks(&task_list), 1);
    assert_eq!(count_pending_tasks(&task_list), 1);
}

#[test]
fn test_config_default() {
    let config = Config::default();
    assert_eq!(config.data_format, Some("json".to_string()));
    assert_eq!(config.default_priority, Some("medium".to_string()));
    assert_eq!(config.show_completed, Some(true));
}

#[test]
fn test_default_with_home_paths() {
    let config = claw::config::default_with_home(Some("/home/someone".to_string()));
    assert_eq!(config.data_dir, Some("/home/someone/.taskclaw".to_string()));
    let config = claw::config::default_with_home(None);
    assert_eq!(config.data_dir, None);
}

#[test]
fn test_config_file_path_fallbacks() {
    assert_eq!(
        claw::config::config_file_path(Some("/etc/xdg".to_string()), None),
        "/etc/xdg/claw/config.toml"
    );
    assert_eq!(
        claw::config::config_file_path(None, Some("/home/someone".to_string())),
        "/home/someone/.config/claw/config.toml"
    );
    assert_eq!(claw::config::config_file_path(None, None), "./.config/claw/config.toml");
}

#[test]
fn test_data_file_path() {
    assert_eq!(
        claw::config::data_file_path(Some("/home/someone".to_string())),
        "/home/someone/.taskclaw.json"
    );
    assert_eq!(claw::config::data_file_path(None), "./.taskclaw.json");
    assert!(claw::config::get_data_file().ends_with("/.taskclaw.json"));
}
