use claw::cli::{apply_command, shell_kind, Commands, ShellKind};
use claw::codec::{store_from_content, store_from_json, store_to_json};
use claw::render::list_lines;
use claw::task::TaskList;

fn lines_of(v: &[String]) -> Vec<&str> {
    v.iter().map(|s| s.as_str()).collect()
}

#[test]
fn test_store_to_json_exact() {
    let mut list = TaskList::new();
    list.add_task("a".to_string());
    list.complete_task(0);
    assert_eq!(
        store_to_json(&list),
        "{\"tasks\":[{\"id\":0,\"description\":\"a\",\"completed\":true}],\"next_id\":1}"
    );
    assert_eq!(store_to_json(&TaskList::new()), "{\"tasks\":[],\"next_id\":0}");
}

#[test]
fn test_store_round_trip_plain() {
    let mut list = TaskList::new();
    list.add_task("Write tests".to_string());
    list.add_task("Read mail".to_string());
    list.complete_task(1);
    list.remove_task(0);
    let json = store_to_json(&list);
    assert_eq!(store_from_json(&json), Some(list));
}

#[test]
fn test_store_round_trip_escapes() {
    let mut list = TaskList::new();
    list.add_task("say \"hi\" \\ twice".to_string());
    list.add_task("line\nbreak\ttab\rreturn".to_string());
    list.add_task("bell\u{7}null\u{0}unit\u{1f}".to_string());
    list.add_task("accents \u{e9}\u{fc} and beyond \u{1f600}".to_string());
    let json = store_to_json(&list);
    assert_eq!(store_from_json(&json), Some(list));
}

#[test]
fn test_store_from_json_rejects_garbage() {
    assert_eq!(store_from_json(""), None);
    assert_eq!(store_from_json("hello"), None);
    assert_eq!(store_from_json("{\"tasks\":[],\"next_id\":0} "), None);
    assert_eq!(store_from_json("{\"tasks\":[],\"next_id\":01}"), None);
}

#[test]
fn test_store_from_content_defaults() {
    let empty = store_from_content(None);
    assert!(empty.is_empty());
    assert_eq!(empty.next_id, 0);
    let broken = store_from_content(Some("not json"));
    assert!(broken.is_empty());
    assert_eq!(broken.next_id, 0);
    let loaded = store_from_content(Some("{\"tasks\":[],\"next_id\":5}"));
    assert!(loaded.is_empty());
    assert_eq!(loaded.next_id, 5);
}

#[test]
fn test_list_empty_store() {
    let list = TaskList::new();
    let lines = list_lines(&list);
    assert_eq!(lines_of(&lines), vec!["No tasks found."]);
}

#[test]
fn test_complete_missing_task_message() {
    let mut list = TaskList::new();
    let outcome = apply_command(&mut list, &Commands::Complete { id: 999 });
    assert_eq!(lines_of(&outcome.lines), vec!["Task 999 not found"]);
    assert!(!outcome.save);
    assert_eq!(list, TaskList::new());
}

#[test]
fn test_remove_missing_task_message() {
    let mut list = TaskList::new();
    list.add_task("keep me".to_string());
    let before = list.clone();
    let outcome = apply_command(&mut list, &Commands::Remove { id: 999 });
    assert_eq!(lines_of(&outcome.lines), vec!["Task 999 not found"]);
    assert!(!outcome.save);
    assert_eq!(list, before);
}

#[test]
fn test_workflow_add_complete_remove_list() {
    let mut list = TaskList::new();
    for title in ["Task 1", "Task 2", "Task 3"] {
        let outcome = apply_command(&mut list, &Commands::Add { description: title.to_string() });
        assert_eq!(lines_of(&outcome.lines), vec![format!("Added task: {}", title).as_str()]);
        assert!(outcome.save);
    }

    let outcome = apply_command(&mut list, &Commands::Complete { id: 1 });
    assert_eq!(lines_of(&outcome.lines), vec!["Completed task 1"]);
    assert!(outcome.save);

    let outcome = apply_command(&mut list, &Commands::Remove { id: 0 });
    assert_eq!(lines_of(&outcome.lines), vec!["Removed task 0"]);
    assert!(outcome.save);

    let outcome = apply_command(&mut list, &Commands::List);
    assert!(!outcome.save);
    assert_eq!(
        lines_of(&outcome.lines),
        vec!["Tasks:", "  \u{2713} [1] Task 2", "  \u{25cb} [2] Task 3"]
    );
    assert!(outcome.lines.iter().all(|line| !line.contains("Task 1")));
}

#[test]
fn test_list_after_single_add() {
    let mut list = TaskList::new();
    apply_command(&mut list, &Commands::Add { description: "Test task".to_string() });
    let outcome = apply_command(&mut list, &Commands::List);
    assert_eq!(lines_of(&outcome.lines), vec!["Tasks:", "  \u{25cb} [0] Test task"]);
}

#[test]
fn test_shell_kind_names() {
    assert_eq!(shell_kind("bash"), Some(ShellKind::Bash));
    assert_eq!(shell_kind("BASH"), Some(ShellKind::Bash));
    assert_eq!(shell_kind("Zsh"), Some(ShellKind::Zsh));
    assert_eq!(shell_kind("fish"), Some(ShellKind::Fish));
    assert_eq!(shell_kind("PowerShell"), Some(ShellKind::PowerShell));
    assert_eq!(shell_kind("invalid"), None);
    assert_eq!(shell_kind(""), None);
}

#[test]
fn test_completions_and_tui_touch_nothing() {
    let mut list = TaskList::new();
    list.add_task("stay".to_string());
    let before = list.clone();
    let outcome = apply_command(&mut list, &Commands::Completions { shell: "bash".to_string() });
    assert!(outcome.lines.is_empty() && !outcome.save);
    let outcome = apply_command(&mut list, &Commands::Tui);
    assert!(outcome.lines.is_empty() && !outcome.save);
    assert_eq!(list, before);
}

#[test]
fn test_join_words() {
    assert_eq!(claw::cli::join_words(&vec![]), "");
    assert_eq!(claw::cli::join_words(&vec!["Buy".to_string()]), "Buy");
    assert_eq!(
        claw::cli::join_words(&vec!["Buy".to_string(), "milk".to_string(), "now".to_string()]),
        "Buy milk now"
    );
}

#[test]
fn test_task_json_exact_and_round_trip() {
    let task = claw::task::Task { id: 3, description: "water plants".to_string(), completed: false };
    let json = claw::codec::task_to_json(&task);
    assert_eq!(json, "{\"id\":3,\"description\":\"water plants\",\"completed\":false}");
    assert_eq!(claw::codec::task_from_json(&json), Some(task));
    assert_eq!(claw::codec::task_from_json("{\"id\":3}"), None);
}

#[test]
fn test_rebuild_store_sorts_and_rebuilds_counter() {
    let mk = |id: usize, d: &str| claw::task::Task {
        id,
        description: d.to_string(),
        completed: false,
    };
    let rebuilt = claw::task::rebuild_store(vec![mk(5, "e"), mk(2, "b"), mk(9, "i")]);
    let ids: Vec<usize> = rebuilt.tasks.iter().map(|t| t.id).collect();
    assert_eq!(ids, vec![2, 5, 9]);
    assert_eq!(rebuilt.next_id, 10);
    assert_eq!(rebuilt.tasks.iter().find(|t| t.id == 2).unwrap().description, "b");

    let empty = claw::task::rebuild_store(vec![]);
    assert_eq!(empty.next_id, 0);
    assert!(empty.tasks.is_empty());
}

#[test]
fn test_task_line_body_has_no_indent() {
    let task = claw::task::Task { id: 4, description: "walk".to_string(), completed: true };
    assert_eq!(claw::render::format_task_line_body(&task), "\u{2713} [4] walk");
    assert_eq!(claw::render::format_task_line(&task), "  \u{2713} [4] walk");
}
