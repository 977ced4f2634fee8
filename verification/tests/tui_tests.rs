use claw::task::TaskList;
use claw::tui::{App, AppMode, InputEvent, InputMode, KeyCode, KeyEvent, Modifiers, TermEvent};

fn key(code: KeyCode) -> TermEvent {
    TermEvent::Key(KeyEvent { code, modifiers: Modifiers::none() })
}

fn ctrl(code: KeyCode) -> TermEvent {
    TermEvent::Key(KeyEvent {
        code,
        modifiers: Modifiers { control: true, alt: false, shift: false, other: false },
    })
}

fn type_text(app: &mut App, text: &str) {
    for c in text.chars() {
        assert!(app.handle_event(key(KeyCode::Char(c))));
    }
}

#[test]
fn test_app_initial_state() {
    let app = App::new(TaskList::new());
    assert_eq!(app.mode, AppMode::Normal);
    assert_eq!(app.input_mode, InputMode::Normal);
    assert_eq!(app.input_buffer, "");
    assert_eq!(app.selected_task, 0);
    assert!(!app.show_help);
    assert!(!app.should_quit);
    assert_eq!(app.status_message, "Press 'h' for help, 'q' to quit");
}

#[test]
fn test_add_task_through_editor() {
    let mut app = App::new(TaskList::new());
    assert!(app.handle_event(key(KeyCode::Char('a'))));
    assert_eq!(app.input_mode, InputMode::Editing);
    assert_eq!(app.mode, AppMode::Insert);
    assert_eq!(app.status_message, "Enter task description (ESC to cancel, Enter to save)");

    type_text(&mut app, "Buy milk");
    assert_eq!(app.input_buffer, "Buy milk");

    assert!(app.handle_event(key(KeyCode::Enter)));
    assert_eq!(app.input_mode, InputMode::Normal);
    assert_eq!(app.mode, AppMode::Normal);
    assert_eq!(app.input_buffer, "");
    assert_eq!(app.status_message, "Added task: Buy milk");

    let list = app.into_task_list();
    assert_eq!(list.len(), 1);
    let task = list.get_task(0).unwrap();
    assert_eq!(task.description, "Buy milk");
    assert!(!task.completed);
}

#[test]
fn test_blank_description_rejected() {
    let mut app = App::new(TaskList::new());
    app.handle_event(key(KeyCode::Char('a')));
    type_text(&mut app, "   \t ");
    app.handle_event(key(KeyCode::Enter));
    assert_eq!(app.status_message, "Task description cannot be empty");
    // A rejected commit keeps the editor open.
    assert_eq!(app.input_mode, InputMode::Editing);
    assert_eq!(app.mode, AppMode::Insert);
    assert!(app.task_list.is_empty());
    // Typing on and committing a real description still works.
    type_text(&mut app, "now for real");
    app.handle_event(key(KeyCode::Enter));
    assert_eq!(app.input_mode, InputMode::Normal);
    assert_eq!(app.task_list.len(), 1);
}

#[test]
fn test_escape_discards_buffer() {
    let mut app = App::new(TaskList::new());
    app.handle_event(key(KeyCode::Char('a')));
    type_text(&mut app, "half an idea");
    app.handle_event(key(KeyCode::Esc));
    assert_eq!(app.input_buffer, "");
    assert_eq!(app.input_mode, InputMode::Normal);
    assert_eq!(app.status_message, "Cancelled");
    assert!(app.task_list.is_empty());
}

#[test]
fn test_backspace_edits_buffer() {
    let mut app = App::new(TaskList::new());
    app.handle_event(key(KeyCode::Char('a')));
    type_text(&mut app, "abc");
    app.handle_event(key(KeyCode::Backspace));
    assert_eq!(app.input_buffer, "ab");
    app.handle_event(key(KeyCode::Backspace));
    app.handle_event(key(KeyCode::Backspace));
    app.handle_event(key(KeyCode::Backspace));
    assert_eq!(app.input_buffer, "");
}

fn app_with_tasks(n: usize) -> App {
    let mut list = TaskList::new();
    for i in 0..n {
        list.add_task(format!("Task {}", i));
    }
    App::new(list)
}

#[test]
fn test_navigation_clamps() {
    let mut app = app_with_tasks(3);
    app.handle_event(key(KeyCode::Char('k')));
    assert_eq!(app.selected_task, 0);
    app.handle_event(key(KeyCode::Char('j')));
    assert_eq!(app.selected_task, 1);
    app.handle_event(key(KeyCode::Down));
    app.handle_event(key(KeyCode::Down));
    assert_eq!(app.selected_task, 2);
    app.handle_event(key(KeyCode::Char('g')));
    assert_eq!(app.selected_task, 0);
    app.handle_event(key(KeyCode::End));
    assert_eq!(app.selected_task, 2);
    app.handle_event(key(KeyCode::Up));
    assert_eq!(app.selected_task, 1);
    app.handle_event(key(KeyCode::Home));
    assert_eq!(app.selected_task, 0);
}

#[test]
fn test_space_toggles_selected() {
    let mut app = app_with_tasks(2);
    app.handle_event(key(KeyCode::Char('j')));
    app.handle_event(key(KeyCode::Char(' ')));
    assert_eq!(app.status_message, "Completed task 1");
    assert!(app.task_list.get_task(1).unwrap().completed);
    assert!(!app.task_list.get_task(0).unwrap().completed);
    // A second press toggles the flag back off.
    app.handle_event(key(KeyCode::Char(' ')));
    assert!(!app.task_list.get_task(1).unwrap().completed);
}

#[test]
fn test_delete_clamps_cursor() {
    let mut app = app_with_tasks(2);
    app.handle_event(key(KeyCode::Char('G')));
    assert_eq!(app.selected_task, 1);
    app.handle_event(key(KeyCode::Char('d')));
    assert_eq!(app.status_message, "Deleted task 1");
    assert_eq!(app.task_list.len(), 1);
    assert_eq!(app.selected_task, 0);
    app.handle_event(key(KeyCode::Char('d')));
    assert_eq!(app.status_message, "Deleted task 0");
    assert!(app.task_list.is_empty());
    assert_eq!(app.selected_task, 0);
    // Deleting with nothing left changes nothing.
    app.handle_event(key(KeyCode::Char('d')));
    assert!(app.task_list.is_empty());
}

#[test]
fn test_help_toggles() {
    let mut app = App::new(TaskList::new());
    app.handle_event(key(KeyCode::Char('h')));
    assert!(app.show_help);
    assert_eq!(app.mode, AppMode::Help);
    app.handle_event(key(KeyCode::Char('h')));
    assert!(!app.show_help);
    assert_eq!(app.mode, AppMode::Normal);
}

#[test]
fn test_quit_keys() {
    let mut app = App::new(TaskList::new());
    assert!(!app.handle_event(key(KeyCode::Char('q'))));
    assert!(app.should_quit);
    assert!(!app.handle_event(key(KeyCode::Char('a'))));

    let mut app = App::new(TaskList::new());
    assert!(!app.handle_event(ctrl(KeyCode::Char('c'))));
    assert!(app.should_quit);
}

#[test]
fn test_other_events_ignored() {
    let mut app = app_with_tasks(1);
    assert!(app.handle_event(TermEvent::Other));
    assert_eq!(app.task_list.len(), 1);
    assert_eq!(app.status_message, "Press 'h' for help, 'q' to quit");
}

#[test]
fn test_input_event_classification() {
    assert_eq!(InputEvent::from(key(KeyCode::Char('q'))), InputEvent::Quit);
    assert_eq!(InputEvent::from(ctrl(KeyCode::Char('c'))), InputEvent::Quit);
    assert_eq!(InputEvent::from(key(KeyCode::Char('x'))), InputEvent::Key(KeyCode::Char('x')));
    let shifted = Modifiers { control: false, alt: false, shift: true, other: false };
    assert_eq!(
        InputEvent::from(TermEvent::Key(KeyEvent { code: KeyCode::Char('X'), modifiers: shifted })),
        InputEvent::KeyWithModifiers(KeyCode::Char('X'), shifted)
    );
    assert_eq!(InputEvent::from(TermEvent::Other), InputEvent::Unknown);
}

#[test]
fn test_help_text_lines() {
    let app = App::new(TaskList::new());
    let help = app.get_help_text();
    assert_eq!(help.len(), 24);
    assert_eq!(help[0], "Keyboard Shortcuts:");
    assert_eq!(help[23], "Press 'h' again to close this help");
}

#[test]
fn test_header_and_status_bar_text() {
    assert_eq!(claw::tui::header_title(&AppMode::Normal), "Claw - Task Manager");
    assert_eq!(claw::tui::header_title(&AppMode::Insert), "Claw - Add New Task");
    assert_eq!(claw::tui::header_title(&AppMode::Help), "Claw - Help");

    let mut app = App::new(TaskList::new());
    assert_eq!(
        claw::tui::status_bar_text(&app),
        "Press 'h' for help, 'q' to quit | a:add | Space:toggle | d:delete | h:help | q:quit"
    );
    app.handle_event(key(KeyCode::Char('a')));
    assert_eq!(
        claw::tui::status_bar_text(&app),
        "Enter task description (ESC to cancel, Enter to save)"
    );
}
