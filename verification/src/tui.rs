//! The modal controller behind the full-screen terminal interface: a
//! key-driven state machine over the task store, with a normal mode for
//! navigation and commands, an editing mode that captures a new task's
//! description, and a help overlay. The terminal itself — raw mode,
//! drawing, event polling — lives outside the library; the controller
//! only consumes decoded key events and mutates its state.

use vstd::prelude::*;
use vstd::string::StringExecFns;

use crate::codec::{chars_to_string, ser_nat, str_to_chars, usize_to_string};
use crate::task::{
    has_id, lemma_first_idx, spec_add, spec_remove, spec_toggle, Task, TaskList, TaskListV,
};

verus! {

/// What the interface is showing.
#[derive(Debug, Clone, PartialEq, Eq, Structural)]
pub enum AppMode {
    Normal,
    Insert,
    Help,
}

/// Where key presses are routed.
#[derive(Debug, Clone, PartialEq, Eq, Structural)]
pub enum InputMode {
    Normal,
    Editing,
}

/// The keys the controller reacts to, as the terminal reports them.
#[derive(Debug, Clone, Copy, PartialEq, Eq, Structural)]
pub enum KeyCode {
    Char(char),
    Up,
    Down,
    Home,
    End,
    Enter,
    Esc,
    Backspace,
    Other,
}

/// Modifier state of one key press.
#[derive(Debug, Clone, Copy, PartialEq, Eq, Structural)]
pub struct Modifiers {
    pub control: bool,
    pub alt: bool,
    pub shift: bool,
    pub other: bool,
}

impl Modifiers {
    /// No modifier held.
    pub open spec fn spec_is_empty(self) -> bool {
        !self.control && !self.alt && !self.shift && !self.other
    }

    /// No modifier held.
    pub fn is_empty(&self) -> (r: bool)
        ensures
            r == self.spec_is_empty(),
    {
        !self.control && !self.alt && !self.shift && !self.other
    }

    /// The empty modifier state.
    pub fn none() -> (r: Modifiers)
        ensures
            r.spec_is_empty(),
    {
        Modifiers { control: false, alt: false, shift: false, other: false }
    }
}

/// One key press: a key with its modifiers.
#[derive(Debug, Clone, Copy, PartialEq, Eq, Structural)]
pub struct KeyEvent {
    pub code: KeyCode,
    pub modifiers: Modifiers,
}

/// One terminal event, reduced to what the controller reads.
#[derive(Debug, Clone, Copy, PartialEq, Eq, Structural)]
pub enum TermEvent {
    Key(KeyEvent),
    Other,
}

/// A terminal event classified for callers that only care about quitting:
/// a bare `q` or a control-c means quit, any other key press passes
/// through with its modifiers.
#[derive(Debug, Clone, Copy, PartialEq, Eq, Structural)]
pub enum InputEvent {
    Key(KeyCode),
    KeyWithModifiers(KeyCode, Modifiers),
    Quit,
    Unknown,
}

/// How a terminal event classifies as an `InputEvent`.
pub open spec fn spec_input_event(event: TermEvent) -> InputEvent {
    match event {
        TermEvent::Key(k) => {
            if k.code == KeyCode::Char('q') && k.modifiers.spec_is_empty() {
                InputEvent::Quit
            } else if k.code == KeyCode::Char('c') && k.modifiers == (Modifiers {
                control: true,
                alt: false,
                shift: false,
                other: false,
            }) {
                InputEvent::Quit
            } else if k.modifiers.spec_is_empty() {
                InputEvent::Key(k.code)
            } else {
                InputEvent::KeyWithModifiers(k.code, k.modifiers)
            }
        },
        TermEvent::Other => InputEvent::Unknown,
    }
}

impl From<TermEvent> for InputEvent {
    fn from(event: TermEvent) -> (r: InputEvent) {
        match event {
            TermEvent::Key(k) => {
                let only_control = Modifiers { control: true, alt: false, shift: false, other: false };
                if k.code == KeyCode::Char('q') && k.modifiers.is_empty() {
                    InputEvent::Quit
                } else if k.code == KeyCode::Char('c') && k.modifiers == only_control {
                    InputEvent::Quit
                } else if k.modifiers.is_empty() {
                    InputEvent::Key(k.code)
                } else {
                    InputEvent::KeyWithModifiers(k.code, k.modifiers)
                }
            },
            TermEvent::Other => InputEvent::Unknown,
        }
    }
}

impl vstd::std_specs::convert::FromSpecImpl<TermEvent> for InputEvent {
    open spec fn obeys_from_spec() -> bool {
        true
    }

    open spec fn from_spec(event: TermEvent) -> InputEvent {
        spec_input_event(event)
    }
}

/// Whether `c` is whitespace: the Unicode `White_Space` set, which is
/// what trimming a description ignores.
pub open spec fn is_white(c: char) -> bool {
    let w = c as int;
    (9 <= w <= 13) || w == 32 || w == 0x85 || w == 0xA0 || w == 0x1680 || (0x2000 <= w <= 0x200A)
        || w == 0x2028 || w == 0x2029 || w == 0x202F || w == 0x205F || w == 0x3000
}

/// Whether a description holds anything besides whitespace: only such a
/// description commits as a new task.
pub open spec fn has_content(s: Seq<char>) -> bool {
    exists|i: int| 0 <= i < s.len() && !is_white(s[i])
}

/// Whether `c` is whitespace.
fn is_white_exec(c: char) -> (r: bool)
    ensures
        r == is_white(c),
{
    let w = c as u32;
    (9 <= w && w <= 13) || w == 32 || w == 0x85 || w == 0xA0 || w == 0x1680 || (0x2000 <= w && w
        <= 0x200A) || w == 0x2028 || w == 0x2029 || w == 0x202F || w == 0x205F || w == 0x3000
}

/// Whether `s` holds anything besides whitespace.
fn str_has_content(s: &str) -> (r: bool)
    ensures
        r == has_content(s@),
{
    let chars = str_to_chars(s);
    let n = chars.len();
    let mut k: usize = 0;
    while k < n
        invariant
            0 <= k <= n,
            n == chars@.len(),
            chars@ == s@,
            forall|j: int| 0 <= j < k ==> is_white(#[trigger] s@[j]),
        decreases n - k,
    {
        if !is_white_exec(chars[k]) {
            return true;
        }
        k = k + 1;
    }
    false
}

/// Mathematical model of the controller state.
#[verifier::ext_equal]
pub struct AppV {
    pub task_list: TaskListV,
    pub mode: AppMode,
    pub input_mode: InputMode,
    pub input_buffer: Seq<char>,
    pub selected_task: nat,
    pub show_help: bool,
    pub should_quit: bool,
    pub status_message: Seq<char>,
}

impl AppV {
    /// The cursor stays on a task whenever there is one, and rests at the
    /// top of an empty list.
    pub open spec fn cursor_ok(self) -> bool {
        self.selected_task < self.task_list.tasks.len() || self.selected_task == 0
    }
}

/// The controller state: the store being edited plus the interface's
/// modal state.
#[derive(Debug)]
pub struct App {
    pub task_list: TaskList,
    pub mode: AppMode,
    pub input_mode: InputMode,
    pub input_buffer: String,
    pub selected_task: usize,
    pub show_help: bool,
    pub should_quit: bool,
    pub status_message: String,
}

impl View for App {
    type V = AppV;

    open spec fn view(&self) -> AppV {
        AppV {
            task_list: self.task_list@,
            mode: self.mode,
            input_mode: self.input_mode,
            input_buffer: self.input_buffer@,
            selected_task: self.selected_task as nat,
            show_help: self.show_help,
            should_quit: self.should_quit,
            status_message: self.status_message@,
        }
    }
}

/// The greeting shown until a key is handled.
pub open spec fn status_default() -> Seq<char> {
    "Press 'h' for help, 'q' to quit"@
}

/// The prompt shown while a description is being typed.
pub open spec fn status_editing_prompt() -> Seq<char> {
    "Enter task description (ESC to cancel, Enter to save)"@
}

/// The message after deleting the task with identifier `id`.
pub open spec fn status_deleted(id: nat) -> Seq<char> {
    "Deleted task "@ + ser_nat(id)
}

/// The message after completing the task with identifier `id`.
pub open spec fn status_completed(id: nat) -> Seq<char> {
    "Completed task "@ + ser_nat(id)
}

/// The message after committing a new task with description `d`.
pub open spec fn status_added(d: Seq<char>) -> Seq<char> {
    "Added task: "@ + d
}

/// The message when a blank description is rejected.
pub open spec fn status_empty_description() -> Seq<char> {
    "Task description cannot be empty"@
}

/// The message after editing is cancelled.
pub open spec fn status_cancelled() -> Seq<char> {
    "Cancelled"@
}

/// The message after a refresh is requested.
pub open spec fn status_refreshed() -> Seq<char> {
    "Tasks refreshed"@
}

/// One normal-mode key press: navigation, deletion, completion, and the
/// switches into editing, help and quitting.
pub open spec fn spec_normal_step(a: AppV, k: KeyEvent) -> AppV {
    match k.code {
        KeyCode::Char(c) => {
            if c == 'q' {
                AppV { should_quit: true, ..a }
            } else if c == 'c' && k.modifiers.control {
                AppV { should_quit: true, ..a }
            } else if c == 'h' {
                AppV {
                    show_help: !a.show_help,
                    mode: if !a.show_help {
                        AppMode::Help
                    } else {
                        AppMode::Normal
                    },
                    ..a
                }
            } else if c == 'a' {
                AppV {
                    input_mode: InputMode::Editing,
                    mode: AppMode::Insert,
                    input_buffer: Seq::empty(),
                    status_message: status_editing_prompt(),
                    ..a
                }
            } else if c == 'd' {
                spec_delete_selected(a)
            } else if c == ' ' {
                spec_toggle_selected(a)
            } else if c == 'k' {
                spec_cursor_up(a)
            } else if c == 'j' {
                spec_cursor_down(a)
            } else if c == 'g' {
                AppV { selected_task: 0, ..a }
            } else if c == 'G' {
                spec_cursor_end(a)
            } else if c == 'r' {
                AppV { status_message: status_refreshed(), ..a }
            } else {
                a
            }
        },
        KeyCode::Up => spec_cursor_up(a),
        KeyCode::Down => spec_cursor_down(a),
        KeyCode::Home => AppV { selected_task: 0, ..a },
        KeyCode::End => spec_cursor_end(a),
        _ => a,
    }
}

/// Deleting removes the task under the cursor (by its identifier) and
/// pulls the cursor back if it would fall past the shortened list.
pub open spec fn spec_delete_selected(a: AppV) -> AppV {
    if a.task_list.tasks.len() > 0 && a.selected_task < a.task_list.tasks.len() {
        let id = a.task_list.tasks[a.selected_task as int].id;
        let tl2 = spec_remove(a.task_list, id);
        let sel2: nat = if a.selected_task >= tl2.tasks.len() && a.selected_task > 0 {
            (a.selected_task - 1) as nat
        } else {
            a.selected_task
        };
        AppV { task_list: tl2, selected_task: sel2, status_message: status_deleted(id), ..a }
    } else {
        a
    }
}

/// The space key toggles the completion flag of the task under the
/// cursor.
pub open spec fn spec_toggle_selected(a: AppV) -> AppV {
    if a.selected_task < a.task_list.tasks.len() {
        let id = a.task_list.tasks[a.selected_task as int].id;
        AppV {
            task_list: spec_toggle(a.task_list, id),
            status_message: status_completed(id),
            ..a
        }
    } else {
        a
    }
}

/// The cursor moves up one task, stopping at the top.
pub open spec fn spec_cursor_up(a: AppV) -> AppV {
    if a.selected_task > 0 {
        AppV { selected_task: (a.selected_task - 1) as nat, ..a }
    } else {
        a
    }
}

/// The cursor moves down one task, stopping at the last.
pub open spec fn spec_cursor_down(a: AppV) -> AppV {
    if a.task_list.tasks.len() > 0 && a.selected_task < a.task_list.tasks.len() - 1 {
        AppV { selected_task: a.selected_task + 1, ..a }
    } else {
        a
    }
}

/// The cursor jumps to the last task, if there is one.
pub open spec fn spec_cursor_end(a: AppV) -> AppV {
    if a.task_list.tasks.len() > 0 {
        AppV { selected_task: (a.task_list.tasks.len() - 1) as nat, ..a }
    } else {
        a
    }
}

/// One editing-mode key press: characters grow the description, enter
/// commits it when it holds more than whitespace and returns to normal
/// mode; a blank commit is rejected and editing goes on; escape discards
/// the description.
pub open spec fn spec_editing_step(a: AppV, k: KeyEvent) -> AppV {
    match k.code {
        KeyCode::Enter => {
            if has_content(a.input_buffer) {
                AppV {
                    task_list: spec_add(a.task_list, a.input_buffer),
                    status_message: status_added(a.input_buffer),
                    input_buffer: Seq::empty(),
                    input_mode: InputMode::Normal,
                    mode: AppMode::Normal,
                    ..a
                }
            } else {
                AppV { status_message: status_empty_description(), ..a }
            }
        },
        KeyCode::Esc => AppV {
            input_buffer: Seq::empty(),
            input_mode: InputMode::Normal,
            mode: AppMode::Normal,
            status_message: status_cancelled(),
            ..a
        },
        KeyCode::Backspace => {
            if a.input_buffer.len() > 0 {
                AppV { input_buffer: a.input_buffer.drop_last(), ..a }
            } else {
                a
            }
        },
        KeyCode::Char(c) => AppV { input_buffer: a.input_buffer.push(c), ..a },
        _ => a,
    }
}

/// One key press, routed by the input mode.
pub open spec fn spec_key_step(a: AppV, k: KeyEvent) -> AppV {
    match a.input_mode {
        InputMode::Normal => spec_normal_step(a, k),
        InputMode::Editing => spec_editing_step(a, k),
    }
}

/// One terminal event: nothing once quitting, nothing for non-key
/// events, otherwise one key press.
pub open spec fn spec_step(a: AppV, e: TermEvent) -> AppV {
    if a.should_quit {
        a
    } else {
        match e {
            TermEvent::Key(k) => spec_key_step(a, k),
            TermEvent::Other => a,
        }
    }
}

impl App {
    /// A fresh controller over `task_list`, in normal mode with the
    /// cursor on the first task.
    pub fn new(task_list: TaskList) -> (r: Self)
        ensures
            r@.task_list == task_list@,
            r@.mode == AppMode::Normal,
            r@.input_mode == InputMode::Normal,
            r@.input_buffer == Seq::<char>::empty(),
            r@.selected_task == 0,
            !r@.show_help,
            !r@.should_quit,
            r@.status_message == status_default(),
    {
        App {
            task_list,
            mode: AppMode::Normal,
            input_mode: InputMode::Normal,
            input_buffer: String::new(),
            selected_task: 0,
            show_help: false,
            should_quit: false,
            status_message: String::from_str("Press 'h' for help, 'q' to quit"),
        }
    }

    /// Hands the edited store back for persistence.
    pub fn into_task_list(self) -> (r: TaskList)
        ensures
            r@ == self@.task_list,
    {
        self.task_list
    }

    /// The task under the cursor, if the cursor is on one.
    fn get_selected_task(&self) -> (r: Option<&Task>)
        ensures
            r is Some <==> self@.selected_task < self@.task_list.tasks.len(),
            r matches Some(t) ==> t@ == self@.task_list.tasks[self@.selected_task as int],
    {
        if self.selected_task < self.task_list.tasks.len() {
            Some(&self.task_list.tasks[self.selected_task])
        } else {
            None
        }
    }

    /// Handles one terminal event and reports whether the loop should
    /// continue. The counter bound is what the machine forces: a store
    /// that has assigned every identifier cannot take another task, and
    /// only the key that commits one asks for room.
    pub fn handle_event(&mut self, event: TermEvent) -> (r: bool)
        requires
            (event matches TermEvent::Key(k) && k.code == KeyCode::Enter && old(self).input_mode
                == InputMode::Editing) ==> old(self).task_list.next_id < usize::MAX,
        ensures
            final(self)@ == spec_step(old(self)@, event),
            r == !final(self)@.should_quit,
            old(self)@.cursor_ok() ==> final(self)@.cursor_ok(),
            old(self)@.task_list.wf() ==> final(self)@.task_list.wf(),
    {
        if self.should_quit {
            return false;
        }
        match event {
            TermEvent::Key(key_event) => self.handle_key_event(key_event),
            TermEvent::Other => {},
        }
        !self.should_quit
    }

    /// Routes one key press by the input mode.
    fn handle_key_event(&mut self, key_event: KeyEvent)
        requires
            (key_event.code == KeyCode::Enter && old(self).input_mode == InputMode::Editing)
                ==> old(self).task_list.next_id < usize::MAX,
        ensures
            final(self)@ == spec_key_step(old(self)@, key_event),
            old(self)@.cursor_ok() ==> final(self)@.cursor_ok(),
            old(self)@.task_list.wf() ==> final(self)@.task_list.wf(),
    {
        match self.input_mode {
            InputMode::Normal => self.handle_normal_mode(key_event),
            InputMode::Editing => self.handle_editing_mode(key_event),
        }
    }

    /// Normal mode: navigation, deletion, completion, mode switches.
    fn handle_normal_mode(&mut self, key_event: KeyEvent)
        ensures
            final(self)@ == spec_normal_step(old(self)@, key_event),
            old(self)@.cursor_ok() ==> final(self)@.cursor_ok(),
            old(self)@.task_list.wf() ==> final(self)@.task_list.wf(),
    {
        match key_event.code {
            KeyCode::Char(c) => {
                if c == 'q' {
                    self.should_quit = true;
                } else if c == 'c' && key_event.modifiers.control {
                    self.should_quit = true;
                } else if c == 'h' {
                    self.show_help = !self.show_help;
                    self.mode = if self.show_help {
                        AppMode::Help
                    } else {
                        AppMode::Normal
                    };
                } else if c == 'a' {
                    self.input_mode = InputMode::Editing;
                    self.mode = AppMode::Insert;
                    self.input_buffer = String::new();
                    self.status_message = String::from_str(
                        "Enter task description (ESC to cancel, Enter to save)",
                    );
                } else if c == 'd' {
                    self.delete_selected();
                } else if c == ' ' {
                    self.toggle_selected();
                } else if c == 'k' {
                    self.cursor_up();
                } else if c == 'j' {
                    self.cursor_down();
                } else if c == 'g' {
                    self.selected_task = 0;
                } else if c == 'G' {
                    self.cursor_end();
                } else if c == 'r' {
                    self.status_message = String::from_str("Tasks refreshed");
                }
                proof {
                    assert(self@ =~= spec_normal_step(old(self)@, key_event));
                }
            },
            KeyCode::Up => self.cursor_up(),
            KeyCode::Down => self.cursor_down(),
            KeyCode::Home => {
                self.selected_task = 0;
                proof {
                    assert(self@ =~= spec_normal_step(old(self)@, key_event));
                }
            },
            KeyCode::End => self.cursor_end(),
            _ => {
                proof {
                    assert(self@ =~= spec_normal_step(old(self)@, key_event));
                }
            },
        }
    }

    /// Deletes the task under the cursor and clamps the cursor.
    fn delete_selected(&mut self)
        ensures
            final(self)@ == spec_delete_selected(old(self)@),
            old(self)@.cursor_ok() ==> final(self)@.cursor_ok(),
            old(self)@.task_list.wf() ==> final(self)@.task_list.wf(),
    {
        if !self.task_list.is_empty() {
            match self.get_selected_task() {
                Some(task) => {
                    let task_id = task.id;
                    proof {
                        let s = old(self)@.task_list.tasks;
                        assert(s[old(self)@.selected_task as int].id == task_id as nat);
                        assert(has_id(s, task_id as nat));
                    }
                    if self.task_list.remove_task(task_id) {
                        let mut msg = String::from_str("Deleted task ");
                        let num = usize_to_string(task_id);
                        msg.append(num.as_str());
                        self.status_message = msg;
                        if self.selected_task >= self.task_list.len() && self.selected_task > 0 {
                            self.selected_task = self.selected_task - 1;
                        }
                    }
                    proof {
                        lemma_first_idx(old(self)@.task_list.tasks, task_id as nat);
                        assert(self@ =~= spec_delete_selected(old(self)@));
                    }
                },
                None => {
                    proof {
                        assert(self@ =~= spec_delete_selected(old(self)@));
                    }
                },
            }
        } else {
            proof {
                assert(self@ =~= spec_delete_selected(old(self)@));
            }
        }
    }

    /// Toggles the completion flag of the task under the cursor.
    fn toggle_selected(&mut self)
        ensures
            final(self)@ == spec_toggle_selected(old(self)@),
            old(self)@.cursor_ok() ==> final(self)@.cursor_ok(),
            old(self)@.task_list.wf() ==> final(self)@.task_list.wf(),
    {
        match self.get_selected_task() {
            Some(task) => {
                let task_id = task.id;
                proof {
                    let s = old(self)@.task_list.tasks;
                    assert(s[old(self)@.selected_task as int].id == task_id as nat);
                    assert(has_id(s, task_id as nat));
                }
                if self.task_list.toggle_task(task_id) {
                    let mut msg = String::from_str("Completed task ");
                    let num = usize_to_string(task_id);
                    msg.append(num.as_str());
                    self.status_message = msg;
                }
                proof {
                    lemma_first_idx(old(self)@.task_list.tasks, task_id as nat);
                    assert(self@ =~= spec_toggle_selected(old(self)@));
                    assert(self@.task_list.tasks.len() == old(self)@.task_list.tasks.len());
                }
            },
            None => {
                proof {
                    assert(self@ =~= spec_toggle_selected(old(self)@));
                }
            },
        }
    }

    /// Moves the cursor up one task.
    fn cursor_up(&mut self)
        ensures
            final(self)@ == spec_cursor_up(old(self)@),
            old(self)@.cursor_ok() ==> final(self)@.cursor_ok(),
    {
        if self.selected_task > 0 {
            self.selected_task = self.selected_task - 1;
        }
        proof {
            assert(self@ =~= spec_cursor_up(old(self)@));
        }
    }

    /// Moves the cursor down one task.
    fn cursor_down(&mut self)
        ensures
            final(self)@ == spec_cursor_down(old(self)@),
            old(self)@.cursor_ok() ==> final(self)@.cursor_ok(),
    {
        if !self.task_list.is_empty() && self.selected_task < self.task_list.len() - 1 {
            self.selected_task = self.selected_task + 1;
        }
        proof {
            assert(self@ =~= spec_cursor_down(old(self)@));
        }
    }

    /// Moves the cursor to the last task.
    fn cursor_end(&mut self)
        ensures
            final(self)@ == spec_cursor_end(old(self)@),
            old(self)@.cursor_ok() ==> final(self)@.cursor_ok(),
    {
        if !self.task_list.is_empty() {
            self.selected_task = self.task_list.len() - 1;
        }
        proof {
            assert(self@ =~= spec_cursor_end(old(self)@));
        }
    }

    /// Editing mode: grow, commit or discard the description being typed.
    fn handle_editing_mode(&mut self, key_event: KeyEvent)
        requires
            key_event.code == KeyCode::Enter ==> old(self).task_list.next_id < usize::MAX,
        ensures
            final(self)@ == spec_editing_step(old(self)@, key_event),
            final(self)@.selected_task == old(self)@.selected_task,
            final(self)@.task_list.tasks.len() >= old(self)@.task_list.tasks.len(),
            old(self)@.task_list.wf() ==> final(self)@.task_list.wf(),
    {
        match key_event.code {
            KeyCode::Enter => {
                if str_has_content(self.input_buffer.as_str()) {
                    let description = self.input_buffer.clone();
                    let mut msg = String::from_str("Added task: ");
                    msg.append(self.input_buffer.as_str());
                    self.task_list.add_task(description);
                    self.status_message = msg;
                    self.input_buffer = String::new();
                    self.input_mode = InputMode::Normal;
                    self.mode = AppMode::Normal;
                } else {
                    self.status_message = String::from_str("Task description cannot be empty");
                }
                proof {
                    assert(self@ =~= spec_editing_step(old(self)@, key_event));
                }
            },
            KeyCode::Esc => {
                self.input_buffer = String::new();
                self.input_mode = InputMode::Normal;
                self.mode = AppMode::Normal;
                self.status_message = String::from_str("Cancelled");
                proof {
                    assert(self@ =~= spec_editing_step(old(self)@, key_event));
                }
            },
            KeyCode::Backspace => {
                let mut chars = str_to_chars(self.input_buffer.as_str());
                if chars.len() > 0 {
                    chars.pop();
                }
                proof {
                    if old(self)@.input_buffer.len() > 0 {
                        assert(chars@ =~= old(self)@.input_buffer.drop_last());
                    }
                }
                self.input_buffer = chars_to_string(&chars);
                proof {
                    assert(self@ =~= spec_editing_step(old(self)@, key_event));
                }
            },
            KeyCode::Char(c) => {
                let mut chars = str_to_chars(self.input_buffer.as_str());
                chars.push(c);
                self.input_buffer = chars_to_string(&chars);
                proof {
                    assert(self@ =~= spec_editing_step(old(self)@, key_event));
                }
            },
            _ => {
                proof {
                    assert(self@ =~= spec_editing_step(old(self)@, key_event));
                }
            },
        }
    }

    /// The lines of the help overlay.
    pub fn get_help_text(&self) -> (r: Vec<&'static str>)
        ensures
            r@.map_values(|x: &'static str| x@) == help_lines(),
    {
        let mut v: Vec<&'static str> = Vec::new();
        v.push("Keyboard Shortcuts:");
        v.push("");
        v.push("Navigation:");
        v.push("  \u{2191}/k     - Move up");
        v.push("  \u{2193}/j     - Move down");
        v.push("  Home/g  - Go to top");
        v.push("  End/G   - Go to bottom");
        v.push("");
        v.push("Actions:");
        v.push("  a       - Add new task");
        v.push("  Space   - Toggle task completion");
        v.push("  d       - Delete selected task");
        v.push("  r       - Refresh tasks");
        v.push("");
        v.push("General:");
        v.push("  h       - Toggle this help");
        v.push("  q       - Quit application");
        v.push("  Ctrl+C  - Force quit");
        v.push("");
        v.push("Insert Mode:");
        v.push("  Enter   - Save task");
        v.push("  Esc     - Cancel editing");
        v.push("");
        v.push("Press 'h' again to close this help");
        proof {
            assert(v@.map_values(|x: &'static str| x@) =~= help_lines());
        }
        v
    }
}

/// The title shown in the interface's header for each mode.
pub fn header_title(mode: &AppMode) -> (r: &'static str)
    ensures
        r@ == match mode {
            AppMode::Normal => "Claw - Task Manager"@,
            AppMode::Insert => "Claw - Add New Task"@,
            AppMode::Help => "Claw - Help"@,
        },
{
    match mode {
        AppMode::Normal => "Claw - Task Manager",
        AppMode::Insert => "Claw - Add New Task",
        AppMode::Help => "Claw - Help",
    }
}

/// What the status bar shows: in normal mode the status message with the
/// shortcut reminders after it, in editing mode the message alone.
pub open spec fn spec_status_bar(a: AppV) -> Seq<char> {
    match a.input_mode {
        InputMode::Normal => a.status_message + " | "@
            + "a:add | Space:toggle | d:delete | h:help | q:quit"@,
        InputMode::Editing => a.status_message,
    }
}

/// What the status bar shows.
pub fn status_bar_text(app: &App) -> (r: String)
    ensures
        r@ == spec_status_bar(app@),
{
    match app.input_mode {
        InputMode::Normal => {
            let mut out = app.status_message.clone();
            out.append(" | ");
            out.append("a:add | Space:toggle | d:delete | h:help | q:quit");
            out
        },
        InputMode::Editing => app.status_message.clone(),
    }
}

/// The lines of the help overlay.
pub open spec fn help_lines() -> Seq<Seq<char>> {
    seq![
        "Keyboard Shortcuts:"@,
        ""@,
        "Navigation:"@,
        "  \u{2191}/k     - Move up"@,
        "  \u{2193}/j     - Move down"@,
        "  Home/g  - Go to top"@,
        "  End/G   - Go to bottom"@,
        ""@,
        "Actions:"@,
        "  a       - Add new task"@,
        "  Space   - Toggle task completion"@,
        "  d       - Delete selected task"@,
        "  r       - Refresh tasks"@,
        ""@,
        "General:"@,
        "  h       - Toggle this help"@,
        "  q       - Quit application"@,
        "  Ctrl+C  - Force quit"@,
        ""@,
        "Insert Mode:"@,
        "  Enter   - Save task"@,
        "  Esc     - Cancel editing"@,
        ""@,
        "Press 'h' again to close this help"@,
    ]
}

} // verus!
