//! The non-interactive commands and what each one does to the store and
//! to the output. Argument parsing itself happens outside the library;
//! what arrives here is already one of the parsed commands.

use vstd::prelude::*;
use vstd::string::StringExecFns;

use crate::codec::{chars_to_string, ser_nat, str_to_chars, usize_to_string};
use crate::render::{list_lines, spec_list_lines};
use crate::task::{has_id, spec_add, spec_complete, spec_remove, TaskList};

verus! {

/// A parsed command-line invocation.
#[derive(Debug, Clone, PartialEq)]
pub enum Commands {
    /// Add a new task
    Add { description: String },
    /// List all tasks
    List,
    /// Mark a task as complete
    Complete { id: usize },
    /// Remove a task
    Remove { id: usize },
    /// Generate shell completions
    Completions { shell: String },
    /// Launch interactive TUI mode
    Tui,
}

/// The shells completions can be generated for.
#[derive(Debug, Clone, Copy, PartialEq, Eq, Structural)]
pub enum ShellKind {
    Bash,
    Zsh,
    Fish,
    PowerShell,
}

/// `c` with an upper-case ASCII letter lowered, anything else unchanged.
pub open spec fn ascii_lower(c: char) -> char {
    if 65 <= (c as int) <= 90 {
        ((c as int + 32) as u8) as char
    } else {
        c
    }
}

/// `s` with its upper-case ASCII letters lowered.
pub open spec fn lower_seq(s: Seq<char>) -> Seq<char> {
    s.map_values(|c: char| ascii_lower(c))
}

/// Which shell a name designates, letter case aside; none for any other
/// name.
pub open spec fn spec_shell_kind(s: Seq<char>) -> Option<ShellKind> {
    let l = lower_seq(s);
    if l == "bash"@ {
        Some(ShellKind::Bash)
    } else if l == "zsh"@ {
        Some(ShellKind::Zsh)
    } else if l == "fish"@ {
        Some(ShellKind::Fish)
    } else if l == "powershell"@ {
        Some(ShellKind::PowerShell)
    } else {
        None
    }
}

/// `c` with an upper-case ASCII letter lowered.
fn ascii_lower_exec(c: char) -> (r: char)
    ensures
        r == ascii_lower(c),
{
    let v = c as u32;
    if 65 <= v && v <= 90 {
        ((v + 32) as u8) as char
    } else {
        c
    }
}

/// Which shell `shell` designates, letter case aside.
pub fn shell_kind(shell: &str) -> (r: Option<ShellKind>)
    ensures
        r == spec_shell_kind(shell@),
{
    let chars = str_to_chars(shell);
    let n = chars.len();
    let mut lowered: Vec<char> = Vec::new();
    let mut k: usize = 0;
    while k < n
        invariant
            0 <= k <= n,
            n == chars@.len(),
            chars@ == shell@,
            lowered@ =~= lower_seq(shell@.take(k as int)),
        decreases n - k,
    {
        lowered.push(ascii_lower_exec(chars[k]));
        proof {
            assert(shell@.take(k + 1 as int) =~= shell@.take(k as int).push(shell@[k as int]));
            assert(lowered@ =~= lower_seq(shell@.take(k + 1 as int)));
        }
        k = k + 1;
    }
    proof {
        assert(shell@.take(n as int) =~= shell@);
    }
    let l = chars_to_string(&lowered);
    if l == String::from_str("bash") {
        Some(ShellKind::Bash)
    } else if l == String::from_str("zsh") {
        Some(ShellKind::Zsh)
    } else if l == String::from_str("fish") {
        Some(ShellKind::Fish)
    } else if l == String::from_str("powershell") {
        Some(ShellKind::PowerShell)
    } else {
        None
    }
}

/// The words of an `add` invocation joined with single spaces, in order:
/// the task's description.
pub open spec fn spec_join(words: Seq<Seq<char>>) -> Seq<char>
    decreases words.len(),
{
    if words.len() == 0 {
        Seq::empty()
    } else if words.len() == 1 {
        words[0]
    } else {
        words[0] + " "@ + spec_join(words.drop_first())
    }
}

/// Extending the word list extends the joined text by a space and the
/// new word (the space only when words came before it).
proof fn lemma_spec_join_push(words: Seq<Seq<char>>, k: int)
    requires
        0 <= k < words.len(),
    ensures
        k == 0 ==> spec_join(words.take(1)) == words[0],
        k > 0 ==> spec_join(words.take(k + 1)) == spec_join(words.take(k)) + " "@ + words[k],
    decreases k,
{
    if k == 0 {
        assert(words.take(1).len() == 1);
        assert(words.take(1)[0] == words[0]);
    } else {
        let a = words.take(k + 1);
        let b = words.take(k);
        assert(a[0] == words[0]);
        assert(b[0] == words[0]);
        if k == 1 {
            assert(a.drop_first() =~= words.subrange(1, 2).take(1));
            assert(a.drop_first().len() == 1);
            assert(a.drop_first()[0] == words[1]);
            assert(spec_join(a.drop_first()) == words[1]);
            assert(spec_join(a) == words[0] + " "@ + words[1]);
            assert(b.len() == 1);
        } else {
            let w1 = words.drop_first();
            lemma_spec_join_push(w1, k - 1);
            assert(a.drop_first() =~= w1.take(k));
            assert(b.drop_first() =~= w1.take(k - 1));
            assert(w1.take(k - 1 + 1) =~= w1.take(k));
            assert(w1[k - 1] == words[k]);
            assert(spec_join(a) == words[0] + " "@ + spec_join(w1.take(k)));
            assert(spec_join(b) == words[0] + " "@ + spec_join(w1.take(k - 1)));
            assert(spec_join(a) =~= spec_join(b) + " "@ + words[k]);
        }
    }
}

/// Joins the words of an `add` invocation with single spaces.
pub fn join_words(words: &Vec<String>) -> (r: String)
    ensures
        r@ == spec_join(words@.map_values(|s: String| s@)),
{
    let ghost model = words@.map_values(|s: String| s@);
    let mut out = String::new();
    let n = words.len();
    let mut k: usize = 0;
    while k < n
        invariant
            0 <= k <= n,
            n == words@.len(),
            model == words@.map_values(|s: String| s@),
            out@ == spec_join(model.take(k as int)),
        decreases n - k,
    {
        if k > 0 {
            out.append(" ");
        }
        out.append(words[k].as_str());
        proof {
            lemma_spec_join_push(model, k as int);
            assert(model[k as int] == words@[k as int]@);
            assert(out@ =~= spec_join(model.take(k + 1 as int)));
        }
        k = k + 1;
    }
    proof {
        assert(model.take(n as int) =~= model);
    }
    out
}

/// The confirmation printed after adding a task.
pub open spec fn added_line(d: Seq<char>) -> Seq<char> {
    "Added task: "@ + d
}

/// The confirmation printed after completing the task with identifier
/// `id`.
pub open spec fn completed_line(id: nat) -> Seq<char> {
    "Completed task "@ + ser_nat(id)
}

/// The confirmation printed after removing the task with identifier `id`.
pub open spec fn removed_line(id: nat) -> Seq<char> {
    "Removed task "@ + ser_nat(id)
}

/// The line printed when no task carries the identifier `id`; an
/// ordinary outcome, not an error.
pub open spec fn not_found_line(id: nat) -> Seq<char> {
    "Task "@ + ser_nat(id) + " not found"@
}

/// What one command produced: the lines to print, and whether the store
/// changed and should be persisted.
pub struct CommandOutcome {
    pub lines: Vec<String>,
    pub save: bool,
}

/// Runs one non-interactive command against the store. Completions and
/// the interactive mode leave the store untouched here: the shell script
/// and the terminal loop happen outside the library.
pub fn apply_command(list: &mut TaskList, cmd: &Commands) -> (r: CommandOutcome)
    requires
        cmd matches Commands::Add { .. } ==> old(list).next_id < usize::MAX,
    ensures
        match cmd {
            Commands::Add { description } => {
                &&& final(list)@ == spec_add(old(list)@, description@)
                &&& r.lines@.map_values(|x: String| x@) == seq![added_line(description@)]
                &&& r.save
            },
            Commands::List => {
                &&& final(list)@ == old(list)@
                &&& r.lines@.map_values(|x: String| x@) == spec_list_lines(old(list)@)
                &&& !r.save
            },
            Commands::Complete { id } => {
                &&& final(list)@ == spec_complete(old(list)@, *id as nat)
                &&& has_id(old(list)@.tasks, *id as nat) ==> (r.lines@.map_values(|x: String| x@)
                    == seq![completed_line(*id as nat)] && r.save)
                &&& !has_id(old(list)@.tasks, *id as nat) ==> (r.lines@.map_values(
                    |x: String| x@,
                ) == seq![not_found_line(*id as nat)] && !r.save)
            },
            Commands::Remove { id } => {
                &&& final(list)@ == spec_remove(old(list)@, *id as nat)
                &&& has_id(old(list)@.tasks, *id as nat) ==> (r.lines@.map_values(|x: String| x@)
                    == seq![removed_line(*id as nat)] && r.save)
                &&& !has_id(old(list)@.tasks, *id as nat) ==> (r.lines@.map_values(
                    |x: String| x@,
                ) == seq![not_found_line(*id as nat)] && !r.save)
            },
            Commands::Completions { shell } => {
                &&& final(list)@ == old(list)@
                &&& r.lines@.len() == 0
                &&& !r.save
            },
            Commands::Tui => {
                &&& final(list)@ == old(list)@
                &&& r.lines@.len() == 0
                &&& !r.save
            },
        },
        old(list)@.wf() ==> final(list)@.wf(),
{
    match cmd {
        Commands::Add { description } => {
            let mut msg = String::from_str("Added task: ");
            msg.append(description.as_str());
            list.add_task(description.clone());
            let mut lines: Vec<String> = Vec::new();
            lines.push(msg);
            proof {
                assert(lines@.map_values(|x: String| x@) =~= seq![added_line(description@)]);
            }
            CommandOutcome { lines, save: true }
        },
        Commands::List => {
            let lines = list_lines(list);
            CommandOutcome { lines, save: false }
        },
        Commands::Complete { id } => {
            let found = list.complete_task(*id);
            let mut lines: Vec<String> = Vec::new();
            if found {
                let mut msg = String::from_str("Completed task ");
                let num = usize_to_string(*id);
                msg.append(num.as_str());
                lines.push(msg);
                proof {
                    assert(lines@.map_values(|x: String| x@) =~= seq![completed_line(*id as nat)]);
                }
                CommandOutcome { lines, save: true }
            } else {
                lines.push(make_not_found(*id));
                proof {
                    assert(lines@.map_values(|x: String| x@) =~= seq![not_found_line(*id as nat)]);
                }
                CommandOutcome { lines, save: false }
            }
        },
        Commands::Remove { id } => {
            let found = list.remove_task(*id);
            let mut lines: Vec<String> = Vec::new();
            if found {
                let mut msg = String::from_str("Removed task ");
                let num = usize_to_string(*id);
                msg.append(num.as_str());
                lines.push(msg);
                proof {
                    assert(lines@.map_values(|x: String| x@) =~= seq![removed_line(*id as nat)]);
                }
                CommandOutcome { lines, save: true }
            } else {
                lines.push(make_not_found(*id));
                proof {
                    assert(lines@.map_values(|x: String| x@) =~= seq![not_found_line(*id as nat)]);
                }
                CommandOutcome { lines, save: false }
            }
        },
        Commands::Completions { shell: _ } => {
            CommandOutcome { lines: Vec::new(), save: false }
        },
        Commands::Tui => {
            CommandOutcome { lines: Vec::new(), save: false }
        },
    }
}

/// The not-found line for identifier `id`.
fn make_not_found(id: usize) -> (r: String)
    ensures
        r@ == not_found_line(id as nat),
{
    let mut msg = String::from_str("Task ");
    let num = usize_to_string(id);
    msg.append(num.as_str());
    msg.append(" not found");
    proof {
        assert(msg@ =~= not_found_line(id as nat));
    }
    msg
}

} // verus!
