//! The listing lines the command-line interface prints: one glyph-marked
//! line per task, or a distinct message for an empty store.

use vstd::prelude::*;
use vstd::string::StringExecFns;

use crate::codec::{ser_nat, usize_to_string};
use crate::task::{Task, TaskList, TaskListV, TaskV};

verus! {

/// The glyph marking a task's state in a listing: a check mark when
/// completed, a circle when pending.
pub open spec fn glyph(completed: bool) -> Seq<char> {
    if completed {
        "\u{2713}"@
    } else {
        "\u{25cb}"@
    }
}

/// The glyph marking a task's state in a listing.
pub fn status_glyph(completed: bool) -> (r: &'static str)
    ensures
        r@ == glyph(completed),
{
    if completed {
        "\u{2713}"
    } else {
        "\u{25cb}"
    }
}

/// How one task reads: the glyph, the identifier in brackets, the
/// description.
pub open spec fn task_line_body(t: TaskV) -> Seq<char> {
    glyph(t.completed) + " ["@ + ser_nat(t.id) + "] "@ + t.description
}

/// One listing line of the command-line interface: the task under two
/// spaces of indentation.
pub open spec fn task_line(t: TaskV) -> Seq<char> {
    "  "@ + task_line_body(t)
}

/// How one task reads, as the full-screen interface shows it.
pub fn format_task_line_body(t: &Task) -> (r: String)
    ensures
        r@ == task_line_body(t@),
{
    let mut out = String::from_str(status_glyph(t.completed));
    out.append(" [");
    let num = usize_to_string(t.id);
    out.append(num.as_str());
    out.append("] ");
    out.append(t.description.as_str());
    proof {
        assert(out@ =~= task_line_body(t@));
    }
    out
}

/// One listing line for `t`.
pub fn format_task_line(t: &Task) -> (r: String)
    ensures
        r@ == task_line(t@),
{
    let mut out = String::from_str("  ");
    let body = format_task_line_body(t);
    out.append(body.as_str());
    proof {
        assert(out@ =~= task_line(t@));
    }
    out
}

/// The message printed in place of an empty listing.
pub open spec fn no_tasks_line() -> Seq<char> {
    "No tasks found."@
}

/// The header above a non-empty listing.
pub open spec fn tasks_header() -> Seq<char> {
    "Tasks:"@
}

/// The lines the `list` command prints: the empty-store message alone, or
/// a header followed by one line per task, in store order.
pub open spec fn spec_list_lines(s: TaskListV) -> Seq<Seq<char>> {
    if s.tasks.len() == 0 {
        seq![no_tasks_line()]
    } else {
        seq![tasks_header()] + s.tasks.map_values(|t: TaskV| task_line(t))
    }
}

/// The lines the `list` command prints for `list`.
pub fn list_lines(list: &TaskList) -> (r: Vec<String>)
    ensures
        r@.map_values(|x: String| x@) == spec_list_lines(list@),
{
    let mut out: Vec<String> = Vec::new();
    if list.is_empty() {
        out.push(String::from_str("No tasks found."));
        proof {
            assert(out@.map_values(|x: String| x@) =~= spec_list_lines(list@));
        }
        return out;
    }
    out.push(String::from_str("Tasks:"));
    let ghost model = list@.tasks;
    let n = list.tasks.len();
    let mut k: usize = 0;
    while k < n
        invariant
            0 <= k <= n,
            n == list.tasks@.len(),
            model == list@.tasks,
            out@.map_values(|x: String| x@) == seq![tasks_header()] + model.take(
                k as int,
            ).map_values(|t: TaskV| task_line(t)),
        decreases n - k,
    {
        let line = format_task_line(&list.tasks[k]);
        let ghost pre = out@;
        out.push(line);
        proof {
            assert(out@ == pre.push(line));
            assert(out@.map_values(|x: String| x@) =~= pre.map_values(|x: String| x@).push(
                line@,
            ));
            assert(model.take(k + 1 as int) =~= model.take(k as int).push(model[k as int]));
            assert(model[k as int] == list.tasks@[k as int]@);
            assert(line@ == task_line(model[k as int]));
            assert(model.take(k + 1 as int).map_values(|t: TaskV| task_line(t)) =~= model.take(
                k as int,
            ).map_values(|t: TaskV| task_line(t)).push(task_line(model[k as int])));
            assert(seq![tasks_header()] + model.take(k + 1 as int).map_values(
                |t: TaskV| task_line(t),
            ) =~= (seq![tasks_header()] + model.take(k as int).map_values(
                |t: TaskV| task_line(t),
            )).push(task_line(model[k as int])));
            assert(out@.map_values(|x: String| x@) == seq![tasks_header()] + model.take(
                k + 1 as int,
            ).map_values(|t: TaskV| task_line(t)));
        }
        k = k + 1;
    }
    proof {
        assert(model.take(n as int) =~= model);
        assert(out@.map_values(|x: String| x@) =~= spec_list_lines(list@));
    }
    out
}

} // verus!
