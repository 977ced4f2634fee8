//! The in-memory task store: an ordered collection of tasks plus a
//! monotonic next-identifier counter.

use vstd::prelude::*;

verus! {

/// A single trackable unit of work.
#[derive(Debug, Clone, PartialEq)]
pub struct Task {
    pub id: usize,
    pub description: String,
    pub completed: bool,
}

/// Mathematical model of a task.
#[verifier::ext_equal]
pub struct TaskV {
    pub id: nat,
    pub description: Seq<char>,
    pub completed: bool,
}

impl View for Task {
    type V = TaskV;

    open spec fn view(&self) -> TaskV {
        TaskV { id: self.id as nat, description: self.description@, completed: self.completed }
    }
}

/// The ordered task collection together with the next identifier to assign.
#[derive(Debug, Clone, PartialEq)]
pub struct TaskList {
    pub tasks: Vec<Task>,
    pub next_id: usize,
}

/// Mathematical model of a task store.
#[verifier::ext_equal]
pub struct TaskListV {
    pub tasks: Seq<TaskV>,
    pub next_id: nat,
}

impl View for TaskList {
    type V = TaskListV;

    open spec fn view(&self) -> TaskListV {
        TaskListV {
            tasks: self.tasks@.map_values(|t: Task| t@),
            next_id: self.next_id as nat,
        }
    }
}

/// Whether some task in `s` carries identifier `id`.
pub open spec fn has_id(s: Seq<TaskV>, id: nat) -> bool {
    exists|i: int| 0 <= i < s.len() && s[i].id == id
}

/// Index of the first task in `s` with identifier `id`; `s.len()` when absent.
pub open spec fn first_idx(s: Seq<TaskV>, id: nat) -> int
    decreases s.len(),
{
    if s.len() == 0 {
        0
    } else if s[0].id == id {
        0
    } else {
        1 + first_idx(s.subrange(1, s.len() as int), id)
    }
}

/// The store after appending a fresh task with description `d`.
pub open spec fn spec_add(s: TaskListV, d: Seq<char>) -> TaskListV {
    TaskListV {
        tasks: s.tasks.push(TaskV { id: s.next_id, description: d, completed: false }),
        next_id: s.next_id + 1,
    }
}

/// The store after marking the first task with identifier `id` complete.
pub open spec fn spec_complete(s: TaskListV, id: nat) -> TaskListV {
    if has_id(s.tasks, id) {
        let i = first_idx(s.tasks, id);
        TaskListV {
            tasks: s.tasks.update(
                i,
                TaskV { id: s.tasks[i].id, description: s.tasks[i].description, completed: true },
            ),
            next_id: s.next_id,
        }
    } else {
        s
    }
}

/// The store after flipping the completion flag of the first task with
/// identifier `id`.
pub open spec fn spec_toggle(s: TaskListV, id: nat) -> TaskListV {
    if has_id(s.tasks, id) {
        let i = first_idx(s.tasks, id);
        TaskListV {
            tasks: s.tasks.update(
                i,
                TaskV {
                    id: s.tasks[i].id,
                    description: s.tasks[i].description,
                    completed: !s.tasks[i].completed,
                },
            ),
            next_id: s.next_id,
        }
    } else {
        s
    }
}

/// The store after removing the first task with identifier `id`.
pub open spec fn spec_remove(s: TaskListV, id: nat) -> TaskListV {
    if has_id(s.tasks, id) {
        TaskListV { tasks: s.tasks.remove(first_idx(s.tasks, id)), next_id: s.next_id }
    } else {
        s
    }
}

impl TaskListV {
    /// The store's invariant: every identifier is below the counter and no
    /// identifier occurs twice.
    pub open spec fn wf(self) -> bool {
        &&& forall|i: int| 0 <= i < self.tasks.len() ==> (#[trigger] self.tasks[i].id) < self.next_id
        &&& forall|i: int, j: int|
            #![trigger self.tasks[i].id, self.tasks[j].id]
            0 <= i < j < self.tasks.len() ==> self.tasks[i].id != self.tasks[j].id
    }
}

/// When `id` occurs in `s`, `first_idx` lands on its first occurrence.
pub proof fn lemma_first_idx(s: Seq<TaskV>, id: nat)
    ensures
        has_id(s, id) ==> {
            let i = first_idx(s, id);
            &&& 0 <= i < s.len()
            &&& s[i].id == id
            &&& forall|j: int| 0 <= j < i ==> s[j].id != id
        },
        !has_id(s, id) ==> first_idx(s, id) == s.len(),
    decreases s.len(),
{
    if s.len() == 0 {
    } else if s[0].id == id {
    } else {
        let rest = s.subrange(1, s.len() as int);
        lemma_first_idx(rest, id);
        assert forall|i: int| 0 <= i < s.len() && s[i].id == id implies i >= 1 && rest[i - 1].id
            == id by {
            assert(s[0].id != id);
        }
        if has_id(s, id) {
            let w = choose|i: int| 0 <= i < s.len() && s[i].id == id;
            assert(rest[w - 1].id == id);
            assert(has_id(rest, id));
        }
        if has_id(rest, id) {
            let w = choose|i: int| 0 <= i < rest.len() && rest[i].id == id;
            assert(s[w + 1].id == id);
            assert(has_id(s, id));
        }
    }
}

/// One mutation of the store, as the command handlers and the
/// interactive controller perform them.
pub enum StoreOp {
    Add(Seq<char>),
    Complete(nat),
    Toggle(nat),
    Remove(nat),
}

/// The store after one operation.
pub open spec fn apply_op(s: TaskListV, op: StoreOp) -> TaskListV {
    match op {
        StoreOp::Add(d) => spec_add(s, d),
        StoreOp::Complete(id) => spec_complete(s, id),
        StoreOp::Toggle(id) => spec_toggle(s, id),
        StoreOp::Remove(id) => spec_remove(s, id),
    }
}

/// The store after a sequence of operations, applied in order.
pub open spec fn apply_ops(s: TaskListV, ops: Seq<StoreOp>) -> TaskListV
    decreases ops.len(),
{
    if ops.len() == 0 {
        s
    } else {
        apply_op(apply_ops(s, ops.drop_last()), ops.last())
    }
}

/// One operation keeps the store well formed and never lowers the counter.
pub proof fn lemma_apply_op_wf(s: TaskListV, op: StoreOp)
    ensures
        s.wf() ==> apply_op(s, op).wf(),
        apply_op(s, op).next_id >= s.next_id,
{
    let t = apply_op(s, op);
    if s.wf() {
        match op {
            StoreOp::Add(d) => {
                assert forall|i: int, j: int|
                    #![trigger t.tasks[i].id, t.tasks[j].id]
                    0 <= i < j < t.tasks.len() implies t.tasks[i].id != t.tasks[j].id by {
                    if j == t.tasks.len() - 1 {
                        assert(t.tasks[i].id == s.tasks[i].id);
                        assert(s.tasks[i].id < s.next_id);
                    }
                }
            },
            StoreOp::Complete(id) => {
                if has_id(s.tasks, id) {
                    lemma_first_idx(s.tasks, id);
                    assert forall|i: int, j: int|
                        #![trigger t.tasks[i].id, t.tasks[j].id]
                        0 <= i < j < t.tasks.len() implies t.tasks[i].id != t.tasks[j].id by {
                        assert(t.tasks[i].id == s.tasks[i].id);
                        assert(t.tasks[j].id == s.tasks[j].id);
                    }
                }
            },
            StoreOp::Toggle(id) => {
                if has_id(s.tasks, id) {
                    lemma_first_idx(s.tasks, id);
                    assert forall|i: int, j: int|
                        #![trigger t.tasks[i].id, t.tasks[j].id]
                        0 <= i < j < t.tasks.len() implies t.tasks[i].id != t.tasks[j].id by {
                        assert(t.tasks[i].id == s.tasks[i].id);
                        assert(t.tasks[j].id == s.tasks[j].id);
                    }
                }
            },
            StoreOp::Remove(id) => {
                if has_id(s.tasks, id) {
                    lemma_first_idx(s.tasks, id);
                    let r = first_idx(s.tasks, id);
                    assert forall|i: int, j: int|
                        #![trigger t.tasks[i].id, t.tasks[j].id]
                        0 <= i < j < t.tasks.len() implies t.tasks[i].id != t.tasks[j].id by {
                        assert(t.tasks[i] == if i < r {
                            s.tasks[i]
                        } else {
                            s.tasks[i + 1]
                        });
                        assert(t.tasks[j] == if j < r {
                            s.tasks[j]
                        } else {
                            s.tasks[j + 1]
                        });
                    }
                }
            },
        }
    }
}

/// Any sequence of operations keeps the store well formed and never lowers
/// the counter.
pub proof fn lemma_apply_ops_wf(s: TaskListV, ops: Seq<StoreOp>)
    ensures
        s.wf() ==> apply_ops(s, ops).wf(),
        apply_ops(s, ops).next_id >= s.next_id,
    decreases ops.len(),
{
    if ops.len() > 0 {
        lemma_apply_ops_wf(s, ops.drop_last());
        lemma_apply_op_wf(apply_ops(s, ops.drop_last()), ops.last());
    }
}

/// Whatever operations run in between, an `add` assigns a strictly larger
/// identifier than any `add` that came before it: `add` hands out
/// `next_id`, and no later state has a smaller counter.
pub proof fn lemma_add_ids_strictly_increase(s: TaskListV, d1: Seq<char>, ops: Seq<StoreOp>)
    ensures
        s.next_id < apply_ops(spec_add(s, d1), ops).next_id,
{
    lemma_apply_ops_wf(spec_add(s, d1), ops);
}

/// In a well-formed store, every identifier present after any prefix of a
/// sequence of operations is below the counter reached at the end: an
/// identifier that once existed — even one removed along the way — is never
/// assigned again.
pub proof fn lemma_ids_never_reused(s: TaskListV, ops: Seq<StoreOp>, k: int)
    requires
        s.wf(),
        0 <= k <= ops.len(),
    ensures
        apply_ops(s, ops).wf(),
        forall|i: int|
            0 <= i < apply_ops(s, ops.take(k)).tasks.len() ==> (#[trigger] apply_ops(
                s,
                ops.take(k),
            ).tasks[i].id) < apply_ops(s, ops).next_id,
    decreases ops.len(),
{
    lemma_apply_ops_wf(s, ops);
    lemma_apply_ops_wf(s, ops.take(k));
    if k == ops.len() {
        assert(ops.take(k) =~= ops);
    } else {
        assert(ops.take(k) =~= ops.drop_last().take(k));
        lemma_ids_never_reused(s, ops.drop_last(), k);
        lemma_apply_op_wf(apply_ops(s, ops.drop_last()), ops.last());
    }
}

/// Whether the tasks stand in ascending identifier order.
pub open spec fn sorted_by_id(s: Seq<TaskV>) -> bool {
    forall|i: int, j: int|
        #![trigger s[i].id, s[j].id]
        0 <= i < j < s.len() ==> s[i].id <= s[j].id
}

/// The counter rebuilt from loose tasks: one more than the largest
/// identifier present, zero when there is none.
pub open spec fn spec_rebuilt_next_id(s: Seq<TaskV>) -> nat
    decreases s.len(),
{
    if s.len() == 0 {
        0
    } else {
        let rest = spec_rebuilt_next_id(s.drop_last());
        if s.last().id + 1 > rest {
            (s.last().id + 1) as nat
        } else {
            rest
        }
    }
}

/// A store reassembled from loose tasks, as loading one file per task
/// does: the tasks in ascending identifier order, under a counter one
/// past the largest identifier seen.
pub fn rebuild_store(tasks: Vec<Task>) -> (r: TaskList)
    requires
        forall|i: int| 0 <= i < tasks@.len() ==> (#[trigger] tasks@[i]).id < usize::MAX,
    ensures
        r@.tasks.to_multiset() == tasks@.map_values(|t: Task| t@).to_multiset(),
        sorted_by_id(r@.tasks),
        r@.next_id == spec_rebuilt_next_id(tasks@.map_values(|t: Task| t@)),
{
    let ghost total = tasks@.map_values(|t: Task| t@);
    let mut next_id: usize = 0;
    let n = tasks.len();
    let mut k: usize = 0;
    while k < n
        invariant
            0 <= k <= n,
            n == tasks@.len(),
            total == tasks@.map_values(|t: Task| t@),
            forall|i: int| 0 <= i < tasks@.len() ==> (#[trigger] tasks@[i]).id < usize::MAX,
            next_id == spec_rebuilt_next_id(total.take(k as int)),
        decreases n - k,
    {
        if tasks[k].id >= next_id {
            next_id = tasks[k].id + 1;
        }
        proof {
            assert(total.take(k + 1 as int).drop_last() =~= total.take(k as int));
            assert(total.take(k + 1 as int).last() == tasks@[k as int]@);
        }
        k = k + 1;
    }
    proof {
        assert(total.take(n as int) =~= total);
    }
    let sorted = sort_by_id(tasks);
    let r = TaskList { tasks: sorted, next_id };
    proof {
        assert(r@.tasks =~= sorted@.map_values(|t: Task| t@));
    }
    r
}

/// The views of a sequence of tasks.
pub open spec fn task_views(v: Seq<Task>) -> Seq<TaskV> {
    v.map_values(|t: Task| t@)
}

/// The tasks in ascending identifier order: repeatedly moves a task of
/// smallest identifier over to the output.
fn sort_by_id(tasks: Vec<Task>) -> (r: Vec<Task>)
    ensures
        task_views(r@).to_multiset() == task_views(tasks@).to_multiset(),
        sorted_by_id(task_views(r@)),
{
    let ghost total = task_views(tasks@);
    let mut rest = tasks;
    let mut out: Vec<Task> = Vec::new();
    proof {
        broadcast use vstd::seq_lib::group_to_multiset_ensures;

        assert(task_views(out@) =~= Seq::<TaskV>::empty());
        assert(task_views(rest@) =~= total);
        assert forall|x: TaskV| #[trigger] task_views(out@).to_multiset().count(x) == 0 by {
            if task_views(out@).to_multiset().count(x) > 0 {
                assert(task_views(out@).contains(x));
            }
        }
        assert(task_views(out@).to_multiset().add(task_views(rest@).to_multiset())
            =~= total.to_multiset());
    }
    loop
        invariant
            task_views(out@).to_multiset().add(task_views(rest@).to_multiset())
                =~= total.to_multiset(),
            sorted_by_id(task_views(out@)),
            forall|i: int, j: int|
                #![trigger task_views(out@)[i].id, task_views(rest@)[j].id]
                0 <= i < out@.len() && 0 <= j < rest@.len() ==> task_views(out@)[i].id
                    <= task_views(rest@)[j].id,
        ensures
            rest@.len() == 0,
        decreases rest@.len(),
    {
        if rest.is_empty() {
            break ;
        }
        let mut m: usize = 0;
        let mut k: usize = 1;
        let n = rest.len();
        while k < n
            invariant
                0 <= m < k <= n,
                n == rest@.len(),
                forall|j: int| 0 <= j < k ==> rest@[m as int].id <= (#[trigger] rest@[j]).id,
            decreases n - k,
        {
            if rest[k].id < rest[m].id {
                m = k;
            }
            k = k + 1;
        }
        let ghost old_rest = rest@;
        let ghost out_m = task_views(out@);
        let ghost rest_m = task_views(rest@);
        let picked = rest.remove(m);
        out.push(picked);
        proof {
            broadcast use vstd::seq_lib::group_to_multiset_ensures;

            let x = picked@;
            assert(picked == old_rest[m as int]);
            assert(task_views(rest@) =~= rest_m.remove(m as int));
            assert(task_views(out@) =~= out_m.push(x));
            assert(rest_m[m as int] == x);
            assert(task_views(rest@).to_multiset() =~= rest_m.to_multiset().remove(x));
            assert(task_views(out@).to_multiset() =~= out_m.to_multiset().insert(x));
            assert(rest_m.to_multiset().contains(x)) by {
                assert(rest_m.contains(x));
            }
            assert(out_m.to_multiset().insert(x).add(rest_m.to_multiset().remove(x))
                =~= out_m.to_multiset().add(rest_m.to_multiset()));
            assert forall|j: int| 0 <= j < rest_m.len() implies x.id <= (
            #[trigger] rest_m[j]).id by {
                assert(rest_m[j] == old_rest[j]@);
                assert(old_rest[m as int].id <= old_rest[j].id);
            }
            assert forall|i: int, j: int|
                #![trigger task_views(out@)[i].id, task_views(rest@)[j].id]
                0 <= i < out@.len() && 0 <= j < rest@.len() implies task_views(out@)[i].id
                <= task_views(rest@)[j].id by {
                let om = task_views(out@);
                let rm = task_views(rest@);
                assert(rm[j] == rest_m[if j < m as int {
                    j
                } else {
                    j + 1
                }]);
                if i < out@.len() - 1 {
                    assert(om[i] == out_m[i]);
                } else {
                    assert(om[i] == x);
                }
            }
            assert(sorted_by_id(task_views(out@))) by {
                let om = task_views(out@);
                assert forall|i: int, j: int|
                    #![trigger om[i].id, om[j].id]
                    0 <= i < j < om.len() implies om[i].id <= om[j].id by {
                    if j < om.len() - 1 {
                        assert(om[i] == out_m[i] && om[j] == out_m[j]);
                    } else {
                        assert(om[i] == out_m[i] && om[j] == x);
                        assert(out_m[i].id <= rest_m[m as int].id);
                    }
                }
            }
        }
    }
    proof {
        broadcast use vstd::seq_lib::group_to_multiset_ensures;

        assert(task_views(rest@) =~= Seq::<TaskV>::empty());
        assert forall|x: TaskV| #[trigger] task_views(rest@).to_multiset().count(x) == 0 by {
            if task_views(rest@).to_multiset().count(x) > 0 {
                assert(task_views(rest@).contains(x));
            }
        }
        assert(task_views(out@).to_multiset() =~= total.to_multiset());
    }
    out
}

/// After an `add`, looking the assigned identifier up finds a task with
/// exactly the given description, not yet completed.
pub proof fn lemma_add_then_get(s: TaskListV, d: Seq<char>)
    requires
        s.wf(),
    ensures
        ({
            let s2 = spec_add(s, d);
            let i = first_idx(s2.tasks, s.next_id);
            &&& has_id(s2.tasks, s.next_id)
            &&& i == s.tasks.len()
            &&& s2.tasks[i].description == d
            &&& !s2.tasks[i].completed
        }),
{
    let s2 = spec_add(s, d);
    let n = s.tasks.len() as int;
    assert(s2.tasks[n].id == s.next_id);
    assert(has_id(s2.tasks, s.next_id));
    lemma_first_idx(s2.tasks, s.next_id);
    let i = first_idx(s2.tasks, s.next_id);
    if i < n {
        assert(s2.tasks[i] == s.tasks[i]);
        assert(s.tasks[i].id < s.next_id);
    }
}

/// Completing an existing identifier marks exactly that task complete and
/// keeps its identifier and description; the store keeps its length.
pub proof fn lemma_complete_then_get(s: TaskListV, id: nat)
    requires
        s.wf(),
        has_id(s.tasks, id),
    ensures
        ({
            let s2 = spec_complete(s, id);
            let i = first_idx(s.tasks, id);
            &&& s2.tasks.len() == s.tasks.len()
            &&& has_id(s2.tasks, id)
            &&& first_idx(s2.tasks, id) == i
            &&& s2.tasks[i].completed
            &&& s2.tasks[i].id == s.tasks[i].id
            &&& s2.tasks[i].description == s.tasks[i].description
            &&& forall|j: int| 0 <= j < s2.tasks.len() && j != i ==> s2.tasks[j] == s.tasks[j]
        }),
{
    lemma_first_idx(s.tasks, id);
    let i = first_idx(s.tasks, id);
    let s2 = spec_complete(s, id);
    assert(s2.tasks[i].id == id);
    assert(has_id(s2.tasks, id));
    lemma_first_idx(s2.tasks, id);
    let i2 = first_idx(s2.tasks, id);
    if i2 < i {
        assert(s2.tasks[i2] == s.tasks[i2]);
    }
    if i < i2 {
        assert(s2.tasks[i].id != id);
    }
}

/// Removing an existing identifier shortens the store by exactly one and
/// leaves no task with that identifier; removing a missing identifier
/// changes nothing.
pub proof fn lemma_remove_then_get(s: TaskListV, id: nat)
    requires
        s.wf(),
    ensures
        has_id(s.tasks, id) ==> spec_remove(s, id).tasks.len() == s.tasks.len() - 1,
        !has_id(spec_remove(s, id).tasks, id),
        !has_id(s.tasks, id) ==> spec_remove(s, id) == s,
{
    if has_id(s.tasks, id) {
        lemma_first_idx(s.tasks, id);
        let i = first_idx(s.tasks, id);
        let s2 = spec_remove(s, id);
        if has_id(s2.tasks, id) {
            let w = choose|j: int| 0 <= j < s2.tasks.len() && s2.tasks[j].id == id;
            if w < i {
                assert(s2.tasks[w] == s.tasks[w]);
            } else {
                assert(s2.tasks[w] == s.tasks[w + 1]);
                assert(s.tasks[i].id == s.tasks[w + 1].id);
            }
            assert(false);
        }
    }
}

impl Default for TaskList {
    /// An empty store whose first assigned identifier will be 0.
    fn default() -> (r: TaskList)
        ensures
            r@.tasks.len() == 0,
            r@.next_id == 0,
    {
        TaskList { tasks: Vec::new(), next_id: 0 }
    }
}

impl TaskList {
    /// An empty store whose first assigned identifier will be 0.
    pub fn new() -> (r: Self)
        ensures
            r@.tasks.len() == 0,
            r@.next_id == 0,
    {
        Self::default()
    }

    /// Appends a task with the next identifier and returns that identifier.
    /// The description is taken as given: rejecting empty titles is the
    /// caller's concern, not the store's.
    pub fn add_task(&mut self, description: String) -> (id: usize)
        requires
            old(self).next_id < usize::MAX,
        ensures
            id == old(self)@.next_id,
            final(self)@ == spec_add(old(self)@, description@),
            old(self)@.wf() ==> final(self)@.wf(),
    {
        let task = Task { id: self.next_id, description, completed: false };
        let ghost dv = task.description@;
        let id = task.id;
        self.tasks.push(task);
        self.next_id = self.next_id + 1;
        proof {
            assert(self@.tasks =~= spec_add(old(self)@, dv).tasks);
            assert(self@ =~= spec_add(old(self)@, dv));
            if old(self)@.wf() {
                let s = self@.tasks;
                assert forall|i: int, j: int|
                    #![trigger s[i].id, s[j].id]
                    0 <= i < j < s.len() implies s[i].id != s[j].id by {
                    if j == s.len() - 1 {
                        assert(s[i].id < old(self)@.next_id);
                    }
                }
            }
        }
        id
    }

    /// Index of the first task with identifier `id`, if any.
    fn find_index(&self, id: usize) -> (r: Option<usize>)
        ensures
            r is Some <==> has_id(self@.tasks, id as nat),
            r matches Some(i) ==> {
                &&& 0 <= i < self@.tasks.len()
                &&& i == first_idx(self@.tasks, id as nat)
                &&& self@.tasks[i as int].id == id as nat
            },
    {
        let n = self.tasks.len();
        let mut k: usize = 0;
        while k < n
            invariant
                0 <= k <= n,
                n == self.tasks.len(),
                forall|j: int| 0 <= j < k ==> self@.tasks[j].id != id as nat,
            decreases n - k,
        {
            if self.tasks[k].id == id {
                proof {
                    let s = self@.tasks;
                    assert(s[k as int] == self.tasks@[k as int]@);
                    assert(s[k as int].id == id as nat);
                    lemma_first_idx(s, id as nat);
                    let i0 = first_idx(s, id as nat);
                    if i0 < k as int {
                        assert(s[i0].id != id as nat);
                    }
                }
                return Some(k);
            }
            proof {
                assert(self@.tasks[k as int] == self.tasks@[k as int]@);
            }
            k = k + 1;
        }
        proof {
            lemma_first_idx(self@.tasks, id as nat);
        }
        None
    }

    /// Marks the first task with identifier `id` complete; reports whether a
    /// match was found. A miss mutates nothing.
    pub fn complete_task(&mut self, id: usize) -> (r: bool)
        ensures
            r == has_id(old(self)@.tasks, id as nat),
            final(self)@ == spec_complete(old(self)@, id as nat),
            old(self)@.wf() ==> final(self)@.wf(),
    {
        match self.find_index(id) {
            Some(i) => {
                self.tasks[i].completed = true;
                proof {
                    lemma_first_idx(old(self)@.tasks, id as nat);
                    assert(self@.tasks =~= spec_complete(old(self)@, id as nat).tasks);
                    assert(self@ =~= spec_complete(old(self)@, id as nat));
                }
                true
            },
            None => {
                proof {
                    assert(self@ =~= spec_complete(old(self)@, id as nat));
                }
                false
            },
        }
    }

    /// Flips the completion flag of the first task with identifier `id`;
    /// reports whether a match was found. A miss mutates nothing.
    pub fn toggle_task(&mut self, id: usize) -> (r: bool)
        ensures
            r == has_id(old(self)@.tasks, id as nat),
            final(self)@ == spec_toggle(old(self)@, id as nat),
            old(self)@.wf() ==> final(self)@.wf(),
    {
        match self.find_index(id) {
            Some(i) => {
                let flipped = !self.tasks[i].completed;
                self.tasks[i].completed = flipped;
                proof {
                    lemma_first_idx(old(self)@.tasks, id as nat);
                    assert(self@.tasks =~= spec_toggle(old(self)@, id as nat).tasks);
                    assert(self@ =~= spec_toggle(old(self)@, id as nat));
                }
                true
            },
            None => {
                proof {
                    assert(self@ =~= spec_toggle(old(self)@, id as nat));
                }
                false
            },
        }
    }

    /// Removes the first task with identifier `id`; reports whether a match
    /// was found. A miss mutates nothing.
    pub fn remove_task(&mut self, id: usize) -> (r: bool)
        ensures
            r == has_id(old(self)@.tasks, id as nat),
            final(self)@ == spec_remove(old(self)@, id as nat),
            old(self)@.wf() ==> final(self)@.wf(),
    {
        match self.find_index(id) {
            Some(i) => {
                self.tasks.remove(i);
                proof {
                    lemma_first_idx(old(self)@.tasks, id as nat);
                    assert(self@.tasks =~= spec_remove(old(self)@, id as nat).tasks);
                    assert(self@ =~= spec_remove(old(self)@, id as nat));
                    if old(self)@.wf() {
                        let s = self@.tasks;
                        let s0 = old(self)@.tasks;
                        assert forall|a: int, b: int|
                            #![trigger s[a].id, s[b].id]
                            0 <= a < b < s.len() implies s[a].id != s[b].id by {
                            assert(s[a] == if a < i {
                                s0[a]
                            } else {
                                s0[a + 1]
                            });
                            assert(s[b] == if b < i {
                                s0[b]
                            } else {
                                s0[b + 1]
                            });
                        }
                    }
                }
                true
            },
            None => {
                proof {
                    assert(self@ =~= spec_remove(old(self)@, id as nat));
                }
                false
            },
        }
    }

    /// The first task with identifier `id`, if any; read-only.
    pub fn get_task(&self, id: usize) -> (r: Option<&Task>)
        ensures
            r is Some <==> has_id(self@.tasks, id as nat),
            r matches Some(t) ==> t@ == self@.tasks[first_idx(self@.tasks, id as nat)]
                && t@.id == id as nat,
    {
        match self.find_index(id) {
            Some(i) => {
                proof {
                    lemma_first_idx(self@.tasks, id as nat);
                }
                Some(&self.tasks[i])
            },
            None => None,
        }
    }

    /// Number of tasks in the store.
    pub fn len(&self) -> (r: usize)
        ensures
            r == self@.tasks.len(),
    {
        self.tasks.len()
    }

    /// Whether the store holds no task.
    pub fn is_empty(&self) -> (r: bool)
        ensures
            r == (self@.tasks.len() == 0),
    {
        self.tasks.is_empty()
    }

    /// Number of tasks not yet completed.
    pub fn pending_count(&self) -> (r: usize)
        ensures
            r == spec_pending(self@.tasks),
    {
        let ghost model = self@.tasks;
        let n = self.tasks.len();
        let mut count: usize = 0;
        let mut k: usize = 0;
        while k < n
            invariant
                0 <= k <= n,
                n == self.tasks@.len(),
                model == self@.tasks,
                count == spec_pending(model.take(k as int)),
                count <= k,
            decreases n - k,
        {
            if !self.tasks[k].completed {
                count = count + 1;
            }
            proof {
                assert(model.take(k + 1 as int).drop_last() =~= model.take(k as int));
                assert(model.take(k + 1 as int).last() == self.tasks@[k as int]@);
            }
            k = k + 1;
        }
        proof {
            assert(model.take(n as int) =~= model);
        }
        count
    }
}

/// How many tasks in `s` are not completed.
pub open spec fn spec_pending(s: Seq<TaskV>) -> nat
    decreases s.len(),
{
    if s.len() == 0 {
        0
    } else {
        spec_pending(s.drop_last()) + (if s.last().completed {
            0nat
        } else {
            1nat
        })
    }
}

} // verus!
