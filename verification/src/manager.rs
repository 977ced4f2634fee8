//! The UUID-keyed task model: tasks carry a time-ordered 128-bit
//! identifier next to their insertion index, and a manager that looks
//! them up, removes them and hands them out by either key. Reading and
//! writing the per-task files is the caller's business; the manager owns
//! the in-memory collection.

use vstd::prelude::*;
use vstd::string::StringExecFns;

use crate::codec::{
    digit_val_exec, digits_val, is_digit, is_digit_exec, lemma_digits_val_mono, ser_nat,
    usize_to_string,
};

verus! {

/// A point in time: seconds and nanoseconds since the Unix epoch.
#[derive(Debug, Clone, Copy, PartialEq, Eq, Structural)]
pub struct Timestamp {
    pub secs: u64,
    pub nanos: u32,
}

/// A task under the UUID-keyed model.
#[derive(Debug, Clone, PartialEq)]
pub struct Task {
    pub uuid: u128,
    pub index: usize,
    pub title: String,
    pub created_at: Timestamp,
    pub updated_at: Timestamp,
    pub tags: Vec<String>,
    pub description: Option<String>,
    pub project: Option<String>,
    pub due_date: Option<Timestamp>,
}

/// Mathematical model of a UUID-keyed task.
#[verifier::ext_equal]
pub struct MTaskV {
    pub uuid: u128,
    pub index: nat,
    pub title: Seq<char>,
    pub created_at: Timestamp,
    pub updated_at: Timestamp,
    pub tags: Seq<Seq<char>>,
    pub description: Option<Seq<char>>,
    pub project: Option<Seq<char>>,
    pub due_date: Option<Timestamp>,
}

impl View for Task {
    type V = MTaskV;

    open spec fn view(&self) -> MTaskV {
        MTaskV {
            uuid: self.uuid,
            index: self.index as nat,
            title: self.title@,
            created_at: self.created_at,
            updated_at: self.updated_at,
            tags: self.tags@.map_values(|s: String| s@),
            description: match self.description {
                Some(d) => Some(d@),
                None => None,
            },
            project: match self.project {
                Some(p) => Some(p@),
                None => None,
            },
            due_date: self.due_date,
        }
    }
}

/// Relies on `uuid::Uuid::new_v7` and `uuid::Timestamp::from_unix`: a
/// version-7 identifier built from the given clock reading, its low bits
/// drawn at random, so nothing is promised of it. Building from an
/// already-taken reading never consults the clock again and cannot fail
/// on a clock that reads before the epoch.
#[verifier::external_body]
fn fresh_uuid_at(t: Timestamp) -> u128 {
    uuid::Uuid::new_v7(uuid::Timestamp::from_unix(uuid::NoContext, t.secs, t.nanos)).as_u128()
}

/// Relies on `std::time::SystemTime::now`: the clock's reading, as
/// seconds and nanoseconds since the Unix epoch. Which reading comes
/// depends on the clock, so nothing is promised of it.
#[verifier::external_body]
fn now_timestamp() -> Timestamp {
    match std::time::SystemTime::now().duration_since(std::time::UNIX_EPOCH) {
        Ok(d) => Timestamp { secs: d.as_secs(), nanos: d.subsec_nanos() },
        Err(_) => Timestamp { secs: 0, nanos: 0 },
    }
}

impl Task {
    /// A fresh task: a new identifier from the clock, the given title
    /// and index, both timestamps taken now, everything else empty.
    pub fn new(title: String, index: usize) -> (r: Task)
        ensures
            r@.title == title@,
            r@.index == index as nat,
            r@.tags.len() == 0,
            r@.description is None,
            r@.project is None,
            r@.due_date is None,
    {
        let uuid = fresh_uuid_at(now_timestamp());
        Task {
            uuid,
            title,
            index,
            created_at: now_timestamp(),
            updated_at: now_timestamp(),
            tags: Vec::new(),
            description: None,
            project: None,
            due_date: None,
        }
    }

    /// How the task prints: its index in brackets, then its title.
    pub fn display_string(&self) -> (r: String)
        ensures
            r@ == "["@ + ser_nat(self@.index) + "]: "@ + self@.title,
    {
        let mut out = String::from_str("[");
        let num = usize_to_string(self.index);
        out.append(num.as_str());
        out.append("]: ");
        out.append(self.title.as_str());
        proof {
            assert(out@ =~= "["@ + ser_nat(self@.index) + "]: "@ + self@.title);
        }
        out
    }
}

/// A task as it rests in its file: every field but the identifier,
/// which the file's name carries.
#[derive(Debug, Clone, PartialEq)]
pub struct TaskInStore {
    pub index: usize,
    pub title: String,
    pub created_at: Timestamp,
    pub updated_at: Timestamp,
    pub tags: Vec<String>,
    pub description: Option<String>,
    pub project: Option<String>,
    pub due_date: Option<Timestamp>,
}

/// What dropping the identifier from a task leaves.
pub open spec fn spec_task_in_store(t: Task) -> TaskInStore {
    TaskInStore {
        index: t.index,
        title: t.title,
        created_at: t.created_at,
        updated_at: t.updated_at,
        tags: t.tags,
        description: t.description,
        project: t.project,
        due_date: t.due_date,
    }
}

impl From<Task> for TaskInStore {
    fn from(task: Task) -> (r: TaskInStore) {
        TaskInStore {
            index: task.index,
            title: task.title,
            created_at: task.created_at,
            updated_at: task.updated_at,
            tags: task.tags,
            description: task.description,
            project: task.project,
            due_date: task.due_date,
        }
    }
}

impl vstd::std_specs::convert::FromSpecImpl<Task> for TaskInStore {
    open spec fn obeys_from_spec() -> bool {
        true
    }

    open spec fn from_spec(task: Task) -> TaskInStore {
        spec_task_in_store(task)
    }
}

/// A stored task joined back with the identifier its file name carried.
pub fn task_from_store(task: TaskInStore, uuid: u128) -> (r: Task)
    ensures
        r == (Task {
            uuid,
            index: task.index,
            title: task.title,
            created_at: task.created_at,
            updated_at: task.updated_at,
            tags: task.tags,
            description: task.description,
            project: task.project,
            due_date: task.due_date,
        }),
{
    Task {
        uuid,
        index: task.index,
        title: task.title,
        created_at: task.created_at,
        updated_at: task.updated_at,
        tags: task.tags,
        description: task.description,
        project: task.project,
        due_date: task.due_date,
    }
}

/// Where this model's task files live.
#[derive(Debug, Clone, PartialEq)]
pub struct Config {
    pub store_location: Option<String>,
}

impl Default for Config {
    /// No store location: the manager keeps tasks in memory only.
    fn default() -> (r: Config)
        ensures
            r.store_location is None,
    {
        Config { store_location: None }
    }
}

impl Config {
    /// The directory task files live in: `tasks` under the store
    /// location, or nowhere when no location is set.
    pub fn get_task_store_path(&self) -> (r: Option<String>)
        ensures
            match self.store_location {
                Some(loc) => r matches Some(p) && p@ == loc@ + "/tasks"@,
                None => r is None,
            },
    {
        match &self.store_location {
            Some(loc) => {
                let mut p = loc.clone();
                p.append("/tasks");
                Some(p)
            },
            None => None,
        }
    }
}

/// Either key a task can be addressed by: its UUID or its index.
#[derive(Debug, Clone, Copy, PartialEq, Eq, Structural)]
pub enum UUIDorIndex {
    UUID(u128),
    Index(usize),
}

/// What an uninterpreted text denotes as a UUID, if anything. Relied on
/// below through `uuid::Uuid::parse_str`, whose verdict depends on the
/// text alone.
pub uninterp spec fn uuid_of(s: Seq<char>) -> Option<u128>;

/// Relies on `uuid::Uuid::parse_str`: whether a text is one of the UUID
/// formats, and which 128-bit value it denotes, depend on the text
/// alone.
#[verifier::external_body]
fn parse_uuid(s: &str) -> (r: Option<u128>)
    ensures
        r == uuid_of(s@),
{
    match uuid::Uuid::parse_str(s) {
        Ok(u) => Some(u.as_u128()),
        Err(_) => None,
    }
}

/// What a text denotes as an index: an optional leading plus sign, then
/// at least one digit, valued within the machine's word.
pub open spec fn spec_parse_index(s: Seq<char>) -> Option<nat> {
    let start: int = if s.len() > 0 && s[0] == '+' {
        1
    } else {
        0
    };
    if s.len() > start && (forall|j: int| start <= j < s.len() ==> is_digit(#[trigger] s[j]))
        && digits_val(s, start, s.len() as int) <= usize::MAX {
        Some(digits_val(s, start, s.len() as int))
    } else {
        None
    }
}

/// The error line for a text that is neither an index nor a UUID.
pub open spec fn invalid_id_line(s: Seq<char>) -> Seq<char> {
    "Invalid UUID or index: "@ + s
}

/// Reads a key: an index if the text parses as one, else a UUID if it
/// parses as one, else the error line.
pub fn parse_id(s: &str) -> (r: Result<UUIDorIndex, String>)
    ensures
        match spec_parse_index(s@) {
            Some(n) => r matches Ok(id) && id == UUIDorIndex::Index(n as usize),
            None => match uuid_of(s@) {
                Some(u) => r matches Ok(id) && id == UUIDorIndex::UUID(u),
                None => r matches Err(e) && e@ == invalid_id_line(s@),
            },
        },
{
    match parse_index(s) {
        Some(n) => Ok(UUIDorIndex::Index(n)),
        None => match parse_uuid(s) {
            Some(u) => Ok(UUIDorIndex::UUID(u)),
            None => {
                let mut msg = String::from_str("Invalid UUID or index: ");
                msg.append(s);
                Err(msg)
            },
        },
    }
}

impl core::str::FromStr for UUIDorIndex {
    type Err = String;

    fn from_str(s: &str) -> (r: Result<UUIDorIndex, String>) {
        parse_id(s)
    }
}

/// Reads an index: an optional leading plus sign, then digits.
fn parse_index(s: &str) -> (r: Option<usize>)
    ensures
        match spec_parse_index(s@) {
            Some(n) => r == Some(n as usize),
            None => r is None,
        },
{
    let chars = crate::codec::str_to_chars(s);
    let n = chars.len();
    let start: usize = if n > 0 && chars[0] == '+' {
        1
    } else {
        0
    };
    if n <= start {
        return None;
    }
    let mut val: u128 = 0;
    let mut k: usize = start;
    while k < n
        invariant
            start <= k <= n,
            n == chars@.len(),
            chars@ == s@,
            start as int == (if s@.len() > 0 && s@[0] == '+' {
                1int
            } else {
                0int
            }),
            n > start,
            forall|j: int| start <= j < k ==> is_digit(#[trigger] s@[j]),
            val == digits_val(s@, start as int, k as int),
            val <= usize::MAX as u128,
        decreases n - k,
    {
        let c = chars[k];
        if !is_digit_exec(c) {
            return None;
        }
        let d = digit_val_exec(c);
        let big = val * 10 + (d as u128);
        if big > (usize::MAX as u128) {
            proof {
                assert(digits_val(s@, start as int, k + 1 as int) == val * 10 + d);
                lemma_digits_val_mono(s@, start as int, k + 1 as int, s@.len() as int);
            }
            return None;
        }
        val = big;
        k = k + 1;
    }
    Some(val as usize)
}

/// Mathematical model of the manager: its tasks in order, and the index
/// the next created task will take.
#[verifier::ext_equal]
pub struct ManagerV {
    pub tasks: Seq<MTaskV>,
    pub next_index: nat,
}

/// Whether task `t` answers to the key `id`.
pub open spec fn task_matches(t: MTaskV, id: UUIDorIndex) -> bool {
    match id {
        UUIDorIndex::UUID(u) => t.uuid == u,
        UUIDorIndex::Index(x) => t.index == x as nat,
    }
}

/// Whether some task in `s` answers to the key.
pub open spec fn spec_found(s: Seq<MTaskV>, id: UUIDorIndex) -> bool {
    exists|i: int| 0 <= i < s.len() && task_matches(s[i], id)
}

/// Position of the first task in `s` answering to the key; `s.len()`
/// when none does.
pub open spec fn spec_find(s: Seq<MTaskV>, id: UUIDorIndex) -> int
    decreases s.len(),
{
    if s.len() == 0 {
        0
    } else if task_matches(s[0], id) {
        0
    } else {
        1 + spec_find(s.subrange(1, s.len() as int), id)
    }
}

/// When the key occurs, its first position is a real position holding a
/// matching task, with no match before it.
pub proof fn lemma_spec_find(s: Seq<MTaskV>, id: UUIDorIndex)
    ensures
        spec_found(s, id) ==> {
            let i = spec_find(s, id);
            &&& 0 <= i < s.len()
            &&& task_matches(s[i], id)
            &&& forall|j: int| 0 <= j < i ==> !task_matches(s[j], id)
        },
        !spec_found(s, id) ==> spec_find(s, id) == s.len(),
    decreases s.len(),
{
    if s.len() == 0 {
    } else if task_matches(s[0], id) {
    } else {
        let rest = s.subrange(1, s.len() as int);
        lemma_spec_find(rest, id);
        if spec_found(s, id) {
            let w = choose|i: int| 0 <= i < s.len() && task_matches(s[i], id);
            assert(task_matches(rest[w - 1], id));
        }
        if spec_found(rest, id) {
            let w = choose|i: int| 0 <= i < rest.len() && task_matches(rest[i], id);
            assert(task_matches(s[w + 1], id));
        }
        if spec_found(s, id) {
            let i = spec_find(s, id);
            assert forall|j: int| 0 <= j < i implies !task_matches(s[j], id) by {
                if j >= 1 {
                    assert(rest[j - 1] == s[j]);
                    assert(!task_matches(rest[j - 1], id));
                }
            }
        }
    }
}

/// The in-memory task collection under the UUID-keyed model, with the
/// next insertion index and the configuration it was opened with.
#[derive(Debug)]
pub struct TaskManager {
    pub tasks: Vec<Task>,
    pub next_index: usize,
    pub config: Config,
}

impl View for TaskManager {
    type V = ManagerV;

    open spec fn view(&self) -> ManagerV {
        ManagerV {
            tasks: self.tasks@.map_values(|t: Task| t@),
            next_index: self.next_index as nat,
        }
    }
}

impl TaskManager {
    /// A manager with no tasks yet and an index counter at zero. Tasks
    /// loaded from storage are handed in one by one through
    /// `insert_loaded`, which also rebuilds the counter.
    pub fn new(config: Config) -> (r: TaskManager)
        ensures
            r@.tasks.len() == 0,
            r@.next_index == 0,
            r.config == config,
    {
        TaskManager { tasks: Vec::new(), next_index: 0, config }
    }

    /// Appends one task read back from storage and keeps the index
    /// counter one past the largest index seen, so that a task created
    /// after loading never reuses an index.
    pub fn insert_loaded(&mut self, task: Task)
        requires
            task.index < usize::MAX,
        ensures
            final(self)@.tasks == old(self)@.tasks.push(task@),
            final(self)@.next_index == if task@.index + 1 > old(self)@.next_index {
                task@.index + 1
            } else {
                old(self)@.next_index
            },
            final(self).config == old(self).config,
    {
        if task.index >= self.next_index {
            self.next_index = task.index + 1;
        }
        self.tasks.push(task);
        proof {
            assert(self@.tasks =~= old(self)@.tasks.push(task@));
        }
    }

    /// Creates a task with the next index, keeps it, and returns it for
    /// the caller to persist.
    pub fn create_task(&mut self, title: String) -> (r: Task)
        requires
            old(self).next_index < usize::MAX,
        ensures
            r@.title == title@,
            r@.index == old(self)@.next_index,
            r@.tags.len() == 0,
            r@.description is None,
            r@.project is None,
            r@.due_date is None,
            final(self)@.tasks == old(self)@.tasks.push(r@),
            final(self)@.next_index == old(self)@.next_index + 1,
            final(self).config == old(self).config,
    {
        let task = Task::new(title, self.next_index);
        self.next_index = self.next_index + 1;
        let copy = Task {
            uuid: task.uuid,
            index: task.index,
            title: task.title.clone(),
            created_at: task.created_at,
            updated_at: task.updated_at,
            tags: Vec::new(),
            description: None,
            project: None,
            due_date: task.due_date,
        };
        proof {
            assert(copy@.tags =~= task@.tags);
            assert(copy@ =~= task@);
        }
        self.tasks.push(copy);
        proof {
            assert(self@.tasks =~= old(self)@.tasks.push(task@));
        }
        task
    }

    /// Removes the first task matching the key and returns it; a miss
    /// removes nothing. The caller deletes the task's file.
    pub fn remove_task(&mut self, id: UUIDorIndex) -> (r: Option<Task>)
        ensures
            r is Some <==> spec_found(old(self)@.tasks, id),
            r matches Some(t) ==> {
                &&& t@ == old(self)@.tasks[spec_find(old(self)@.tasks, id)]
                &&& final(self)@.tasks == old(self)@.tasks.remove(
                    spec_find(old(self)@.tasks, id),
                )
            },
            r is None ==> final(self)@.tasks == old(self)@.tasks,
            final(self)@.next_index == old(self)@.next_index,
            final(self).config == old(self).config,
    {
        match self.find_position(id) {
            Some(i) => {
                let t = self.tasks.remove(i);
                proof {
                    assert(self@.tasks =~= old(self)@.tasks.remove(
                        spec_find(old(self)@.tasks, id),
                    ));
                }
                Some(t)
            },
            None => {
                proof {
                    assert(self@.tasks =~= old(self)@.tasks);
                }
                None
            },
        }
    }

    /// The first task matching the key, if any; read-only.
    pub fn get_task(&self, id: UUIDorIndex) -> (r: Option<&Task>)
        ensures
            r is Some <==> spec_found(self@.tasks, id),
            r matches Some(t) ==> t@ == self@.tasks[spec_find(self@.tasks, id)],
    {
        match self.find_position(id) {
            Some(i) => Some(&self.tasks[i]),
            None => None,
        }
    }

    /// Position of the first task matching the key.
    fn find_position(&self, id: UUIDorIndex) -> (r: Option<usize>)
        ensures
            r is Some <==> spec_found(self@.tasks, id),
            r matches Some(i) ==> {
                &&& 0 <= i < self@.tasks.len()
                &&& i == spec_find(self@.tasks, id)
            },
    {
        let n = self.tasks.len();
        let mut k: usize = 0;
        while k < n
            invariant
                0 <= k <= n,
                n == self.tasks@.len(),
                forall|j: int| 0 <= j < k ==> !task_matches(#[trigger] self@.tasks[j], id),
            decreases n - k,
        {
            let hit = match id {
                UUIDorIndex::UUID(u) => self.tasks[k].uuid == u,
                UUIDorIndex::Index(x) => self.tasks[k].index == x,
            };
            proof {
                assert(self@.tasks[k as int] == self.tasks@[k as int]@);
                assert(hit == task_matches(self@.tasks[k as int], id));
            }
            if hit {
                proof {
                    lemma_spec_find(self@.tasks, id);
                    let i0 = spec_find(self@.tasks, id);
                    if i0 < k as int {
                        assert(!task_matches(self@.tasks[i0], id));
                    }
                }
                return Some(k);
            }
            k = k + 1;
        }
        proof {
            lemma_spec_find(self@.tasks, id);
        }
        None
    }

    /// The first `amount` tasks, in insertion order.
    pub fn get_tasks_by_priority(&self, amount: usize) -> (r: Vec<&Task>)
        ensures
            r@.len() == if amount <= self@.tasks.len() {
                amount as nat
            } else {
                self@.tasks.len()
            },
            forall|j: int| 0 <= j < r@.len() ==> (#[trigger] r@[j])@ == self@.tasks[j],
    {
        let mut out: Vec<&Task> = Vec::new();
        let n = self.tasks.len();
        let stop = if amount <= n {
            amount
        } else {
            n
        };
        let mut k: usize = 0;
        while k < stop
            invariant
                0 <= k <= stop <= n,
                n == self.tasks@.len(),
                out@.len() == k,
                forall|j: int| 0 <= j < k ==> (#[trigger] out@[j])@ == self@.tasks[j],
            decreases stop - k,
        {
            out.push(&self.tasks[k]);
            k = k + 1;
        }
        out
    }
}

} // verus!
