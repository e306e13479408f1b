use vstd::prelude::*;

use crate::text::{copy_str, push_char, push_str, str_eq};

verus! {

// ---------------------------------------------------------------------------
// Decimal numerals
// ---------------------------------------------------------------------------

/// The character of a decimal digit.
pub open spec fn digit_char(d: int) -> char {
    if d == 0 {
        '0'
    } else if d == 1 {
        '1'
    } else if d == 2 {
        '2'
    } else if d == 3 {
        '3'
    } else if d == 4 {
        '4'
    } else if d == 5 {
        '5'
    } else if d == 6 {
        '6'
    } else if d == 7 {
        '7'
    } else if d == 8 {
        '8'
    } else {
        '9'
    }
}

fn digit(d: u64) -> (c: char)
    requires
        d < 10,
    ensures
        c == digit_char(d as int),
{
    if d == 0 {
        '0'
    } else if d == 1 {
        '1'
    } else if d == 2 {
        '2'
    } else if d == 3 {
        '3'
    } else if d == 4 {
        '4'
    } else if d == 5 {
        '5'
    } else if d == 6 {
        '6'
    } else if d == 7 {
        '7'
    } else if d == 8 {
        '8'
    } else {
        '9'
    }
}

/// The decimal numeral of `n`, without leading zeros.
pub open spec fn decimal(n: nat) -> Seq<char>
    decreases n,
{
    if n < 10 {
        seq![digit_char(n as int)]
    } else {
        decimal(n / 10).push(digit_char((n % 10) as int))
    }
}

/// The decimal numeral of `n`.
pub fn decimal_string(n: u64) -> (s: String)
    ensures
        s@ == decimal(n as nat),
    decreases n,
{
    let c = digit(n % 10);
    if n < 10 {
        let mut s = String::new();
        push_char(&mut s, c);
        assert(s@ =~= decimal(n as nat));
        s
    } else {
        let mut s = decimal_string(n / 10);
        push_char(&mut s, c);
        s
    }
}

pub proof fn lemma_decimal_len(n: nat)
    ensures
        decimal(n).len() >= 1,
        n >= 10 ==> decimal(n).len() >= 2,
    decreases n,
{
    if n >= 10 {
        lemma_decimal_len(n / 10);
    }
}

proof fn lemma_digit_injective(x: int, y: int)
    requires
        0 <= x < 10,
        0 <= y < 10,
        digit_char(x) == digit_char(y),
    ensures
        x == y,
{
}

/// Different numbers have different numerals.
pub proof fn lemma_decimal_injective(a: nat, b: nat)
    requires
        decimal(a) == decimal(b),
    ensures
        a == b,
    decreases a,
{
    lemma_decimal_len(a);
    lemma_decimal_len(b);
    if a < 10 && b < 10 {
        assert(decimal(a) == seq![digit_char(a as int)]);
        assert(decimal(b) == seq![digit_char(b as int)]);
        assert(decimal(a)[0] == decimal(b)[0]);
        assert(decimal(a)[0] == digit_char(a as int));
        assert(decimal(b)[0] == digit_char(b as int));
        lemma_digit_injective(a as int, b as int);
    } else if a >= 10 && b >= 10 {
        assert(decimal(a).drop_last() =~= decimal(a / 10));
        assert(decimal(b).drop_last() =~= decimal(b / 10));
        lemma_decimal_injective(a / 10, b / 10);
        assert(decimal(a).last() == decimal(b).last());
        assert(decimal(a).last() == digit_char((a % 10) as int));
        assert(decimal(b).last() == digit_char((b % 10) as int));
        lemma_digit_injective((a % 10) as int, (b % 10) as int);
    } else {
        assert(decimal(a).len() != decimal(b).len());
    }
}

// ---------------------------------------------------------------------------
// Tasks
// ---------------------------------------------------------------------------

#[derive(Debug, Clone, Copy, PartialEq, Eq, Structural)]
pub enum TaskStatus {
    Pending,
    InProgress,
    Completed,
    Deleted,
}

/// A task. Metadata values are carried as JSON text.
pub struct Task {
    pub id: String,
    pub subject: String,
    pub description: String,
    pub status: TaskStatus,
    pub active_form: Option<String>,
    pub owner: Option<String>,
    pub blocked_by: Vec<String>,
    pub blocks: Vec<String>,
    pub metadata: Vec<(String, String)>,
}

/// Updates to apply to a task.
pub struct TaskUpdate {
    pub status: Option<TaskStatus>,
    pub subject: Option<String>,
    pub description: Option<String>,
    pub active_form: Option<String>,
    pub owner: Option<String>,
    pub add_blocks: Option<Vec<String>>,
    pub add_blocked_by: Option<Vec<String>>,
    pub metadata: Option<Vec<(String, String)>>,
}

/// The characters of an optional string.
pub open spec fn opt_view(s: Option<String>) -> Option<Seq<char>> {
    match s {
        Some(x) => Some(x@),
        None => None,
    }
}

/// The characters of each string of a list.
pub open spec fn str_views(v: Seq<String>) -> Seq<Seq<char>> {
    Seq::new(v.len(), |i: int| v[i]@)
}

/// The characters of each key and value of a metadata list.
pub open spec fn meta_views(v: Seq<(String, String)>) -> Seq<(Seq<char>, Seq<char>)> {
    Seq::new(v.len(), |i: int| (v[i].0@, v[i].1@))
}

/// A task as plain values: id, subject, description, status, active form,
/// owner, blocked-by ids, blocked ids, metadata.
pub open spec fn task_view(t: Task) -> (
    Seq<char>,
    Seq<char>,
    Seq<char>,
    TaskStatus,
    Option<Seq<char>>,
    Option<Seq<char>>,
    Seq<Seq<char>>,
    Seq<Seq<char>>,
    Seq<(Seq<char>, Seq<char>)>,
) {
    (
        t.id@,
        t.subject@,
        t.description@,
        t.status,
        opt_view(t.active_form),
        opt_view(t.owner),
        str_views(t.blocked_by@),
        str_views(t.blocks@),
        meta_views(t.metadata@),
    )
}

/// The id of the `n`-th task created.
pub open spec fn task_id(n: nat) -> Seq<char> {
    "task_"@ + decimal(n)
}

/// `list` with each of `adds` appended unless already there.
pub open spec fn add_missing(list: Seq<Seq<char>>, adds: Seq<Seq<char>>) -> Seq<Seq<char>>
    decreases adds.len(),
{
    if adds.len() == 0 {
        list
    } else {
        let l = add_missing(list, adds.drop_last());
        if l.contains(adds.last()) {
            l
        } else {
            l.push(adds.last())
        }
    }
}

/// The position of the first entry with key `k`.
pub open spec fn key_pos(m: Seq<(Seq<char>, Seq<char>)>, k: Seq<char>, i: int) -> Option<int>
    decreases m.len() - i,
{
    if i < 0 || i >= m.len() {
        None
    } else if m[i].0 == k {
        Some(i)
    } else {
        key_pos(m, k, i + 1)
    }
}

/// No key occurs twice.
pub open spec fn keys_unique(m: Seq<(Seq<char>, Seq<char>)>) -> bool {
    forall|i: int, j: int| 0 <= i < j < m.len() ==> m[i].0 != m[j].0
}

proof fn lemma_key_pos(m: Seq<(Seq<char>, Seq<char>)>, k: Seq<char>, i: int)
    requires
        0 <= i,
    ensures
        key_pos(m, k, i) matches Some(j) ==> i <= j < m.len() && m[j].0 == k,
        key_pos(m, k, i) is None ==> forall|j: int| i <= j < m.len() ==> m[j].0 != k,
    decreases m.len() - i,
{
    if i < m.len() && m[i].0 != k {
        lemma_key_pos(m, k, i + 1);
    }
}

/// Merging metadata keeps its keys unique.
pub proof fn law_merge_meta_keys_unique(m: Seq<(Seq<char>, Seq<char>)>, upd: Seq<(Seq<char>, Seq<char>)>)
    requires
        keys_unique(m),
    ensures
        keys_unique(merge_meta(m, upd)),
    decreases upd.len(),
{
    if upd.len() > 0 {
        law_merge_meta_keys_unique(m, upd.drop_last());
        let r = merge_meta(m, upd.drop_last());
        let (k, v) = upd.last();
        lemma_key_pos(r, k, 0);
        let out = merge_meta(m, upd);
        match key_pos(r, k, 0) {
            Some(j) => {
                assert(out == r.update(j, (k, v)));
                assert forall|a: int, b: int| 0 <= a < b < out.len() implies out[a].0 != out[b].0 by {
                    assert(out[a].0 == r[a].0);
                    assert(out[b].0 == r[b].0);
                }
            },
            None => {
                assert(out == r.push((k, v)));
                assert forall|a: int, b: int| 0 <= a < b < out.len() implies out[a].0 != out[b].0 by {
                    if b < r.len() {
                        assert(out[a] == r[a] && out[b] == r[b]);
                    } else {
                        assert(out[a] == r[a]);
                    }
                }
            },
        }
    }
}

/// Metadata with the entries of `upd` set in order: a key present takes
/// the new value in place, a new key is appended.
pub open spec fn merge_meta(m: Seq<(Seq<char>, Seq<char>)>, upd: Seq<(Seq<char>, Seq<char>)>) -> Seq<
    (Seq<char>, Seq<char>),
>
    decreases upd.len(),
{
    if upd.len() == 0 {
        m
    } else {
        let r = merge_meta(m, upd.drop_last());
        let (k, v) = upd.last();
        match key_pos(r, k, 0) {
            Some(j) => r.update(j, (k, v)),
            None => r.push((k, v)),
        }
    }
}

/// A task after an update: each given field replaces the old one, the
/// given ids are added to `blocks` and `blocked_by` unless already there,
/// and the given metadata is merged in.
pub open spec fn updated_view(t: Task, u: TaskUpdate) -> (
    Seq<char>,
    Seq<char>,
    Seq<char>,
    TaskStatus,
    Option<Seq<char>>,
    Option<Seq<char>>,
    Seq<Seq<char>>,
    Seq<Seq<char>>,
    Seq<(Seq<char>, Seq<char>)>,
) {
    (
        t.id@,
        match u.subject {
            Some(s) => s@,
            None => t.subject@,
        },
        match u.description {
            Some(s) => s@,
            None => t.description@,
        },
        match u.status {
            Some(s) => s,
            None => t.status,
        },
        match u.active_form {
            Some(s) => Some(s@),
            None => opt_view(t.active_form),
        },
        match u.owner {
            Some(s) => Some(s@),
            None => opt_view(t.owner),
        },
        match u.add_blocked_by {
            Some(v) => add_missing(str_views(t.blocked_by@), str_views(v@)),
            None => str_views(t.blocked_by@),
        },
        match u.add_blocks {
            Some(v) => add_missing(str_views(t.blocks@), str_views(v@)),
            None => str_views(t.blocks@),
        },
        match u.metadata {
            Some(v) => merge_meta(meta_views(t.metadata@), meta_views(v@)),
            None => meta_views(t.metadata@),
        },
    )
}

fn copy_opt(s: &Option<String>) -> (r: Option<String>)
    ensures
        opt_view(r) == opt_view(*s),
{
    match s {
        Some(x) => Some(copy_str(x.as_str())),
        None => None,
    }
}

fn copy_strs(v: &Vec<String>) -> (r: Vec<String>)
    ensures
        str_views(r@) == str_views(v@),
{
    let mut r: Vec<String> = Vec::new();
    let mut i: usize = 0;
    while i < v.len()
        invariant
            i <= v.len(),
            r.len() == i,
            str_views(r@) == str_views(v@).take(i as int),
        decreases v.len() - i,
    {
        let c = copy_str(v[i].as_str());
        assert(c@ == v@[i as int]@);
        let ghost old_r = r@;
        assert(old_r.len() == i);
        r.push(c);
        assert(r@ == old_r.push(c));
        assert forall|k: int| 0 <= k < i + 1 implies #[trigger] str_views(r@)[k] == str_views(
            v@,
        ).take(i + 1)[k] by {
            if k < i {
                assert(str_views(old_r)[k] == str_views(v@).take(i as int)[k]);
            }
        }
        assert(str_views(r@) =~= str_views(v@).take(i + 1));
        i = i + 1;
    }
    assert(str_views(v@).take(v.len() as int) =~= str_views(v@));
    r
}

fn copy_meta(v: &Vec<(String, String)>) -> (r: Vec<(String, String)>)
    ensures
        meta_views(r@) == meta_views(v@),
{
    let mut r: Vec<(String, String)> = Vec::new();
    let mut i: usize = 0;
    while i < v.len()
        invariant
            i <= v.len(),
            r.len() == i,
            meta_views(r@) == meta_views(v@).take(i as int),
        decreases v.len() - i,
    {
        let e = (copy_str(v[i].0.as_str()), copy_str(v[i].1.as_str()));
        let ghost old_r = r@;
        r.push(e);
        assert(r@ == old_r.push(e));
        assert forall|k: int| 0 <= k < i + 1 implies #[trigger] meta_views(r@)[k] == meta_views(
            v@,
        ).take(i + 1)[k] by {
            if k < i {
                assert(meta_views(old_r)[k] == meta_views(v@).take(i as int)[k]);
            }
        }
        assert(meta_views(r@) =~= meta_views(v@).take(i + 1));
        i = i + 1;
    }
    assert(meta_views(v@).take(v.len() as int) =~= meta_views(v@));
    r
}

impl Task {
    /// A copy of the task.
    pub fn duplicate(&self) -> (r: Task)
        ensures
            task_view(r) == task_view(*self),
    {
        Task {
            id: copy_str(self.id.as_str()),
            subject: copy_str(self.subject.as_str()),
            description: copy_str(self.description.as_str()),
            status: self.status,
            active_form: copy_opt(&self.active_form),
            owner: copy_opt(&self.owner),
            blocked_by: copy_strs(&self.blocked_by),
            blocks: copy_strs(&self.blocks),
            metadata: copy_meta(&self.metadata),
        }
    }
}

/// Appends each id of `adds` to `list` unless already there.
fn add_ids(list: &mut Vec<String>, adds: &Vec<String>)
    ensures
        str_views(final(list)@) == add_missing(str_views(old(list)@), str_views(adds@)),
{
    let mut i: usize = 0;
    while i < adds.len()
        invariant
            i <= adds.len(),
            str_views(list@) == add_missing(str_views(old(list)@), str_views(adds@).take(i as int)),
        decreases adds.len() - i,
    {
        let ghost before = str_views(list@);
        assert(str_views(adds@).take(i + 1).drop_last() =~= str_views(adds@).take(i as int));
        assert(str_views(adds@).take(i + 1).last() == adds@[i as int]@);
        let mut found = false;
        let mut j: usize = 0;
        while j < list.len()
            invariant
                i < adds.len(),
                j <= list.len(),
                str_views(list@) == before,
                found == exists|k: int| 0 <= k < j && before[k] == adds@[i as int]@,
            decreases list.len() - j,
        {
            assert(before[j as int] == list@[j as int]@);
            if str_eq(list[j].as_str(), adds[i].as_str()) {
                found = true;
            }
            j = j + 1;
        }
        assert(found == before.contains(adds@[i as int]@));
        if !found {
            list.push(copy_str(adds[i].as_str()));
            assert(str_views(list@) =~= before.push(adds@[i as int]@));
        }
        i = i + 1;
    }
    assert(str_views(adds@).take(adds.len() as int) =~= str_views(adds@));
}

/// Sets each entry of `upd` in `meta`, in order.
fn merge_into(meta: &mut Vec<(String, String)>, upd: &Vec<(String, String)>)
    ensures
        meta_views(final(meta)@) == merge_meta(meta_views(old(meta)@), meta_views(upd@)),
{
    let mut i: usize = 0;
    while i < upd.len()
        invariant
            i <= upd.len(),
            meta_views(meta@) == merge_meta(meta_views(old(meta)@), meta_views(upd@).take(i as int)),
        decreases upd.len() - i,
    {
        let ghost before = meta_views(meta@);
        let ghost k = upd@[i as int].0@;
        assert(meta_views(upd@).take(i + 1).drop_last() =~= meta_views(upd@).take(i as int));
        assert(meta_views(upd@).take(i + 1).last() == (upd@[i as int].0@, upd@[i as int].1@));
        let mut j: usize = 0;
        let mut pos: Option<usize> = None;
        while j < meta.len()
            invariant
                i < upd.len(),
                k == upd@[i as int].0@,
                j <= meta.len(),
                meta_views(meta@) == before,
                pos is None ==> key_pos(before, k, 0) == key_pos(before, k, j as int),
                pos matches Some(p) ==> key_pos(before, k, 0) == Some(p as int) && p < meta.len(),
            decreases meta.len() - j,
        {
            assert(before[j as int].0 == meta@[j as int].0@);
            if pos.is_none() && str_eq(meta[j].0.as_str(), upd[i].0.as_str()) {
                pos = Some(j);
            }
            j = j + 1;
        }
        let entry = (copy_str(upd[i].0.as_str()), copy_str(upd[i].1.as_str()));
        match pos {
            Some(p) => {
                meta.set(p, entry);
                assert(meta_views(meta@) =~= before.update(p as int, (k, upd@[i as int].1@)));
            },
            None => {
                meta.push(entry);
                assert(meta_views(meta@) =~= before.push((k, upd@[i as int].1@)));
            },
        }
        i = i + 1;
    }
    assert(meta_views(upd@).take(upd.len() as int) =~= meta_views(upd@));
}

// ---------------------------------------------------------------------------
// The store
// ---------------------------------------------------------------------------

/// The tasks of a session, with the number the next one gets.
pub struct TaskStore {
    pub tasks: Vec<Task>,
    pub next_id: u64,
}

/// The views of a list of tasks.
pub open spec fn task_views(ts: Seq<Task>) -> Seq<
    (
        Seq<char>,
        Seq<char>,
        Seq<char>,
        TaskStatus,
        Option<Seq<char>>,
        Option<Seq<char>>,
        Seq<Seq<char>>,
        Seq<Seq<char>>,
        Seq<(Seq<char>, Seq<char>)>,
    ),
> {
    Seq::new(ts.len(), |i: int| task_view(ts[i]))
}

/// The first task, from index `i` on, whose id is `id`.
pub open spec fn task_pos(ts: Seq<Task>, id: Seq<char>, i: int) -> Option<int>
    decreases ts.len() - i,
{
    if i < 0 || i >= ts.len() {
        None
    } else if ts[i].id@ == id {
        Some(i)
    } else {
        task_pos(ts, id, i + 1)
    }
}

/// The tasks, among the first `n`, that are not deleted, in order.
pub open spec fn live_tasks(ts: Seq<Task>, n: int) -> Seq<Task>
    decreases n,
{
    if n <= 0 {
        Seq::empty()
    } else {
        let r = live_tasks(ts, n - 1);
        if ts[n - 1].status != TaskStatus::Deleted {
            r.push(ts[n - 1])
        } else {
            r
        }
    }
}

impl TaskStore {
    /// Task `i` has the id of the `i + 1`-th task created, and the next
    /// number follows the last one given out.
    pub open spec fn wf(&self) -> bool {
        &&& self.next_id == self.tasks.len() + 1
        &&& forall|i: int| 0 <= i < self.tasks.len() ==> (#[trigger] self.tasks@[i]).id@ == task_id(
            (i + 1) as nat,
        )
        &&& forall|i: int| 0 <= i < self.tasks.len() ==> keys_unique(meta_views((#[trigger] self.tasks@[i]).metadata@))
    }

    pub fn new() -> (s: Self)
        ensures
            s.wf(),
            s.tasks@.len() == 0,
            s.next_id == 1,
    {
        TaskStore { tasks: Vec::new(), next_id: 1 }
    }

    /// Creates a pending task with the next id (`task_1`, `task_2`, ...).
    pub fn create(&mut self, subject: String, description: String, active_form: Option<String>) -> (t: Task)
        requires
            old(self).next_id < u64::MAX,
        ensures
            task_view(t) == (
                task_id(old(self).next_id as nat),
                subject@,
                description@,
                TaskStatus::Pending,
                opt_view(active_form),
                None::<Seq<char>>,
                Seq::<Seq<char>>::empty(),
                Seq::<Seq<char>>::empty(),
                Seq::<(Seq<char>, Seq<char>)>::empty(),
            ),
            task_views(final(self).tasks@) == task_views(old(self).tasks@).push(task_view(t)),
            final(self).next_id == old(self).next_id + 1,
            old(self).wf() ==> final(self).wf(),
    {
        let mut id = copy_str("task_");
        let num = decimal_string(self.next_id);
        push_str(&mut id, num.as_str());
        self.next_id = self.next_id + 1;
        let task = Task {
            id,
            subject,
            description,
            status: TaskStatus::Pending,
            active_form,
            owner: None,
            blocked_by: Vec::new(),
            blocks: Vec::new(),
            metadata: Vec::new(),
        };
        assert(str_views(task.blocks@) =~= Seq::<Seq<char>>::empty());
        assert(str_views(task.blocked_by@) =~= Seq::<Seq<char>>::empty());
        assert(meta_views(task.metadata@) =~= Seq::<(Seq<char>, Seq<char>)>::empty());
        let copy = task.duplicate();
        let ghost old_tasks = self.tasks@;
        self.tasks.push(task);
        assert(task_views(self.tasks@) =~= task_views(old_tasks).push(task_view(copy)));
        copy
    }

    /// The task with the given id, if any.
    pub fn get(&self, id: &str) -> (r: Option<Task>)
        ensures
            match task_pos(self.tasks@, id@, 0) {
                Some(i) => r matches Some(t) && task_view(t) == task_view(self.tasks@[i]),
                None => r is None,
            },
    {
        match self.find(id) {
            Some(i) => Some(self.tasks[i].duplicate()),
            None => None,
        }
    }

    fn find(&self, id: &str) -> (r: Option<usize>)
        ensures
            match r {
                Some(i) => task_pos(self.tasks@, id@, 0) == Some(i as int) && i < self.tasks.len(),
                None => task_pos(self.tasks@, id@, 0) is None,
            },
    {
        let mut i: usize = 0;
        while i < self.tasks.len()
            invariant
                i <= self.tasks.len(),
                task_pos(self.tasks@, id@, 0) == task_pos(self.tasks@, id@, i as int),
            decreases self.tasks.len() - i,
        {
            if str_eq(self.tasks[i].id.as_str(), id) {
                return Some(i);
            }
            i = i + 1;
        }
        None
    }

    /// List all non-deleted tasks.
    pub fn list(&self) -> (r: Vec<Task>)
        ensures
            task_views(r@) == task_views(live_tasks(self.tasks@, self.tasks@.len() as int)),
    {
        let mut r: Vec<Task> = Vec::new();
        let mut i: usize = 0;
        while i < self.tasks.len()
            invariant
                i <= self.tasks.len(),
                task_views(r@) == task_views(live_tasks(self.tasks@, i as int)),
            decreases self.tasks.len() - i,
        {
            let ghost before = r@;
            if self.tasks[i].status != TaskStatus::Deleted {
                let t = self.tasks[i].duplicate();
                r.push(t);
                assert(task_views(r@) =~= task_views(live_tasks(self.tasks@, i as int)).push(
                    task_view(self.tasks@[i as int]),
                ));
                assert(task_views(live_tasks(self.tasks@, i + 1)) =~= task_views(
                    live_tasks(self.tasks@, i as int),
                ).push(task_view(self.tasks@[i as int])));
            }
            i = i + 1;
        }
        r
    }

    /// Applies `updates` to the task with the given id and returns it as
    /// updated; `None`, with nothing changed, when there is no such task.
    pub fn update(&mut self, id: &str, updates: TaskUpdate) -> (r: Option<Task>)
        ensures
            final(self).next_id == old(self).next_id,
            final(self).tasks@.len() == old(self).tasks@.len(),
            match task_pos(old(self).tasks@, id@, 0) {
                Some(i) => {
                    &&& r matches Some(t) && task_view(t) == updated_view(old(self).tasks@[i], updates)
                    &&& task_views(final(self).tasks@) == task_views(old(self).tasks@).update(
                        i,
                        updated_view(old(self).tasks@[i], updates),
                    )
                },
                None => r is None && task_views(final(self).tasks@) == task_views(old(self).tasks@),
            },
            old(self).wf() ==> final(self).wf(),
    {
        let i = match self.find(id) {
            Some(i) => i,
            None => {
                return None;
            },
        };
        let ghost old_tasks = self.tasks@;
        let mut task = self.tasks[i].duplicate();
        let ghost u0 = updates;
        let TaskUpdate {
            status,
            subject,
            description,
            active_form,
            owner,
            add_blocks,
            add_blocked_by,
            metadata,
        } = updates;
        if let Some(s) = status {
            task.status = s;
        }
        if let Some(s) = subject {
            task.subject = s;
        }
        if let Some(s) = description {
            task.description = s;
        }
        if let Some(s) = active_form {
            task.active_form = Some(s);
        }
        if let Some(s) = owner {
            task.owner = Some(s);
        }
        if let Some(v) = add_blocks {
            add_ids(&mut task.blocks, &v);
        }
        if let Some(v) = add_blocked_by {
            add_ids(&mut task.blocked_by, &v);
        }
        if let Some(v) = metadata {
            merge_into(&mut task.metadata, &v);
        }
        let copy = task.duplicate();
        self.tasks.set(i, task);
        assert(task_views(self.tasks@) =~= task_views(old_tasks).update(i as int, task_view(copy)));
        proof {
            assert forall|k: int| 0 <= k < self.tasks@.len() implies (#[trigger] self.tasks@[k]).id@
                == old_tasks[k].id@ by {}
            if old(self).wf() {
                let t0 = old_tasks[i as int];
                assert(keys_unique(meta_views(t0.metadata@)));
                match u0.metadata {
                    Some(v) => {
                        law_merge_meta_keys_unique(meta_views(t0.metadata@), meta_views(v@));
                    },
                    None => {},
                }
                assert(task_view(self.tasks@[i as int]) == updated_view(t0, u0));
                assert(meta_views(self.tasks@[i as int].metadata@) == task_view(self.tasks@[i as int]).8);
                assert forall|k: int| 0 <= k < self.tasks@.len() implies keys_unique(
                    meta_views((#[trigger] self.tasks@[k]).metadata@),
                ) by {
                    if k != i {
                        assert(self.tasks@[k] == old_tasks[k]);
                    }
                }
            }
        }
        Some(copy)
    }
}

// ---------------------------------------------------------------------------
// Laws
// ---------------------------------------------------------------------------

/// In a well-formed store the ids are distinct: the task with the id of
/// the `n`-th task created is task `n - 1`.
pub proof fn law_task_ids_distinct(store: TaskStore, n: nat)
    requires
        store.wf(),
        1 <= n <= store.tasks@.len(),
    ensures
        task_pos(store.tasks@, task_id(n), 0) == Some(n - 1),
{
    lemma_task_pos_of_id(store, n, 0);
}

proof fn lemma_task_pos_of_id(store: TaskStore, n: nat, i: int)
    requires
        store.wf(),
        1 <= n <= store.tasks@.len(),
        0 <= i <= n - 1,
    ensures
        task_pos(store.tasks@, task_id(n), i) == Some(n - 1),
    decreases n - 1 - i,
{
    if i < n - 1 {
        let t = store.tasks@[i];
        assert(t.id@ == task_id((i + 1) as nat));
        if t.id@ == task_id(n) {
            reveal_strlit("task_");
            assert(decimal((i + 1) as nat) =~= task_id(n).skip(5));
            assert(decimal(n) =~= task_id(n).skip(5));
            lemma_decimal_injective((i + 1) as nat, n);
        }
        lemma_task_pos_of_id(store, n, i + 1);
    } else {
        assert(store.tasks@[i].id@ == task_id(n));
    }
}

/// What `get` gives back after `create`: the task just created.
pub proof fn law_get_after_create(before: TaskStore, after: TaskStore, t: Task)
    requires
        before.wf(),
        after.wf(),
        after.next_id == before.next_id + 1,
        task_views(after.tasks@) == task_views(before.tasks@).push(task_view(t)),
        t.id@ == task_id(before.next_id as nat),
    ensures
        task_pos(after.tasks@, t.id@, 0) == Some(before.tasks@.len() as int),
        task_view(after.tasks@[before.tasks@.len() as int]) == task_view(t),
{
    assert(task_views(after.tasks@).len() == before.tasks@.len() + 1);
    law_task_ids_distinct(after, before.next_id as nat);
    assert(task_views(after.tasks@)[before.tasks@.len() as int] == task_view(t));
}

} // verus!
