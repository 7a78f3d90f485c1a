//! The task store: users, tasks and id counters, with the operations of
//! the commands.  Reading and writing the data file is the caller's part:
//! every operation here works on the data in memory.
use vstd::prelude::*;
use crate::strmap::StrMap;
use crate::tasks::model::{Task, User, Status, Priority, same_task, task_matches};
use crate::text::{views, str_eq};

verus! {

/// Everything the store keeps.
#[derive(Debug)]
pub struct AppData {
    pub users: Vec<User>,
    pub tasks: Vec<Task>,
    pub next_user_id: u32,
    pub next_task_id: u32,
}

/// Users hold the same values.
pub open spec fn same_user(a: User, b: User) -> bool {
    a.id == b.id && a.name@ == b.name@ && a.created_at == b.created_at
}

impl AppData {
    /// No users or tasks; ids start at 1.
    pub fn new() -> (r: Self)
        ensures
            r.users@.len() == 0,
            r.tasks@.len() == 0,
            r.next_user_id == 1,
            r.next_task_id == 1,
    {
        AppData { users: Vec::new(), tasks: Vec::new(), next_user_id: 1, next_task_id: 1 }
    }

    /// Adds user 1, `default`, when there is no user.
    pub fn init_default_user(&mut self)
        ensures
            final(self).tasks == old(self).tasks,
            final(self).next_user_id == old(self).next_user_id,
            final(self).next_task_id == old(self).next_task_id,
            old(self).users@.len() > 0 ==> final(self).users == old(self).users,
            old(self).users@.len() == 0 ==> final(self).users@.len() == 1
                && final(self).users@[0].id == 1 && final(self).users@[0].name@ == "default"@,
    {
        if self.users.len() == 0 {
            self.users.push(User::new(1, "default".to_string()));
        }
    }
}

impl Default for AppData {
    /// No users or tasks, id counters at 0 (as data with no counters reads).
    fn default() -> (r: Self)
        ensures
            r.users@.len() == 0,
            r.tasks@.len() == 0,
            r.next_user_id == 0,
            r.next_task_id == 0,
    {
        AppData { users: Vec::new(), tasks: Vec::new(), next_user_id: 0, next_task_id: 0 }
    }
}

/// Counts per priority name, in the order names first occur.
pub open spec fn priority_counts(ts: Seq<Task>) -> Map<Seq<char>, usize>
    decreases ts.len(),
{
    if ts.len() == 0 {
        Map::empty()
    } else {
        let m = priority_counts(ts.drop_last());
        let k = crate::tasks::model::priority_name(ts.last().priority);
        m.insert(
            k,
            if m.contains_key(k) {
                (m[k] + 1) as usize
            } else {
                1usize
            },
        )
    }
}

/// Number of tasks with a status.
pub open spec fn count_status(ts: Seq<Task>, s: Status) -> nat {
    ts.filter(task_status_is(s)).len()
}

/// Task statistics.
pub struct TaskStats {
    pub total: usize,
    pub todo: usize,
    pub in_progress: usize,
    pub done: usize,
    pub cancelled: usize,
    pub by_priority: StrMap,
}

/// The store.
pub struct Storage {
    data_dir: String,
    data: AppData,
}

/// Tasks with id `id`.
pub open spec fn task_id_is(id: u32) -> spec_fn(Task) -> bool {
    |t: Task| t.id == id
}

/// Tasks whose id is not `id`.
pub open spec fn task_id_is_not(id: u32) -> spec_fn(Task) -> bool {
    |t: Task| t.id != id
}

/// Tasks not owned by user `id`.
pub open spec fn task_owner_is_not(id: u32) -> spec_fn(Task) -> bool {
    |t: Task| t.user_id != id
}

/// Users whose id is not `id`.
pub open spec fn user_id_is_not(id: u32) -> spec_fn(User) -> bool {
    |u: User| u.id != id
}

/// Users named `name`.
pub open spec fn user_named(name: Seq<char>) -> spec_fn(User) -> bool {
    |u: User| u.name@ == name
}

/// Tasks owned by user `id`.
pub open spec fn task_owner_is(id: u32) -> spec_fn(Task) -> bool {
    |t: Task| t.user_id == id
}

/// Tasks with status `st`.
pub open spec fn task_status_is(st: Status) -> spec_fn(Task) -> bool {
    |t: Task| t.status == st
}

/// Tasks carrying tag `tag`.
pub open spec fn task_tagged(tag: Seq<char>) -> spec_fn(Task) -> bool {
    |t: Task| views(t.tags@).contains(tag)
}

/// Tasks matching `keyword` (see `task_matches`).
pub open spec fn task_matching(keyword: Seq<char>) -> spec_fn(Task) -> bool {
    |t: Task| task_matches(t, keyword)
}

/// The tasks a sequence of references points to.
pub open spec fn derefs(v: Seq<&Task>) -> Seq<Task> {
    v.map_values(|t: &Task| *t)
}

/// Position of the first element satisfying `p`, if any.
pub open spec fn first_where<A>(s: Seq<A>, p: spec_fn(A) -> bool) -> Option<int> {
    if exists|i: int| 0 <= i < s.len() && p(s[i]) && forall|j: int| 0 <= j < i ==> !p(s[j]) {
        Some(choose|i: int| 0 <= i < s.len() && p(s[i]) && forall|j: int| 0 <= j < i ==> !p(s[j]))
    } else {
        None
    }
}

proof fn lemma_first_where<A>(s: Seq<A>, p: spec_fn(A) -> bool, i: int)
    requires
        0 <= i < s.len(),
        p(s[i]),
        forall|j: int| 0 <= j < i ==> !p(s[j]),
    ensures
        first_where(s, p) == Some(i),
{
    let w = choose|k: int| 0 <= k < s.len() && p(s[k]) && forall|j: int| 0 <= j < k ==> !p(s[j]);
    assert(0 <= i < s.len() && p(s[i]) && forall|j: int| 0 <= j < i ==> !p(s[j]));
    if w < i {
        assert(!p(s[w]));
    } else if w > i {
        assert(!p(s[i]));
    }
}

/// One step of a filter: the filter of a longer prefix.
pub proof fn lemma_filter_step<A>(s: Seq<A>, p: spec_fn(A) -> bool, i: int)
    requires
        0 <= i < s.len(),
    ensures
        s.take(i + 1).filter(p) == if p(s[i]) {
            s.take(i).filter(p).push(s[i])
        } else {
            s.take(i).filter(p)
        },
{
    reveal_with_fuel(Seq::filter, 1);
    assert(s.take(i + 1).drop_last() =~= s.take(i));
}

/// Keeps the users whose id is not `id`, in order.
fn remove_users(users: &mut Vec<User>, id: u32)
    ensures
        final(users)@ == old(users)@.filter(user_id_is_not(id)),
{
    let ghost orig = users@;
    let mut rest: Vec<User> = Vec::new();
    std::mem::swap(users, &mut rest);
    let ghost p = user_id_is_not(id);
    let mut k: usize = 0;
    let n = rest.len();
    while rest.len() > 0
        invariant
            n == orig.len(),
            k + rest@.len() == n,
            rest@ == orig.skip(k as int),
            users@ == orig.take(k as int).filter(p),
            p == user_id_is_not(id),
        decreases rest@.len(),
    {
        let u = rest.remove(0);
        proof {
            lemma_filter_step(orig, p, k as int);
            assert(u == orig[k as int]);
        }
        if u.id != id {
            users.push(u);
        }
        assert(rest@ =~= orig.skip(k + 1));
        k += 1;
    }
    assert(orig.take(n as int) =~= orig);
}

/// Keeps the tasks not satisfying the removal rule, in order: with
/// `by_owner`, tasks not owned by `id`; else tasks whose id is not `id`.
fn remove_tasks(tasks: &mut Vec<Task>, id: u32, by_owner: bool)
    ensures
        by_owner ==> final(tasks)@ == old(tasks)@.filter(task_owner_is_not(id)),
        !by_owner ==> final(tasks)@ == old(tasks)@.filter(task_id_is_not(id)),
{
    let ghost orig = tasks@;
    let mut rest: Vec<Task> = Vec::new();
    std::mem::swap(tasks, &mut rest);
    let ghost p = if by_owner {
        task_owner_is_not(id)
    } else {
        task_id_is_not(id)
    };
    let mut k: usize = 0;
    let n = rest.len();
    while rest.len() > 0
        invariant
            n == orig.len(),
            k + rest@.len() == n,
            rest@ == orig.skip(k as int),
            tasks@ == orig.take(k as int).filter(p),
            p == (if by_owner {
                task_owner_is_not(id)
            } else {
                task_id_is_not(id)
            }),
        decreases rest@.len(),
    {
        let t = rest.remove(0);
        proof {
            lemma_filter_step(orig, p, k as int);
            assert(t == orig[k as int]);
        }
        let keep = if by_owner {
            t.user_id != id
        } else {
            t.id != id
        };
        if keep {
            tasks.push(t);
        }
        assert(rest@ =~= orig.skip(k + 1));
        k += 1;
    }
    assert(orig.take(n as int) =~= orig);
}

impl Storage {
    /// The data directory.
    pub closed spec fn dir_view(&self) -> Seq<char> {
        self.data_dir@
    }

    /// The users.
    pub closed spec fn users(&self) -> Seq<User> {
        self.data.users@
    }

    /// The tasks.
    pub closed spec fn tasks(&self) -> Seq<Task> {
        self.data.tasks@
    }

    /// The next user id.
    pub closed spec fn next_user(&self) -> u32 {
        self.data.next_user_id
    }

    /// The next task id.
    pub closed spec fn next_task(&self) -> u32 {
        self.data.next_task_id
    }

    /// A store over data read from `data_dir`.
    pub fn from_data(data_dir: String, data: AppData) -> (r: Self)
        ensures
            r.dir_view() == data_dir@,
            r.users() == data.users@,
            r.tasks() == data.tasks@,
            r.next_user() == data.next_user_id,
            r.next_task() == data.next_task_id,
    {
        Storage { data_dir, data }
    }

    /// The data directory.
    pub fn data_dir(&self) -> (r: &str)
        ensures
            r@ == self.dir_view(),
    {
        self.data_dir.as_str()
    }

    /// The data, to be written out.
    pub fn data(&self) -> (r: &AppData)
        ensures
            r.users@ == self.users(),
            r.tasks@ == self.tasks(),
            r.next_user_id == self.next_user(),
            r.next_task_id == self.next_task(),
    {
        &self.data
    }

    /// All users.
    pub fn get_users(&self) -> (r: &[User])
        ensures
            r@ == self.users(),
    {
        self.data.users.as_slice()
    }

    /// Adds a user named `name` with the next user id, and returns it.
    pub fn add_user(&mut self, name: String) -> (r: User)
        requires
            old(self).next_user() < u32::MAX,
        ensures
            r.id == old(self).next_user(),
            r.name@ == name@,
            final(self).next_user() == old(self).next_user() + 1,
            final(self).users().len() == old(self).users().len() + 1,
            final(self).users().drop_last() == old(self).users(),
            same_user(final(self).users().last(), r),
            final(self).tasks() == old(self).tasks(),
            final(self).next_task() == old(self).next_task(),
            final(self).dir_view() == old(self).dir_view(),
    {
        let user = User::new(self.data.next_user_id, name);
        self.data.next_user_id = self.data.next_user_id + 1;
        self.data.users.push(user.duplicate());
        assert(self.users().drop_last() =~= old(self).users());
        user
    }

    /// Removes user `id` and all of its tasks.
    pub fn delete_user(&mut self, id: u32)
        ensures
            final(self).users() == old(self).users().filter(user_id_is_not(id)),
            final(self).tasks() == old(self).tasks().filter(task_owner_is_not(id)),
            final(self).next_user() == old(self).next_user(),
            final(self).next_task() == old(self).next_task(),
            final(self).dir_view() == old(self).dir_view(),
    {
        remove_users(&mut self.data.users, id);
        remove_tasks(&mut self.data.tasks, id, true);
    }

    /// The id of the first user named `name`.
    pub fn get_user_id(&self, name: &str) -> (r: Option<u32>)
        ensures
            match first_where(self.users(), user_named(name@)) {
                Some(i) => r == Some(self.users()[i].id),
                None => r is None,
            },
    {
        let ghost p = user_named(name@);
        let mut i: usize = 0;
        while i < self.data.users.len()
            invariant
                i <= self.users().len(),
                self.users() == self.data.users@,
                p == user_named(name@),
                forall|j: int| 0 <= j < i ==> !p(self.users()[j]),
            decreases self.data.users.len() - i,
        {
            if str_eq(self.data.users[i].name.as_str(), name) {
                proof {
                    lemma_first_where(self.users(), p, i as int);
                }
                return Some(self.data.users[i].id);
            }
            i += 1;
        }
        None
    }

    /// All tasks.
    pub fn get_tasks(&self) -> (r: &[Task])
        ensures
            r@ == self.tasks(),
    {
        self.data.tasks.as_slice()
    }

    /// The first task with id `id`.
    pub fn get_task(&self, id: u32) -> (r: Option<&Task>)
        ensures
            match first_where(self.tasks(), task_id_is(id)) {
                Some(i) => r == Some(&self.tasks()[i]),
                None => r is None,
            },
    {
        match self.find_task(id) {
            Some(i) => Some(&self.data.tasks[i]),
            None => None,
        }
    }

    /// Position of the first task with id `id`.
    fn find_task(&self, id: u32) -> (r: Option<usize>)
        ensures
            match first_where(self.tasks(), task_id_is(id)) {
                Some(i) => r is Some && r->0 as int == i && i < self.tasks().len(),
                None => r is None,
            },
            r matches Some(i) ==> i < self.tasks().len(),
    {
        let ghost p = task_id_is(id);
        let mut i: usize = 0;
        while i < self.data.tasks.len()
            invariant
                i <= self.tasks().len(),
                self.tasks() == self.data.tasks@,
                p == task_id_is(id),
                forall|j: int| 0 <= j < i ==> !p(self.tasks()[j]),
            decreases self.data.tasks.len() - i,
        {
            if self.data.tasks[i].id == id {
                proof {
                    lemma_first_where(self.tasks(), p, i as int);
                }
                return Some(i);
            }
            i += 1;
        }
        None
    }

    /// Adds `task` under the next task id, and returns it as stored.
    pub fn add_task(&mut self, task: Task) -> (r: Task)
        requires
            old(self).next_task() < u32::MAX,
        ensures
            r.id == old(self).next_task(),
            same_task(r, Task { id: r.id, ..task }),
            final(self).next_task() == old(self).next_task() + 1,
            final(self).tasks().len() == old(self).tasks().len() + 1,
            final(self).tasks().drop_last() == old(self).tasks(),
            same_task(final(self).tasks().last(), r),
            final(self).users() == old(self).users(),
            final(self).next_user() == old(self).next_user(),
            final(self).dir_view() == old(self).dir_view(),
    {
        let id = self.data.next_task_id;
        let mut task = task;
        task.id = id;
        self.data.next_task_id = self.data.next_task_id + 1;
        self.data.tasks.push(task.duplicate());
        assert(self.tasks().drop_last() =~= old(self).tasks());
        task
    }

    /// Replaces the first task with `task`'s id by `task`; refused when no
    /// task has that id.
    pub fn update_task(&mut self, task: Task) -> (r: Result<(), String>)
        ensures
            match first_where(old(self).tasks(), task_id_is(task.id)) {
                Some(i) => r is Ok && final(self).tasks() == old(self).tasks().update(i, task),
                None => r matches Err(m) && m@ == "Task not found"@ && final(self).tasks()
                    == old(self).tasks(),
            },
            final(self).users() == old(self).users(),
            final(self).next_user() == old(self).next_user(),
            final(self).next_task() == old(self).next_task(),
            final(self).dir_view() == old(self).dir_view(),
    {
        match self.find_task(task.id) {
            Some(i) => {
                self.data.tasks.set(i, task);
                Ok(())
            },
            None => Err("Task not found".to_string()),
        }
    }

    /// Removes every task with id `id`.
    pub fn delete_task(&mut self, id: u32)
        ensures
            final(self).tasks() == old(self).tasks().filter(task_id_is_not(id)),
            final(self).users() == old(self).users(),
            final(self).next_user() == old(self).next_user(),
            final(self).next_task() == old(self).next_task(),
            final(self).dir_view() == old(self).dir_view(),
    {
        remove_tasks(&mut self.data.tasks, id, false);
    }
}

/// References to the tasks whose flag is set, in order.
fn refs_where<'a>(tasks: &'a Vec<Task>, keep: &Vec<bool>, Ghost(p): Ghost<spec_fn(Task) -> bool>) -> (r: Vec<&'a Task>)
    requires
        keep@.len() == tasks@.len(),
        forall|i: int| 0 <= i < tasks@.len() ==> keep@[i] == p(#[trigger] tasks@[i]),
    ensures
        derefs(r@) == tasks@.filter(p),
{
    let mut r: Vec<&'a Task> = Vec::new();
    let mut i: usize = 0;
    while i < tasks.len()
        invariant
            i <= tasks@.len(),
            keep@.len() == tasks@.len(),
            forall|j: int| 0 <= j < tasks@.len() ==> keep@[j] == p(#[trigger] tasks@[j]),
            derefs(r@) == tasks@.take(i as int).filter(p),
        decreases tasks.len() - i,
    {
        proof {
            lemma_filter_step(tasks@, p, i as int);
        }
        if keep[i] {
            let ghost prev = r@;
            r.push(&tasks[i]);
            assert(derefs(r@) =~= derefs(prev).push(tasks@[i as int]));
        }
        i += 1;
    }
    assert(tasks@.take(tasks@.len() as int) =~= tasks@);
    r
}

/// Counts per priority name (see `priority_counts`).
fn count_by_priority(tasks: &Vec<&Task>) -> (r: StrMap)
    ensures
        r.wf(),
        r@ == priority_counts(derefs(tasks@)),
{
    let mut counts = StrMap::new();
    let ghost ts = derefs(tasks@);
    let mut i: usize = 0;
    while i < tasks.len()
        invariant
            i <= tasks@.len(),
            ts == derefs(tasks@),
            counts.wf(),
            counts@ == priority_counts(ts.take(i as int)),
            forall|k: Seq<char>| #[trigger] counts@.contains_key(k) ==> counts@[k] <= i,
        decreases tasks.len() - i,
    {
        proof {
            assert(ts.take(i + 1).drop_last() =~= ts.take(i as int));
            assert(ts.take(i + 1).last() == *tasks@[i as int]);
        }
        let key = tasks[i].priority.as_str();
        let n = match counts.get(key) {
            Some(c) => c + 1,
            None => 1,
        };
        let ghost before = counts@;
        counts.insert(key.to_string(), n);
        assert forall|k: Seq<char>| #[trigger] counts@.contains_key(k) implies counts@[k] <= i + 1 by {
            if k != key@ {
                assert(before.contains_key(k));
            }
        }
        i += 1;
    }
    assert(ts.take(tasks@.len() as int) =~= ts);
    counts
}

/// Number of referenced tasks with a status.
fn count_with_status(tasks: &Vec<&Task>, st: Status) -> (r: usize)
    ensures
        r == count_status(derefs(tasks@), st),
{
    let ghost ts = derefs(tasks@);
    let ghost p = task_status_is(st);
    let mut n: usize = 0;
    let mut i: usize = 0;
    while i < tasks.len()
        invariant
            i <= tasks@.len(),
            ts == derefs(tasks@),
            p == task_status_is(st),
            n == ts.take(i as int).filter(p).len(),
            n <= i,
        decreases tasks.len() - i,
    {
        proof {
            lemma_filter_step(ts, p, i as int);
            assert(ts[i as int] == *tasks@[i as int]);
        }
        if tasks[i].status == st {
            n += 1;
        }
        i += 1;
    }
    assert(ts.take(tasks@.len() as int) =~= ts);
    n
}

/// The tasks statistics are taken over: those of one user, or all.
pub open spec fn stats_scope(ts: Seq<Task>, user_id: Option<u32>) -> Seq<Task> {
    match user_id {
        Some(id) => ts.filter(task_owner_is(id)),
        None => ts,
    }
}

impl Storage {
    /// The tasks of user `user_id`, in order.
    pub fn get_tasks_by_user(&self, user_id: u32) -> (r: Vec<&Task>)
        ensures
            derefs(r@) == self.tasks().filter(task_owner_is(user_id)),
    {
        let mut keep: Vec<bool> = Vec::new();
        let mut i: usize = 0;
        while i < self.data.tasks.len()
            invariant
                i <= self.tasks().len(),
                self.tasks() == self.data.tasks@,
                keep@.len() == i,
                forall|j: int| 0 <= j < i ==> keep@[j] == task_owner_is(user_id)(#[trigger] self.tasks()[j]),
            decreases self.data.tasks.len() - i,
        {
            keep.push(self.data.tasks[i].user_id == user_id);
            i += 1;
        }
        refs_where(&self.data.tasks, &keep, Ghost(task_owner_is(user_id)))
    }

    /// The tasks with status `status`, in order.
    pub fn get_tasks_by_status(&self, status: Status) -> (r: Vec<&Task>)
        ensures
            derefs(r@) == self.tasks().filter(task_status_is(status)),
    {
        let mut keep: Vec<bool> = Vec::new();
        let mut i: usize = 0;
        while i < self.data.tasks.len()
            invariant
                i <= self.tasks().len(),
                self.tasks() == self.data.tasks@,
                keep@.len() == i,
                forall|j: int| 0 <= j < i ==> keep@[j] == task_status_is(status)(#[trigger] self.tasks()[j]),
            decreases self.data.tasks.len() - i,
        {
            keep.push(self.data.tasks[i].status == status);
            i += 1;
        }
        refs_where(&self.data.tasks, &keep, Ghost(task_status_is(status)))
    }

    /// The tasks carrying tag `tag`, in order.
    pub fn get_tasks_by_tag(&self, tag: &str) -> (r: Vec<&Task>)
        ensures
            derefs(r@) == self.tasks().filter(task_tagged(tag@)),
    {
        let mut keep: Vec<bool> = Vec::new();
        let mut i: usize = 0;
        while i < self.data.tasks.len()
            invariant
                i <= self.tasks().len(),
                self.tasks() == self.data.tasks@,
                keep@.len() == i,
                forall|j: int| 0 <= j < i ==> keep@[j] == task_tagged(tag@)(#[trigger] self.tasks()[j]),
            decreases self.data.tasks.len() - i,
        {
            keep.push(self.data.tasks[i].has_tag(tag));
            i += 1;
        }
        refs_where(&self.data.tasks, &keep, Ghost(task_tagged(tag@)))
    }

    /// The tasks matching `keyword` (see `Task::matches`), in order.
    pub fn search_tasks(&self, keyword: &str) -> (r: Vec<&Task>)
        ensures
            derefs(r@) == self.tasks().filter(task_matching(keyword@)),
    {
        let mut keep: Vec<bool> = Vec::new();
        let mut i: usize = 0;
        while i < self.data.tasks.len()
            invariant
                i <= self.tasks().len(),
                self.tasks() == self.data.tasks@,
                keep@.len() == i,
                forall|j: int| 0 <= j < i ==> keep@[j] == task_matching(keyword@)(#[trigger] self.tasks()[j]),
            decreases self.data.tasks.len() - i,
        {
            keep.push(self.data.tasks[i].matches(keyword));
            i += 1;
        }
        refs_where(&self.data.tasks, &keep, Ghost(task_matching(keyword@)))
    }

    /// Statistics over the tasks of user `user_id`, or over all tasks:
    /// their number, the number in each status, and the number per
    /// priority name (names without tasks absent).
    pub fn get_stats(&self, user_id: Option<u32>) -> (r: TaskStats)
        ensures
            r.total == stats_scope(self.tasks(), user_id).len(),
            r.todo == count_status(stats_scope(self.tasks(), user_id), Status::Todo),
            r.in_progress == count_status(stats_scope(self.tasks(), user_id), Status::InProgress),
            r.done == count_status(stats_scope(self.tasks(), user_id), Status::Done),
            r.cancelled == count_status(stats_scope(self.tasks(), user_id), Status::Cancelled),
            r.by_priority.wf(),
            r.by_priority@ == priority_counts(stats_scope(self.tasks(), user_id)),
    {
        let tasks: Vec<&Task> = match user_id {
            Some(id) => self.get_tasks_by_user(id),
            None => {
                let mut keep: Vec<bool> = Vec::new();
                let mut i: usize = 0;
                while i < self.data.tasks.len()
                    invariant
                        i <= self.tasks().len(),
                        self.tasks() == self.data.tasks@,
                        keep@.len() == i,
                        forall|j: int| 0 <= j < i ==> keep@[j] == (|t: Task| true)(#[trigger] self.tasks()[j]),
                    decreases self.data.tasks.len() - i,
                {
                    keep.push(true);
                    i += 1;
                }
                let all = refs_where(&self.data.tasks, &keep, Ghost(|t: Task| true));
                proof {
                    let ts = self.tasks();
                    assert(ts.filter(|t: Task| true) =~= ts) by {
                        ts.filter_lemma(|t: Task| true);
                        lemma_filter_all(ts);
                    }
                }
                all
            },
        };
        TaskStats {
            total: tasks.len(),
            todo: count_with_status(&tasks, Status::Todo),
            in_progress: count_with_status(&tasks, Status::InProgress),
            done: count_with_status(&tasks, Status::Done),
            cancelled: count_with_status(&tasks, Status::Cancelled),
            by_priority: count_by_priority(&tasks),
        }
    }
}

/// Filtering with a predicate that holds everywhere keeps everything.
pub proof fn lemma_filter_all(ts: Seq<Task>)
    ensures
        ts.filter(|t: Task| true) == ts,
    decreases ts.len(),
{
    reveal_with_fuel(Seq::filter, 1);
    if ts.len() > 0 {
        lemma_filter_all(ts.drop_last());
        assert(ts.drop_last().push(ts.last()) =~= ts);
    }
}

/// Every task has exactly one status, so the counts per status add up to
/// the number of tasks.
pub proof fn lemma_status_counts_add_up(ts: Seq<Task>)
    ensures
        count_status(ts, Status::Todo) + count_status(ts, Status::InProgress) + count_status(
            ts,
            Status::Done,
        ) + count_status(ts, Status::Cancelled) == ts.len(),
    decreases ts.len(),
{
    if ts.len() > 0 {
        let p = ts.drop_last();
        lemma_status_counts_add_up(p);
        assert(ts.take(ts.len() - 1) =~= p);
        assert(ts.take(ts.len() as int) =~= ts);
        lemma_filter_step(ts, task_status_is(Status::Todo), ts.len() - 1);
        lemma_filter_step(ts, task_status_is(Status::InProgress), ts.len() - 1);
        lemma_filter_step(ts, task_status_is(Status::Done), ts.len() - 1);
        lemma_filter_step(ts, task_status_is(Status::Cancelled), ts.len() - 1);
    }
}

/// The count recorded for a priority name, 0 when absent.
pub open spec fn count_or_zero(m: Map<Seq<char>, usize>, k: Seq<char>) -> int {
    if m.contains_key(k) {
        m[k] as int
    } else {
        0
    }
}

/// Every task is counted under exactly one priority name, so the counts
/// per priority add up to the number of tasks.
pub proof fn lemma_priority_counts_add_up(ts: Seq<Task>)
    requires
        ts.len() <= usize::MAX,
    ensures
        count_or_zero(priority_counts(ts), "low"@) + count_or_zero(priority_counts(ts), "medium"@)
            + count_or_zero(priority_counts(ts), "high"@) + count_or_zero(
            priority_counts(ts),
            "urgent"@,
        ) == ts.len(),
        forall|k: Seq<char>| #[trigger] priority_counts(ts).contains_key(k) ==> priority_counts(ts)[k] <= ts.len(),
    decreases ts.len(),
{
    if ts.len() > 0 {
        let p = ts.drop_last();
        lemma_priority_counts_add_up(p);
        reveal_strlit("low");
        reveal_strlit("medium");
        reveal_strlit("high");
        reveal_strlit("urgent");
        let m = priority_counts(p);
        let k = crate::tasks::model::priority_name(ts.last().priority);
        assert(k == "low"@ || k == "medium"@ || k == "high"@ || k == "urgent"@);
        if m.contains_key(k) {
            assert(m[k] + 1 <= usize::MAX);
        }
        assert("low"@.len() == 3 && "medium"@.len() == 6 && "high"@.len() == 4 && "urgent"@.len() == 6);
        assert("medium"@[0] != "urgent"@[0]);
    }
}

/// A task added with an id above every stored id is the one found under
/// that id, and every id stays below the next one.
pub proof fn lemma_added_task_found(ts: Seq<Task>, t: Task, next: u32)
    requires
        forall|i: int| 0 <= i < ts.len() ==> (#[trigger] ts[i]).id < next,
        t.id == next,
        next < u32::MAX,
    ensures
        first_where(ts.push(t), task_id_is(next)) == Some(ts.len() as int),
        forall|i: int| 0 <= i < ts.push(t).len() ==> (#[trigger] ts.push(t)[i]).id < next + 1,
{
    let s = ts.push(t);
    assert forall|j: int| 0 <= j < ts.len() implies !task_id_is(next)(s[j]) by {
        assert(s[j] == ts[j]);
    }
    lemma_first_where(s, task_id_is(next), ts.len() as int);
    assert forall|i: int| 0 <= i < s.len() implies (#[trigger] s[i]).id < next + 1 by {
        if i < ts.len() {
            assert(s[i] == ts[i]);
        }
    }
}

/// After deleting the tasks with id `id`, none is found under it.
pub proof fn lemma_deleted_task_gone(ts: Seq<Task>, id: u32)
    ensures
        first_where(ts.filter(task_id_is_not(id)), task_id_is(id)) is None,
        forall|i: int| 0 <= i < ts.filter(task_id_is_not(id)).len() ==> (#[trigger] ts.filter(task_id_is_not(id))[i]).id != id,
{
    ts.filter_lemma(task_id_is_not(id));
}

/// After deleting user `id`, neither the user nor any of its tasks is left.
pub proof fn lemma_deleted_user_gone(us: Seq<User>, ts: Seq<Task>, id: u32)
    ensures
        forall|i: int| 0 <= i < us.filter(user_id_is_not(id)).len() ==> (#[trigger] us.filter(user_id_is_not(id))[i]).id != id,
        forall|i: int| 0 <= i < ts.filter(task_owner_is_not(id)).len() ==> (#[trigger] ts.filter(task_owner_is_not(id))[i]).user_id != id,
{
    us.filter_lemma(user_id_is_not(id));
    ts.filter_lemma(task_owner_is_not(id));
}

} // verus!
