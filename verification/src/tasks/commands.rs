//! What the task manager's commands decide: which user and tasks they act
//! on, what they change, and what a listing shows in which order.  Printing
//! results and saving the store is the caller's part.
use vstd::prelude::*;
use vstd::utf8::{encode_utf8, is_char_boundary};
use vstd::string::StringSliceAdditionalSpecFns;
use crate::tasks::model::{
    Task, Status, Priority, Timestamp, at_or_after, is_at_or_after, opt_view, same_task,
};
use crate::tasks::storage::{
    Storage, TaskStats, first_where, user_named, task_id_is, task_owner_is, task_status_is,
    task_tagged, derefs, stats_scope, count_status, priority_counts,
};
use crate::text::{
    views, to_chars, trim, trim_of, string_of, concat_strings, decimal_digits, decimal_string,
};

verus! {

/// What the `user` command does.
#[derive(Debug)]
pub enum UserAction {
    /// Adds a user.
    Add { name: String },
    /// Lists the users.
    List,
    /// Deletes a user and its tasks.
    Delete { id: u32 },
}

/// Left-to-right scan behind splitting at commas: the pieces completed so
/// far and the piece being read.
pub open spec fn comma_scan(s: Seq<char>) -> (Seq<Seq<char>>, Seq<char>)
    decreases s.len(),
{
    if s.len() == 0 {
        (seq![], seq![])
    } else {
        let (done, cur) = comma_scan(s.drop_last());
        if s.last() == ',' {
            (done.push(cur), seq![])
        } else {
            (done, cur.push(s.last()))
        }
    }
}

/// The pieces of `s` between commas (one more than there are commas).
pub open spec fn split_commas(s: Seq<char>) -> Seq<Seq<char>> {
    let (done, cur) = comma_scan(s);
    done.push(cur)
}

/// Tags written as a comma-separated list: each piece, trimmed.
pub open spec fn tags_of(s: Seq<char>) -> Seq<Seq<char>> {
    split_commas(s).map_values(|p: Seq<char>| trim_of(p))
}

/// The tags of a comma-separated list, each trimmed.
pub fn parse_tags(tags: &str) -> (r: Vec<String>)
    ensures
        views(r@) == tags_of(tags@),
{
    let cs = to_chars(tags);
    let mut pieces: Vec<String> = Vec::new();
    let mut cur: Vec<char> = Vec::new();
    let mut i: usize = 0;
    while i < cs.len()
        invariant
            cs@ == tags@,
            i <= cs@.len(),
            views(pieces@) == comma_scan(cs@.take(i as int)).0.map_values(|p: Seq<char>| trim_of(p)),
            cur@ == comma_scan(cs@.take(i as int)).1,
        decreases cs.len() - i,
    {
        assert(cs@.take(i + 1).drop_last() =~= cs@.take(i as int));
        let c = cs[i];
        if c == ',' {
            let t = string_of(trim(cur.as_slice()).as_slice());
            let ghost prev = views(pieces@);
            pieces.push(t);
            assert(views(pieces@) =~= prev.push(trim_of(cur@)));
            assert(views(pieces@) =~= comma_scan(cs@.take(i + 1)).0.map_values(
                |p: Seq<char>| trim_of(p),
            ));
            cur = Vec::new();
        } else {
            cur.push(c);
        }
        i += 1;
    }
    assert(cs@.take(cs@.len() as int) =~= cs@);
    let t = string_of(trim(cur.as_slice()).as_slice());
    let ghost prev = views(pieces@);
    pieces.push(t);
    assert(views(pieces@) =~= prev.push(trim_of(cur@)));
    assert(views(pieces@) =~= tags_of(tags@));
    pieces
}

/// The characters of an optional string slice.
pub open spec fn opt_str_view(s: Option<&str>) -> Option<Seq<char>> {
    match s {
        Some(x) => Some(x@),
        None => None,
    }
}

/// Adds a task for the user named `user_name`: the given title, priority
/// and description, the tags of the comma-separated list `tags`, to do,
/// created now.  Refused when no user has that name.
pub fn add_task(
    storage: &mut Storage,
    title: &str,
    description: Option<&str>,
    priority: Priority,
    tags: Option<&str>,
    user_name: &str,
) -> (r: Result<Task, String>)
    requires
        old(storage).next_task() < u32::MAX,
    ensures
        match first_where(old(storage).users(), user_named(user_name@)) {
            None => r matches Err(m) && m@ == "User not found: "@ + user_name@ && *final(storage)
                == *old(storage),
            Some(i) => r matches Ok(t) && {
                &&& t.id == old(storage).next_task()
                &&& t.title@ == title@
                &&& opt_view(t.description) == opt_str_view(description)
                &&& t.priority == priority
                &&& t.status == Status::Todo
                &&& views(t.tags@) == match tags {
                    Some(s) => tags_of(s@),
                    None => Seq::<Seq<char>>::empty(),
                }
                &&& t.updated_at == t.created_at
                &&& t.user_id == old(storage).users()[i].id
                &&& final(storage).tasks() == old(storage).tasks().push(final(storage).tasks().last())
                &&& same_task(final(storage).tasks().last(), t)
                &&& final(storage).users() == old(storage).users()
                &&& final(storage).next_task() == old(storage).next_task() + 1
                &&& final(storage).next_user() == old(storage).next_user()
            },
        },
{
    let user_id = match storage.get_user_id(user_name) {
        Some(id) => id,
        None => return Err(concat_strings("User not found: ", user_name)),
    };
    let tag_list: Vec<String> = match tags {
        Some(t) => parse_tags(t),
        None => Vec::new(),
    };
    let mut task = Task::new(0, title.to_string(), user_id);
    task.priority = priority;
    if let Some(desc) = description {
        task.description = Some(desc.to_string());
    }
    if tag_list.len() > 0 {
        task.tags = tag_list;
    } else {
        assert(views(tag_list@) =~= views(task.tags@));
    }
    let ghost before = storage.tasks();
    let added = storage.add_task(task);
    assert(storage.tasks() =~= before.push(storage.tasks().last()));
    Ok(added)
}

/// The task as `modify_task` leaves it: the given status, priority and
/// title where given; the rest as it was, but for the update time.
pub open spec fn modified(
    old_task: Task,
    new_task: Task,
    status: Option<Status>,
    priority: Option<Priority>,
    title: Option<Seq<char>>,
) -> bool {
    &&& new_task.id == old_task.id
    &&& new_task.title@ == match title {
        Some(t) => t,
        None => old_task.title@,
    }
    &&& opt_view(new_task.description) == opt_view(old_task.description)
    &&& new_task.priority == match priority {
        Some(p) => p,
        None => old_task.priority,
    }
    &&& new_task.status == match status {
        Some(s) => s,
        None => old_task.status,
    }
    &&& views(new_task.tags@) == views(old_task.tags@)
    &&& new_task.created_at == old_task.created_at
    &&& (status is None && priority is None && title is None ==> new_task.updated_at
        == old_task.updated_at)
    &&& new_task.user_id == old_task.user_id
}

/// Changes status, priority and title of the first task with id `id`
/// (each where given; each change stamps the update time).  Refused when
/// no task has that id.
pub fn modify_task(
    storage: &mut Storage,
    id: u32,
    status: Option<Status>,
    priority: Option<Priority>,
    title: Option<&str>,
) -> (r: Result<(), String>)
    ensures
        match first_where(old(storage).tasks(), task_id_is(id)) {
            None => r matches Err(m) && m@ == "Task not found: "@ + decimal_digits(id as nat)
                && *final(storage) == *old(storage),
            Some(i) => r is Ok && final(storage).tasks().len() == old(storage).tasks().len()
                && (forall|j: int|
                0 <= j < old(storage).tasks().len() && j != i ==> final(storage).tasks()[j]
                    == old(storage).tasks()[j]) && modified(
                old(storage).tasks()[i],
                final(storage).tasks()[i],
                status,
                priority,
                opt_str_view(title),
            ),
        },
        final(storage).users() == old(storage).users(),
        final(storage).next_task() == old(storage).next_task(),
        final(storage).next_user() == old(storage).next_user(),
{
    let found = storage.get_task(id);
    proof {
        if found is Some {
            let i = first_where(storage.tasks(), task_id_is(id))->0;
            assert(first_where(storage.tasks(), task_id_is(id)) is Some);
            assert(task_id_is(id)(storage.tasks()[i]));
        }
    }
    let mut task = match found {
        Some(t) => t.duplicate(),
        None => {
            let digits = decimal_string(id);
            return Err(concat_strings("Task not found: ", digits.as_str()));
        },
    };
    let ghost given = task;
    if let Some(s) = status {
        task.update_status(s);
    }
    if let Some(p) = priority {
        task.update_priority(p);
    }
    if let Some(t) = title {
        task.update_title(t.to_string());
    }
    let ghost updated = task;
    proof {
        let i = first_where(old(storage).tasks(), task_id_is(id))->0;
        assert(task_id_is(id)(old(storage).tasks()[i]));
        assert(given.id == id);
        assert(updated.id == id);
    }
    let res = storage.update_task(task);
    proof {
        let i = first_where(old(storage).tasks(), task_id_is(id))->0;
        assert(storage.tasks() == old(storage).tasks().update(i, updated));
        assert(storage.tasks()[i] == updated);
    }
    res
}

/// Deletes the tasks with id `id`; returns whether there was one.
pub fn delete_task(storage: &mut Storage, id: u32) -> (r: bool)
    ensures
        r == (first_where(old(storage).tasks(), task_id_is(id)) is Some),
        r ==> final(storage).tasks() == old(storage).tasks().filter(
            crate::tasks::storage::task_id_is_not(id),
        ),
        !r ==> *final(storage) == *old(storage),
        final(storage).users() == old(storage).users(),
        final(storage).next_task() == old(storage).next_task(),
        final(storage).next_user() == old(storage).next_user(),
{
    if storage.get_task(id).is_none() {
        return false;
    }
    storage.delete_task(id);
    true
}

/// The id of the user named `user`, when a name is given and known.
pub open spec fn user_id_of(s: &Storage, user: Option<&str>) -> Option<u32> {
    match user {
        Some(name) => match first_where(s.users(), user_named(name@)) {
            Some(i) => Some(s.users()[i].id),
            None => None,
        },
        None => None,
    }
}

/// Statistics for the user named `user` (all tasks when no name is given
/// or the name is unknown).
pub fn show_stats(storage: &Storage, user: Option<&str>) -> (r: TaskStats)
    ensures
        r.total == stats_scope(storage.tasks(), user_id_of(storage, user)).len(),
        r.todo == count_status(stats_scope(storage.tasks(), user_id_of(storage, user)), Status::Todo),
        r.in_progress == count_status(
            stats_scope(storage.tasks(), user_id_of(storage, user)),
            Status::InProgress,
        ),
        r.done == count_status(stats_scope(storage.tasks(), user_id_of(storage, user)), Status::Done),
        r.cancelled == count_status(
            stats_scope(storage.tasks(), user_id_of(storage, user)),
            Status::Cancelled,
        ),
        r.by_priority.wf(),
        r.by_priority@ == priority_counts(stats_scope(storage.tasks(), user_id_of(storage, user))),
{
    let user_id = match user {
        Some(name) => storage.get_user_id(name),
        None => None,
    };
    storage.get_stats(user_id)
}

/// The tasks a listing keeps: those of the named user (when the name is
/// known), with the status and tag asked for.
pub open spec fn listed(
    ts: Seq<Task>,
    user_id: Option<u32>,
    status: Option<Status>,
    tag: Option<Seq<char>>,
) -> Seq<Task> {
    let by_user = match user_id {
        Some(id) => ts.filter(task_owner_is(id)),
        None => ts,
    };
    let by_status = match status {
        Some(s) => by_user.filter(task_status_is(s)),
        None => by_user,
    };
    match tag {
        Some(t) => by_status.filter(task_tagged(t)),
        None => by_status,
    }
}

/// `output` is `input` reordered newest first, tasks created at the same
/// time keeping their order: `src` says where each output task was.
pub open spec fn newest_first_by(input: Seq<Task>, output: Seq<Task>, src: Seq<int>) -> bool {
    &&& output.len() == input.len()
    &&& src.len() == output.len()
    &&& forall|a: int| 0 <= a < output.len() ==> 0 <= #[trigger] src[a] < input.len() && output[a]
        == input[src[a]]
    &&& forall|a: int, b: int| 0 <= a < b < output.len() ==> #[trigger] src[a] != #[trigger] src[b]
    &&& forall|a: int, b: int|
        0 <= a < b < output.len() ==> at_or_after(
            (#[trigger] output[a]).created_at,
            (#[trigger] output[b]).created_at,
        )
    &&& forall|a: int, b: int|
        0 <= a < b < output.len() && (#[trigger] output[a]).created_at == (
        #[trigger] output[b]).created_at ==> src[a] < src[b]
}

/// A stable sort of `input` by creation time, newest first.
pub open spec fn sorted_newest_first(input: Seq<Task>, output: Seq<Task>) -> bool {
    exists|src: Seq<int>| newest_first_by(input, output, src)
}

/// References sorted by creation time, newest first; equal times keep
/// their order.
fn sort_newest_first<'a>(v: &Vec<&'a Task>) -> (r: (Vec<&'a Task>, Ghost<Seq<int>>))
    ensures
        newest_first_by(derefs(v@), derefs(r.0@), r.1@),
{
    let ghost input = derefs(v@);
    let mut sorted: Vec<&'a Task> = Vec::new();
    let ghost mut src: Seq<int> = seq![];
    let mut q: usize = 0;
    assert(newest_first_by(input.take(0), derefs(sorted@), src));
    while q < v.len()
        invariant
            q <= v@.len(),
            input == derefs(v@),
            newest_first_by(input.take(q as int), derefs(sorted@), src),
        decreases v.len() - q,
    {
        let x = v[q];
        let mut pos: usize = 0;
        while pos < sorted.len() && is_at_or_after(sorted[pos].created_at, x.created_at)
            invariant
                pos <= sorted@.len(),
                forall|a: int| 0 <= a < pos ==> at_or_after((#[trigger] sorted@[a]).created_at, x.created_at),
            decreases sorted.len() - pos,
        {
            pos += 1;
        }
        let ghost old_s = derefs(sorted@);
        let ghost old_src = src;
        sorted.insert(pos, x);
        proof {
            assert(derefs(sorted@) =~= old_s.insert(pos as int, *x));
            assert(input.take(q + 1) =~= input.take(q as int).push(*x));
            lemma_insert_newest(input.take(q as int), old_s, old_src, pos as int, *x);
            src = old_src.insert(pos as int, q as int);
        }
        q += 1;
    }
    assert(input.take(v@.len() as int) =~= input);
    (sorted, Ghost(src))
}

/// Inserting the next input task after every task at or after its
/// creation time extends a stable newest-first order.
proof fn lemma_insert_newest(input: Seq<Task>, s: Seq<Task>, src: Seq<int>, pos: int, x: Task)
    requires
        newest_first_by(input, s, src),
        0 <= pos <= s.len(),
        forall|a: int| 0 <= a < pos ==> at_or_after((#[trigger] s[a]).created_at, x.created_at),
        pos < s.len() ==> !at_or_after(s[pos].created_at, x.created_at),
    ensures
        newest_first_by(input.push(x), s.insert(pos, x), src.insert(pos, input.len() as int)),
{
    let q = input.len() as int;
    let ns = s.insert(pos, x);
    let nsrc = src.insert(pos, q);
    s.insert_ensures(pos, x);
    src.insert_ensures(pos, q);
    assert forall|a: int| 0 <= a < ns.len() implies 0 <= #[trigger] nsrc[a] < q + 1 && ns[a]
        == input.push(x)[nsrc[a]] by {
        if a < pos {
            assert(nsrc[a] == src[a] && ns[a] == s[a]);
        } else if a > pos {
            assert(nsrc[a] == src[a - 1] && ns[a] == s[a - 1]);
        }
    }
    lemma_insert_newest_pairs(input, s, src, pos, x);
}

#[verifier::spinoff_prover]
proof fn lemma_insert_newest_pairs(input: Seq<Task>, s: Seq<Task>, src: Seq<int>, pos: int, x: Task)
    requires
        newest_first_by(input, s, src),
        0 <= pos <= s.len(),
        forall|a: int| 0 <= a < pos ==> at_or_after((#[trigger] s[a]).created_at, x.created_at),
        pos < s.len() ==> !at_or_after(s[pos].created_at, x.created_at),
    ensures
        ({
            let ns = s.insert(pos, x);
            let nsrc = src.insert(pos, input.len() as int);
            forall|a: int, b: int|
                0 <= a < b < ns.len() ==> #[trigger] nsrc[a] != #[trigger] nsrc[b] && at_or_after(
                    ns[a].created_at,
                    ns[b].created_at,
                ) && (ns[a].created_at == ns[b].created_at ==> nsrc[a] < nsrc[b])
        }),
{
    let q = input.len() as int;
    let ns = s.insert(pos, x);
    let nsrc = src.insert(pos, q);
    s.insert_ensures(pos, x);
    src.insert_ensures(pos, q);
    assert forall|a: int| pos <= a < s.len() implies !at_or_after((#[trigger] s[a]).created_at, x.created_at) by {
        if a > pos {
            assert(at_or_after(s[pos].created_at, s[a].created_at));
        }
    }
    assert forall|a: int, b: int| 0 <= a < b < ns.len() implies #[trigger] nsrc[a] != #[trigger] nsrc[b]
        && at_or_after(ns[a].created_at, ns[b].created_at) && (ns[a].created_at
        == ns[b].created_at ==> nsrc[a] < nsrc[b]) by {
        if b < pos {
            assert(ns[a] == s[a] && ns[b] == s[b]);
            assert(nsrc[a] == src[a] && nsrc[b] == src[b]);
        } else if b == pos {
            assert(ns[a] == s[a]);
            assert(nsrc[a] == src[a]);
        } else if a < pos {
            assert(ns[a] == s[a] && ns[b] == s[b - 1]);
            assert(nsrc[a] == src[a] && nsrc[b] == src[b - 1]);
            assert(at_or_after(s[a].created_at, x.created_at));
        } else if a == pos {
            assert(ns[b] == s[b - 1]);
            assert(nsrc[b] == src[b - 1]);
        } else {
            assert(ns[a] == s[a - 1] && ns[b] == s[b - 1]);
            assert(nsrc[a] == src[a - 1] && nsrc[b] == src[b - 1]);
        }
    }
}

/// The tasks a listing shows, newest first: those of the user named
/// `user` (all users when no name is given or the name is unknown), with
/// the status and tag asked for.
pub fn list_tasks<'a>(
    storage: &'a Storage,
    status: Option<Status>,
    tag: Option<&str>,
    user: Option<&str>,
) -> (r: Vec<&'a Task>)
    ensures
        sorted_newest_first(
            listed(storage.tasks(), user_id_of(storage, user), status, opt_str_view(tag)),
            derefs(r@),
        ),
{
    let user_id = match user {
        Some(name) => storage.get_user_id(name),
        None => None,
    };
    let all = storage.get_tasks();
    let mut kept: Vec<&'a Task> = Vec::new();
    let ghost lst = listed(storage.tasks(), user_id, status, opt_str_view(tag));
    proof {
        lemma_listed_is_filter(storage.tasks(), user_id, status, opt_str_view(tag));
    }
    let ghost p = list_filter(user_id, status, opt_str_view(tag));
    let mut i: usize = 0;
    while i < all.len()
        invariant
            i <= all@.len(),
            all@ == storage.tasks(),
            p == list_filter(user_id, status, opt_str_view(tag)),
            derefs(kept@) == storage.tasks().take(i as int).filter(p),
        decreases all.len() - i,
    {
        proof {
            crate::tasks::storage::lemma_filter_step(storage.tasks(), p, i as int);
        }
        let t = &all[i];
        let mut keep = true;
        if let Some(id) = user_id {
            keep = keep && t.user_id == id;
        }
        if let Some(s) = status {
            keep = keep && t.status == s;
        }
        if let Some(g) = tag {
            keep = keep && t.has_tag(g);
        }
        if keep {
            let ghost prev = kept@;
            kept.push(t);
            assert(derefs(kept@) =~= derefs(prev).push(storage.tasks()[i as int]));
        }
        i += 1;
    }
    assert(storage.tasks().take(all@.len() as int) =~= storage.tasks());
    let (sorted, Ghost(src)) = sort_newest_first(&kept);
    proof {
        assert(newest_first_by(lst, derefs(sorted@), src));
    }
    sorted
}

/// The three listing conditions at once.
pub open spec fn list_filter(
    user_id: Option<u32>,
    status: Option<Status>,
    tag: Option<Seq<char>>,
) -> spec_fn(Task) -> bool {
    |t: Task|
        (match user_id {
            Some(id) => t.user_id == id,
            None => true,
        }) && (match status {
            Some(s) => t.status == s,
            None => true,
        }) && (match tag {
            Some(g) => views(t.tags@).contains(g),
            None => true,
        })
}

proof fn lemma_filter_and(s: Seq<Task>, p: spec_fn(Task) -> bool, q: spec_fn(Task) -> bool)
    ensures
        s.filter(p).filter(q) == s.filter(|t: Task| p(t) && q(t)),
    decreases s.len(),
{
    reveal_with_fuel(Seq::filter, 1);
    if s.len() > 0 {
        lemma_filter_and(s.drop_last(), p, q);
        let fp = s.drop_last().filter(p);
        if p(s.last()) {
            assert(s.filter(p).drop_last() =~= fp);
        }
    }
}

proof fn lemma_filter_ext(s: Seq<Task>, p: spec_fn(Task) -> bool, q: spec_fn(Task) -> bool)
    requires
        forall|t: Task| #[trigger] p(t) == q(t),
    ensures
        s.filter(p) == s.filter(q),
    decreases s.len(),
{
    reveal_with_fuel(Seq::filter, 1);
    if s.len() > 0 {
        lemma_filter_ext(s.drop_last(), p, q);
    }
}

proof fn lemma_listed_is_filter(
    ts: Seq<Task>,
    user_id: Option<u32>,
    status: Option<Status>,
    tag: Option<Seq<char>>,
)
    ensures
        listed(ts, user_id, status, tag) == ts.filter(list_filter(user_id, status, tag)),
{
    let pu = |t: Task| match user_id {
        Some(id) => t.user_id == id,
        None => true,
    };
    let ps = |t: Task| match status {
        Some(s) => t.status == s,
        None => true,
    };
    let pt = |t: Task| match tag {
        Some(g) => views(t.tags@).contains(g),
        None => true,
    };
    let by_user = match user_id {
        Some(id) => ts.filter(task_owner_is(id)),
        None => ts,
    };
    assert(by_user == ts.filter(pu)) by {
        match user_id {
            Some(id) => lemma_filter_ext(ts, task_owner_is(id), pu),
            None => {
                crate::tasks::storage::lemma_filter_all(ts);
                lemma_filter_ext(ts, |t: Task| true, pu);
            },
        }
    }
    let by_status = match status {
        Some(s) => by_user.filter(task_status_is(s)),
        None => by_user,
    };
    assert(by_status == by_user.filter(ps)) by {
        match status {
            Some(s) => lemma_filter_ext(by_user, task_status_is(s), ps),
            None => {
                crate::tasks::storage::lemma_filter_all(by_user);
                lemma_filter_ext(by_user, |t: Task| true, ps);
            },
        }
    }
    let by_tag = match tag {
        Some(g) => by_status.filter(task_tagged(g)),
        None => by_status,
    };
    assert(by_tag == by_status.filter(pt)) by {
        match tag {
            Some(g) => lemma_filter_ext(by_status, task_tagged(g), pt),
            None => {
                crate::tasks::storage::lemma_filter_all(by_status);
                lemma_filter_ext(by_status, |t: Task| true, pt);
            },
        }
    }
    lemma_filter_and(ts, pu, ps);
    let pus = |t: Task| pu(t) && ps(t);
    lemma_filter_and(ts, pus, pt);
    lemma_filter_ext(ts, |t: Task| pus(t) && pt(t), list_filter(user_id, status, tag));
}

/// Encoding a concatenation concatenates the encodings.
proof fn lemma_encode_concat(a: Seq<char>, b: Seq<char>)
    ensures
        encode_utf8(a + b) == encode_utf8(a) + encode_utf8(b),
    decreases a.len(),
{
    if a.len() > 0 {
        assert((a + b).drop_first() =~= a.drop_first() + b);
        lemma_encode_concat(a.drop_first(), b);
        assert((a + b)[0] == a[0]);
    } else {
        assert(a + b =~= b);
    }
}

/// Text shortened for a column: when longer than `max_len` bytes, its
/// first `max_len - 2` bytes and `..`.
pub fn truncate(s: &str, max_len: usize) -> (r: String)
    requires
        encode_utf8(s@).len() > max_len ==> max_len >= 2 && is_char_boundary(
            encode_utf8(s@),
            max_len - 2,
        ),
    ensures
        encode_utf8(s@).len() > max_len ==> encode_utf8(r@) == encode_utf8(s@).subrange(
            0,
            max_len - 2,
        ) + encode_utf8(".."@),
        encode_utf8(s@).len() <= max_len ==> r@ == s@,
{
    let n = s.as_bytes().len();
    if n > max_len {
        let (head, _) = s.split_at(max_len - 2);
        let r = concat_strings(head, "..");
        proof {
            lemma_encode_concat(head@, ".."@);
        }
        r
    } else {
        s.to_string()
    }
}

} // verus!
