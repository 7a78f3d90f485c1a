//! Tasks and users of the task manager.
use vstd::prelude::*;
use crate::text::{views, to_chars, to_lowercase, lowercase_of, contains_chars, contains_seq, str_eq, concat_strings};

verus! {

/// A point in time: whole seconds since 1970-01-01 UTC and the nanoseconds
/// after them.  Ordered by seconds, then nanoseconds.
#[derive(Debug, Clone, Copy, PartialEq, Eq, Structural)]
pub struct Timestamp {
    pub secs: i64,
    pub nanos: u32,
}

/// `a` is at or after `b`.
pub open spec fn at_or_after(a: Timestamp, b: Timestamp) -> bool {
    a.secs > b.secs || (a.secs == b.secs && a.nanos >= b.nanos)
}

/// Executable `at_or_after`.
pub fn is_at_or_after(a: Timestamp, b: Timestamp) -> (r: bool)
    ensures
        r == at_or_after(a, b),
{
    a.secs > b.secs || (a.secs == b.secs && a.nanos >= b.nanos)
}

/// The current time (`chrono::Utc::now`), as seconds since the epoch and
/// sub-second nanoseconds.  Nothing is promised of the value.
#[verifier::external_body]
pub(crate) fn utc_now() -> (r: Timestamp) {
    let now = chrono::Utc::now();
    Timestamp { secs: now.timestamp(), nanos: now.timestamp_subsec_nanos() }
}

/// Task priority.
#[derive(Debug, Clone, Copy, PartialEq, Eq, Structural)]
pub enum Priority {
    Low,
    Medium,
    High,
    Urgent,
}

/// Task status.
#[derive(Debug, Clone, Copy, PartialEq, Eq, Structural)]
pub enum Status {
    Todo,
    InProgress,
    Done,
    Cancelled,
}

/// The name a priority is shown and stored under.
pub open spec fn priority_name(p: Priority) -> Seq<char> {
    match p {
        Priority::Low => "low"@,
        Priority::Medium => "medium"@,
        Priority::High => "high"@,
        Priority::Urgent => "urgent"@,
    }
}

/// The priority a lowercase name denotes.
pub open spec fn priority_of_name(n: Seq<char>) -> Option<Priority> {
    if n == "low"@ {
        Some(Priority::Low)
    } else if n == "medium"@ {
        Some(Priority::Medium)
    } else if n == "high"@ {
        Some(Priority::High)
    } else if n == "urgent"@ {
        Some(Priority::Urgent)
    } else {
        None
    }
}

/// The name a status is shown and stored under.
pub open spec fn status_name(s: Status) -> Seq<char> {
    match s {
        Status::Todo => "todo"@,
        Status::InProgress => "in_progress"@,
        Status::Done => "done"@,
        Status::Cancelled => "cancelled"@,
    }
}

/// The status a lowercase name denotes (two spellings for some).
pub open spec fn status_of_name(n: Seq<char>) -> Option<Status> {
    if n == "todo"@ {
        Some(Status::Todo)
    } else if n == "in_progress"@ || n == "inprogress"@ {
        Some(Status::InProgress)
    } else if n == "done"@ {
        Some(Status::Done)
    } else if n == "cancelled"@ || n == "cancel"@ {
        Some(Status::Cancelled)
    } else {
        None
    }
}

impl Default for Priority {
    /// Medium.
    fn default() -> (r: Self)
        ensures
            r == Priority::Medium,
    {
        Priority::Medium
    }
}

impl Default for Status {
    /// To do.
    fn default() -> (r: Self)
        ensures
            r == Status::Todo,
    {
        Status::Todo
    }
}

impl Priority {
    /// The priority's name: `low`, `medium`, `high` or `urgent`.
    pub fn as_str(&self) -> (r: &'static str)
        ensures
            r@ == priority_name(*self),
    {
        match self {
            Priority::Low => "low",
            Priority::Medium => "medium",
            Priority::High => "high",
            Priority::Urgent => "urgent",
        }
    }

    /// The priority named by `s` in any case; other names are refused.
    pub fn parse(s: &str) -> (r: Result<Priority, String>)
        ensures
            match priority_of_name(lowercase_of(s@)) {
                Some(p) => r == Ok::<Priority, String>(p),
                None => r matches Err(m) && m@ == "Unknown priority: "@ + s@,
            },
            vstd::utf8::is_ascii_chars(s@) ==> lowercase_of(s@) == crate::text::ascii_lowercase(s@),
    {
        let l = to_lowercase(s);
        let n = l.as_str();
        if str_eq(n, "low") {
            Ok(Priority::Low)
        } else if str_eq(n, "medium") {
            Ok(Priority::Medium)
        } else if str_eq(n, "high") {
            Ok(Priority::High)
        } else if str_eq(n, "urgent") {
            Ok(Priority::Urgent)
        } else {
            Err(concat_strings("Unknown priority: ", s))
        }
    }
}

impl Status {
    /// The status's name: `todo`, `in_progress`, `done` or `cancelled`.
    pub fn as_str(&self) -> (r: &'static str)
        ensures
            r@ == status_name(*self),
    {
        match self {
            Status::Todo => "todo",
            Status::InProgress => "in_progress",
            Status::Done => "done",
            Status::Cancelled => "cancelled",
        }
    }

    /// The status named by `s` in any case; other names are refused.
    pub fn parse(s: &str) -> (r: Result<Status, String>)
        ensures
            match status_of_name(lowercase_of(s@)) {
                Some(st) => r == Ok::<Status, String>(st),
                None => r matches Err(m) && m@ == "Unknown status: "@ + s@,
            },
            vstd::utf8::is_ascii_chars(s@) ==> lowercase_of(s@) == crate::text::ascii_lowercase(s@),
    {
        let l = to_lowercase(s);
        let n = l.as_str();
        if str_eq(n, "todo") {
            Ok(Status::Todo)
        } else if str_eq(n, "in_progress") || str_eq(n, "inprogress") {
            Ok(Status::InProgress)
        } else if str_eq(n, "done") {
            Ok(Status::Done)
        } else if str_eq(n, "cancelled") || str_eq(n, "cancel") {
            Ok(Status::Cancelled)
        } else {
            Err(concat_strings("Unknown status: ", s))
        }
    }
}

impl std::str::FromStr for Priority {
    type Err = String;

    /// Same as `Priority::parse`.
    fn from_str(s: &str) -> (r: Result<Self, Self::Err>)
        ensures
            match priority_of_name(lowercase_of(s@)) {
                Some(p) => r == Ok::<Priority, String>(p),
                None => r matches Err(m) && m@ == "Unknown priority: "@ + s@,
            },
            vstd::utf8::is_ascii_chars(s@) ==> lowercase_of(s@) == crate::text::ascii_lowercase(s@),
    {
        Priority::parse(s)
    }
}

impl std::str::FromStr for Status {
    type Err = String;

    /// Same as `Status::parse`.
    fn from_str(s: &str) -> (r: Result<Self, Self::Err>)
        ensures
            match status_of_name(lowercase_of(s@)) {
                Some(st) => r == Ok::<Status, String>(st),
                None => r matches Err(m) && m@ == "Unknown status: "@ + s@,
            },
            vstd::utf8::is_ascii_chars(s@) ==> lowercase_of(s@) == crate::text::ascii_lowercase(s@),
    {
        Status::parse(s)
    }
}

/// A task.
#[derive(Debug)]
pub struct Task {
    pub id: u32,
    pub title: String,
    pub description: Option<String>,
    pub priority: Priority,
    pub status: Status,
    pub tags: Vec<String>,
    pub created_at: Timestamp,
    pub updated_at: Timestamp,
    pub user_id: u32,
}

/// The characters of an optional string.
pub open spec fn opt_view(s: Option<String>) -> Option<Seq<char>> {
    match s {
        Some(x) => Some(x@),
        None => None,
    }
}

/// Two tasks hold the same values.
pub open spec fn same_task(a: Task, b: Task) -> bool {
    &&& a.id == b.id
    &&& a.title@ == b.title@
    &&& opt_view(a.description) == opt_view(b.description)
    &&& a.priority == b.priority
    &&& a.status == b.status
    &&& views(a.tags@) == views(b.tags@)
    &&& a.created_at == b.created_at
    &&& a.updated_at == b.updated_at
    &&& a.user_id == b.user_id
}

/// `keyword`, lowercased, occurs in the lowercased title, description or
/// one of the tags.
pub open spec fn task_matches(t: Task, keyword: Seq<char>) -> bool {
    let k = lowercase_of(keyword);
    ||| contains_seq(lowercase_of(t.title@), k)
    ||| (t.description matches Some(d) && contains_seq(lowercase_of(d@), k))
    ||| exists|i: int| 0 <= i < t.tags@.len() && contains_seq(lowercase_of(#[trigger] t.tags@[i]@), k)
}

/// Copies of strings.
pub fn copy_strings(v: &Vec<String>) -> (r: Vec<String>)
    ensures
        views(r@) == views(v@),
{
    let mut r: Vec<String> = Vec::new();
    let mut i: usize = 0;
    while i < v.len()
        invariant
            i <= v@.len(),
            views(r@) == views(v@).take(i as int),
        decreases v.len() - i,
    {
        let s = v[i].clone();
        let ghost prev = views(r@);
        r.push(s);
        assert(views(r@) =~= prev.push(v@[i as int]@));
        assert(views(r@) =~= views(v@).take(i + 1));
        i += 1;
    }
    assert(views(v@).take(v@.len() as int) =~= views(v@));
    r
}

/// Whether the lowercased `hay` contains `needle`.
fn lower_contains(hay: &str, needle: &[char]) -> (r: bool)
    ensures
        r == contains_seq(lowercase_of(hay@), needle@),
{
    let l = to_lowercase(hay);
    let lc = to_chars(l.as_str());
    contains_chars(lc.as_slice(), needle)
}

impl Task {
    /// A task with the given id, title and owner: no description, medium
    /// priority, to do, no tags, created and updated now.
    pub fn new(id: u32, title: String, user_id: u32) -> (r: Self)
        ensures
            r.id == id,
            r.title@ == title@,
            r.description is None,
            r.priority == Priority::Medium,
            r.status == Status::Todo,
            r.tags@.len() == 0,
            r.updated_at == r.created_at,
            r.user_id == user_id,
    {
        let now = utc_now();
        Task {
            id,
            title,
            description: None,
            priority: Priority::default(),
            status: Status::default(),
            tags: Vec::new(),
            created_at: now,
            updated_at: now,
            user_id,
        }
    }

    /// The same task with a description.
    pub fn with_description(self, description: String) -> (r: Self)
        ensures
            opt_view(r.description) == Some(description@),
            r.id == self.id,
            r.title@ == self.title@,
            r.priority == self.priority,
            r.status == self.status,
            views(r.tags@) == views(self.tags@),
            r.created_at == self.created_at,
            r.updated_at == self.updated_at,
            r.user_id == self.user_id,
    {
        Task { description: Some(description), ..self }
    }

    /// The same task with a priority.
    pub fn with_priority(self, priority: Priority) -> (r: Self)
        ensures
            r.priority == priority,
            r.id == self.id,
            r.title@ == self.title@,
            opt_view(r.description) == opt_view(self.description),
            r.status == self.status,
            views(r.tags@) == views(self.tags@),
            r.created_at == self.created_at,
            r.updated_at == self.updated_at,
            r.user_id == self.user_id,
    {
        Task { priority, ..self }
    }

    /// The same task with tags.
    pub fn with_tags(self, tags: Vec<String>) -> (r: Self)
        ensures
            views(r.tags@) == views(tags@),
            r.id == self.id,
            r.title@ == self.title@,
            opt_view(r.description) == opt_view(self.description),
            r.priority == self.priority,
            r.status == self.status,
            r.created_at == self.created_at,
            r.updated_at == self.updated_at,
            r.user_id == self.user_id,
    {
        Task { tags, ..self }
    }

    /// Sets the status and stamps the update time.
    pub fn update_status(&mut self, status: Status)
        ensures
            final(self).status == status,
            final(self).id == old(self).id,
            final(self).title@ == old(self).title@,
            opt_view(final(self).description) == opt_view(old(self).description),
            final(self).priority == old(self).priority,
            views(final(self).tags@) == views(old(self).tags@),
            final(self).created_at == old(self).created_at,
            final(self).user_id == old(self).user_id,
    {
        self.status = status;
        self.updated_at = utc_now();
    }

    /// Sets the priority and stamps the update time.
    pub fn update_priority(&mut self, priority: Priority)
        ensures
            final(self).priority == priority,
            final(self).id == old(self).id,
            final(self).title@ == old(self).title@,
            opt_view(final(self).description) == opt_view(old(self).description),
            final(self).status == old(self).status,
            views(final(self).tags@) == views(old(self).tags@),
            final(self).created_at == old(self).created_at,
            final(self).user_id == old(self).user_id,
    {
        self.priority = priority;
        self.updated_at = utc_now();
    }

    /// Sets the title and stamps the update time.
    pub fn update_title(&mut self, title: String)
        ensures
            final(self).title@ == title@,
            final(self).id == old(self).id,
            opt_view(final(self).description) == opt_view(old(self).description),
            final(self).priority == old(self).priority,
            final(self).status == old(self).status,
            views(final(self).tags@) == views(old(self).tags@),
            final(self).created_at == old(self).created_at,
            final(self).user_id == old(self).user_id,
    {
        self.title = title;
        self.updated_at = utc_now();
    }

    /// Whether `keyword` occurs, ignoring case, in the title, the
    /// description or a tag.
    pub fn matches(&self, keyword: &str) -> (r: bool)
        ensures
            r == task_matches(*self, keyword@),
    {
        let k = to_lowercase(keyword);
        let kc = to_chars(k.as_str());
        if lower_contains(self.title.as_str(), kc.as_slice()) {
            return true;
        }
        let in_description = match &self.description {
            Some(d) => lower_contains(d.as_str(), kc.as_slice()),
            None => false,
        };
        if in_description {
            return true;
        }
        let mut i: usize = 0;
        while i < self.tags.len()
            invariant
                i <= self.tags@.len(),
                kc@ == lowercase_of(keyword@),
                forall|j: int|
                    0 <= j < i ==> !contains_seq(lowercase_of(#[trigger] self.tags@[j]@), kc@),
            decreases self.tags.len() - i,
        {
            if lower_contains(self.tags[i].as_str(), kc.as_slice()) {
                return true;
            }
            i += 1;
        }
        false
    }

    /// Whether the task has the given status.
    pub fn has_status(&self, status: Status) -> (r: bool)
        ensures
            r == (self.status == status),
    {
        self.status == status
    }

    /// Whether one of the tags is exactly `tag`.
    pub fn has_tag(&self, tag: &str) -> (r: bool)
        ensures
            r == views(self.tags@).contains(tag@),
    {
        let mut i: usize = 0;
        while i < self.tags.len()
            invariant
                i <= self.tags@.len(),
                forall|j: int| 0 <= j < i ==> (#[trigger] self.tags@[j])@ != tag@,
            decreases self.tags.len() - i,
        {
            if str_eq(self.tags[i].as_str(), tag) {
                assert(views(self.tags@)[i as int] == tag@);
                return true;
            }
            i += 1;
        }
        assert forall|j: int| 0 <= j < views(self.tags@).len() implies views(self.tags@)[j] != tag@ by {
            assert(views(self.tags@)[j] == self.tags@[j]@);
        }
        false
    }

    /// A copy of the task.
    pub fn duplicate(&self) -> (r: Self)
        ensures
            same_task(r, *self),
    {
        Task {
            id: self.id,
            title: self.title.clone(),
            description: match &self.description {
                Some(d) => Some(d.clone()),
                None => None,
            },
            priority: self.priority,
            status: self.status,
            tags: copy_strings(&self.tags),
            created_at: self.created_at,
            updated_at: self.updated_at,
            user_id: self.user_id,
        }
    }
}

/// A user.
#[derive(Debug)]
pub struct User {
    pub id: u32,
    pub name: String,
    pub created_at: Timestamp,
}

impl User {
    /// A user created now.
    pub fn new(id: u32, name: String) -> (r: Self)
        ensures
            r.id == id,
            r.name@ == name@,
    {
        User { id, name, created_at: utc_now() }
    }

    /// A user created now, named by a string slice.
    pub fn from_name(id: u32, name: &str) -> (r: Self)
        ensures
            r.id == id,
            r.name@ == name@,
    {
        User::new(id, name.to_string())
    }

    /// A copy of the user.
    pub fn duplicate(&self) -> (r: Self)
        ensures
            r.id == self.id,
            r.name@ == self.name@,
            r.created_at == self.created_at,
    {
        User { id: self.id, name: self.name.clone(), created_at: self.created_at }
    }
}

/// The name of a priority contains no uppercase letter, so lowering it
/// keeps it, and it names that priority again: parsing a shown priority
/// gives it back.
pub proof fn lemma_priority_name_round_trip(p: Priority)
    ensures
        vstd::utf8::is_ascii_chars(priority_name(p)),
        crate::text::ascii_lowercase(priority_name(p)) == priority_name(p),
        priority_of_name(crate::text::ascii_lowercase(priority_name(p))) == Some(p),
{
    reveal_strlit("low");
    reveal_strlit("medium");
    reveal_strlit("high");
    reveal_strlit("urgent");
    let n = priority_name(p);
    assert(crate::text::ascii_lowercase(n) =~= n);
    assert("low"@.len() == 3 && "medium"@.len() == 6 && "high"@.len() == 4 && "urgent"@.len() == 6);
    assert("medium"@[0] != "urgent"@[0]);
}

/// The name of a status contains no uppercase letter, so lowering it keeps
/// it, and it names that status again: parsing a shown status gives it
/// back.
pub proof fn lemma_status_name_round_trip(st: Status)
    ensures
        vstd::utf8::is_ascii_chars(status_name(st)),
        crate::text::ascii_lowercase(status_name(st)) == status_name(st),
        status_of_name(crate::text::ascii_lowercase(status_name(st))) == Some(st),
{
    reveal_strlit("todo");
    reveal_strlit("in_progress");
    reveal_strlit("inprogress");
    reveal_strlit("done");
    reveal_strlit("cancelled");
    reveal_strlit("cancel");
    let n = status_name(st);
    assert(crate::text::ascii_lowercase(n) =~= n);
    assert("todo"@.len() == 4 && "in_progress"@.len() == 11 && "inprogress"@.len() == 10);
    assert("done"@.len() == 4 && "cancelled"@.len() == 9 && "cancel"@.len() == 6);
    assert("todo"@[0] != "done"@[0]);
}

} // verus!
