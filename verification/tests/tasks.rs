use enginekit::tasks::commands::{
    add_task, delete_task, list_tasks, modify_task, parse_tags, show_stats, truncate,
};
use enginekit::tasks::model::{Priority, Status, Task, Timestamp, User};
use enginekit::tasks::storage::{AppData, Storage};

#[test]
fn test_task_creation() {
    let task = Task::new(1, "Test Task".to_string(), 1);
    assert_eq!(task.id, 1);
    assert_eq!(task.title, "Test Task");
    assert_eq!(task.status, Status::Todo);
    assert_eq!(task.priority, Priority::Medium);
}

#[test]
fn test_task_builder() {
    let task = Task::new(1, "Test".to_string(), 1)
        .with_description("Description".to_string())
        .with_priority(Priority::High)
        .with_tags(vec!["work".to_string()]);

    assert_eq!(task.description, Some("Description".to_string()));
    assert_eq!(task.priority, Priority::High);
    assert_eq!(task.tags, vec!["work"]);
}

#[test]
fn test_task_matches() {
    let task = Task::new(1, "Buy milk".to_string(), 1)
        .with_description("Get from store".to_string())
        .with_tags(vec!["shopping".to_string()]);

    assert!(task.matches("milk"));
    assert!(task.matches("store"));
    assert!(task.matches("shopping"));
    assert!(!task.matches("xyz"));
}

#[test]
fn test_user_creation() {
    let user = User::new(1, "Alice".to_string());
    assert_eq!(user.id, 1);
    assert_eq!(user.name, "Alice");
}

#[test]
fn matching_ignores_case() {
    let task = Task::new(1, "Buy MILK".to_string(), 1);
    assert!(task.matches("milk"));
    assert!(task.matches("Milk"));
    assert!(task.matches(""));
}

#[test]
fn tags_and_status_checks() {
    let mut task = Task::new(3, "t".to_string(), 1).with_tags(vec!["a".to_string(), "bc".to_string()]);
    assert!(task.has_tag("bc"));
    assert!(!task.has_tag("b"));
    assert!(task.has_status(Status::Todo));
    let created = task.created_at;
    task.update_status(Status::Done);
    assert!(task.has_status(Status::Done));
    assert_eq!(task.created_at, created);
    task.update_title("u".to_string());
    assert_eq!(task.title, "u");
    task.update_priority(Priority::Urgent);
    assert_eq!(task.priority, Priority::Urgent);
}

#[test]
fn priority_and_status_names() {
    assert_eq!(Priority::parse("HIGH"), Ok(Priority::High));
    assert_eq!(Priority::parse("low"), Ok(Priority::Low));
    assert_eq!(Priority::parse("bogus"), Err("Unknown priority: bogus".to_string()));
    assert_eq!(Status::parse("InProgress"), Ok(Status::InProgress));
    assert_eq!(Status::parse("cancel"), Ok(Status::Cancelled));
    assert_eq!(Status::parse("x"), Err("Unknown status: x".to_string()));
    assert_eq!(Priority::Urgent.as_str(), "urgent");
    assert_eq!(Status::InProgress.as_str(), "in_progress");
    assert_eq!("medium".parse::<Priority>(), Ok(Priority::Medium));
    assert_eq!(Priority::default(), Priority::Medium);
    assert_eq!(Status::default(), Status::Todo);
}

fn store() -> Storage {
    let mut data = AppData::new();
    data.init_default_user();
    Storage::from_data("./data".to_string(), data)
}

#[test]
fn default_user_is_created_once() {
    let mut data = AppData::new();
    data.init_default_user();
    data.init_default_user();
    assert_eq!(data.users.len(), 1);
    assert_eq!(data.users[0].id, 1);
    assert_eq!(data.users[0].name, "default");
    let d = AppData::default();
    assert_eq!(d.next_user_id, 0);
}

#[test]
fn users_are_added_found_and_deleted_with_their_tasks() {
    let mut s = store();
    let bob = s.add_user("bob".to_string());
    assert_eq!(bob.id, 1);
    assert_eq!(s.get_user_id("bob"), Some(1));
    assert_eq!(s.get_user_id("default"), Some(1));
    let t = add_task(&mut s, "x", None, Priority::Low, None, "bob").unwrap();
    assert_eq!(t.user_id, 1);
    s.delete_user(1);
    assert!(s.get_users().is_empty());
    assert!(s.get_tasks().is_empty());
}

#[test]
fn tasks_get_fresh_ids() {
    let mut s = store();
    let a = add_task(&mut s, "first", Some("d"), Priority::High, Some("x, y"), "default").unwrap();
    let b = add_task(&mut s, "second", None, Priority::Low, None, "default").unwrap();
    assert_eq!(a.id, 1);
    assert_eq!(b.id, 2);
    assert_eq!(a.tags, vec!["x", "y"]);
    assert_eq!(a.description, Some("d".to_string()));
    assert_eq!(s.get_task(2).unwrap().title, "second");
    assert!(s.get_task(3).is_none());
}

#[test]
fn adding_for_unknown_user_is_refused() {
    let mut s = store();
    match add_task(&mut s, "x", None, Priority::Low, None, "nobody") {
        Err(m) => assert_eq!(m, "User not found: nobody"),
        Ok(_) => panic!("expected an error"),
    }
    assert!(s.get_tasks().is_empty());
}

#[test]
fn modify_and_delete() {
    let mut s = store();
    add_task(&mut s, "first", None, Priority::Low, None, "default").unwrap();
    modify_task(&mut s, 1, Some(Status::Done), None, Some("renamed")).unwrap();
    let t = s.get_task(1).unwrap();
    assert_eq!(t.status, Status::Done);
    assert_eq!(t.title, "renamed");
    assert_eq!(t.priority, Priority::Low);
    assert_eq!(modify_task(&mut s, 42, None, None, None), Err("Task not found: 42".to_string()));
    assert!(!delete_task(&mut s, 42));
    assert!(delete_task(&mut s, 1));
    assert!(s.get_task(1).is_none());
}

#[test]
fn update_of_missing_task_is_refused() {
    let mut s = store();
    let t = Task::new(9, "nine".to_string(), 1);
    assert_eq!(s.update_task(t), Err("Task not found".to_string()));
}

#[test]
fn filters_and_search() {
    let mut s = store();
    add_task(&mut s, "Buy milk", None, Priority::Low, Some("home"), "default").unwrap();
    add_task(&mut s, "Write report", None, Priority::High, Some("work"), "default").unwrap();
    assert_eq!(s.get_tasks_by_tag("work").len(), 1);
    assert_eq!(s.get_tasks_by_status(Status::Todo).len(), 2);
    assert_eq!(s.get_tasks_by_user(1).len(), 2);
    assert_eq!(s.search_tasks("MILK")[0].title, "Buy milk");
}

#[test]
fn statistics_count_statuses_and_priorities() {
    let mut s = store();
    add_task(&mut s, "a", None, Priority::Low, None, "default").unwrap();
    add_task(&mut s, "b", None, Priority::Low, None, "default").unwrap();
    add_task(&mut s, "c", None, Priority::High, None, "default").unwrap();
    modify_task(&mut s, 3, Some(Status::Done), None, None).unwrap();
    let st = show_stats(&s, None);
    assert_eq!(st.total, 3);
    assert_eq!(st.todo, 2);
    assert_eq!(st.done, 1);
    assert_eq!(st.in_progress, 0);
    assert_eq!(st.cancelled, 0);
    assert_eq!(st.total, st.todo + st.in_progress + st.done + st.cancelled);
    assert_eq!(st.by_priority.get("low"), Some(2));
    assert_eq!(st.by_priority.get("high"), Some(1));
    assert_eq!(st.by_priority.get("urgent"), None);
    let none = show_stats(&s, Some("nobody"));
    assert_eq!(none.total, 3);
}

#[test]
fn listing_is_newest_first_and_stable() {
    let mut data = AppData::new();
    data.init_default_user();
    let mk = |id: u32, secs: i64| {
        let mut t = Task::new(id, format!("t{}", id), 1);
        t.created_at = Timestamp { secs, nanos: 0 };
        t
    };
    data.tasks.push(mk(1, 10));
    data.tasks.push(mk(2, 30));
    data.tasks.push(mk(3, 10));
    data.tasks.push(mk(4, 20));
    let s = Storage::from_data("d".to_string(), data);
    let ids: Vec<u32> = list_tasks(&s, None, None, None).iter().map(|t| t.id).collect();
    assert_eq!(ids, vec![2, 4, 1, 3]);
    let done: Vec<u32> = list_tasks(&s, Some(Status::Done), None, None).iter().map(|t| t.id).collect();
    assert!(done.is_empty());
}

#[test]
fn tag_lists_are_split_and_trimmed() {
    assert_eq!(parse_tags(" a, b ,c"), vec!["a", "b", "c"]);
    assert_eq!(parse_tags(""), vec![""]);
    assert_eq!(parse_tags("x,,y"), vec!["x", "", "y"]);
}

#[test]
fn truncation_for_columns() {
    assert_eq!(truncate("short", 12), "short");
    assert_eq!(truncate("a long title here", 12), "a long tit..");
    assert_eq!(truncate("exactly12chr", 12), "exactly12chr");
}
