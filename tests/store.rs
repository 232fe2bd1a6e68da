use kodo::activity::{next_id, Activity};
use kodo::store::{
    add_activity, add_activity_dated, delete_activity, edit_activity, filter_activities,
    list_activities, position_of_id, remove_first_with_id, sync_commits_to_file,
};

fn act(id: u32, name: &str, minutes: u32, date: &str) -> Activity {
    Activity { id, name: name.to_string(), duration_minutes: minutes, date: date.to_string() }
}

fn ids(v: &[Activity]) -> Vec<u32> {
    v.iter().map(|a| a.id).collect()
}

fn today() -> String {
    chrono::Local::now().format("%Y-%m-%d").to_string()
}

#[test]
fn next_id_after_one_and_five_is_six() {
    let store = vec![act(1, "a", 1, "d"), act(5, "b", 1, "d")];
    assert_eq!(next_id(&store), Some(6));
}

#[test]
fn next_id_of_empty_store_is_one() {
    assert_eq!(next_id(&Vec::new()), Some(1));
}

#[test]
fn next_id_exhausted() {
    let store = vec![act(u32::MAX, "a", 1, "d")];
    assert_eq!(next_id(&store), None);
    let mut s2 = store.clone();
    assert_eq!(add_activity_dated(&mut s2, "x", 3, "2024-01-01"), None);
    assert_eq!(s2.len(), 1);
}

#[test]
fn add_dated_appends_with_next_id() {
    let mut store = vec![act(1, "a", 1, "d"), act(5, "b", 1, "d")];
    assert_eq!(add_activity_dated(&mut store, "Write docs", 25, "2024-06-01"), Some(6));
    let last = store.last().unwrap();
    assert_eq!((last.id, last.name.as_str(), last.duration_minutes, last.date.as_str()), (6, "Write docs", 25, "2024-06-01"));
}

#[test]
fn add_dates_today() {
    let mut store: Vec<Activity> = Vec::new();
    assert_eq!(add_activity(&mut store, "Standup", 15), Some(1));
    assert_eq!(store[0].date, today());
    assert_eq!(store[0].name, "Standup");
}

#[test]
fn new_with_id_dates_today() {
    let a = Activity::new_with_id(7, "Plan", 20);
    assert_eq!((a.id(), a.name(), a.duration_minutes()), (7, "Plan", 20));
    assert_eq!(a.date, today());
}

#[test]
fn remove_by_id_takes_exactly_one_record() {
    let mut store = vec![act(1, "a", 1, "d"), act(2, "b", 2, "d"), act(3, "c", 3, "d")];
    assert!(remove_first_with_id(&mut store, 2));
    assert_eq!(ids(&store), vec![1, 3]);
    assert!(remove_first_with_id(&mut store, 3));
    assert_eq!(ids(&store), vec![1]);
    assert!(!remove_first_with_id(&mut store, 9));
    assert_eq!(ids(&store), vec![1]);
}

#[test]
fn remove_by_id_takes_the_first_of_duplicates() {
    let mut store = vec![act(4, "first", 1, "d"), act(4, "second", 2, "d")];
    assert!(remove_first_with_id(&mut store, 4));
    assert_eq!(store.len(), 1);
    assert_eq!(store[0].name, "second");
}

#[test]
fn position_of_id_finds_first() {
    let store = vec![act(3, "a", 1, "d"), act(8, "b", 1, "d"), act(8, "c", 1, "d")];
    assert_eq!(position_of_id(&store, 8), Some(1));
    assert_eq!(position_of_id(&store, 2), None);
}

#[test]
fn delete_removes_all_with_id() {
    let mut store = vec![act(1, "a", 1, "d"), act(2, "b", 1, "d"), act(2, "c", 1, "d"), act(3, "e", 1, "d")];
    assert!(delete_activity(&mut store, 2));
    assert_eq!(ids(&store), vec![1, 3]);
    assert!(!delete_activity(&mut store, 2));
    assert_eq!(ids(&store), vec![1, 3]);
}

#[test]
fn edit_changes_given_fields_only() {
    let mut store = vec![act(1, "a", 10, "2024-01-01"), act(2, "b", 20, "2024-01-02")];
    assert!(edit_activity(&mut store, 2, Some("renamed".to_string()), None));
    assert_eq!((store[1].name.as_str(), store[1].duration_minutes, store[1].date.as_str()), ("renamed", 20, "2024-01-02"));
    assert!(edit_activity(&mut store, 1, None, Some(99)));
    assert_eq!((store[0].name.as_str(), store[0].duration_minutes), ("a", 99));
    assert!(!edit_activity(&mut store, 5, Some("x".to_string()), Some(1)));
    assert_eq!(store[0].name, "a");
}

#[test]
fn list_is_longest_first_with_total() {
    let store = vec![act(1, "a", 10, "d"), act(2, "b", 30, "d"), act(3, "c", 20, "d")];
    let (rows, total) = list_activities(&store);
    assert_eq!(ids(&rows), vec![2, 3, 1]);
    assert_eq!(total, 60);
}

#[test]
fn filter_keeps_store_order_with_total() {
    let store = vec![act(1, "a", 10, "d"), act(2, "b", 30, "d"), act(3, "c", 20, "d")];
    let (rows, total) = filter_activities(&store, Some(15), None);
    assert_eq!(ids(&rows), vec![2, 3]);
    assert_eq!(total, 50);
    let (none, zero) = filter_activities(&store, Some(100), Some(200));
    assert!(none.is_empty());
    assert_eq!(zero, 0);
}

#[test]
fn sync_skips_known_name_and_date() {
    let mut existing = vec![act(4, "fix bug", 12, "2024-01-01")];
    let commits = vec![
        act(1, "fix bug", 3, "2024-01-01"),
        act(2, "fix bug", 5, "2024-01-02"),
        act(3, "add test", 7, "2024-01-02"),
        act(4, "add test", 9, "2024-01-02"),
    ];
    sync_commits_to_file(&mut existing, &commits);
    assert_eq!(ids(&existing), vec![4, 5, 6]);
    assert_eq!((existing[1].name.as_str(), existing[1].duration_minutes, existing[1].date.as_str()), ("fix bug", 5, "2024-01-02"));
    assert_eq!((existing[2].name.as_str(), existing[2].duration_minutes), ("add test", 7));
}
