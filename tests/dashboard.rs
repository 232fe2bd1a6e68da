use kodo::activity::Activity;
use kodo::dashboard::{Dashboard, Effect, InputMode, Key};
use kodo::projection::SortMode;

fn act(id: u32, name: &str, minutes: u32, date: &str) -> Activity {
    Activity { id, name: name.to_string(), duration_minutes: minutes, date: date.to_string() }
}

fn ids(v: &[Activity]) -> Vec<u32> {
    v.iter().map(|a| a.id).collect()
}

fn today() -> String {
    chrono::Local::now().format("%Y-%m-%d").to_string()
}

fn type_text(d: &mut Dashboard, store: &mut Vec<Activity>, text: &str) {
    for c in text.chars() {
        assert_eq!(d.handle_key(Key::Char(c), store), Effect::Nothing);
    }
}

#[test]
fn add_refactor_forty_five_to_empty_store() {
    let mut store: Vec<Activity> = Vec::new();
    let mut d = Dashboard::new();
    assert_eq!(d.handle_key(Key::Char('a'), &mut store), Effect::Nothing);
    assert!(matches!(d.input_mode(), InputMode::EnteringName));
    type_text(&mut d, &mut store, "Refactor");
    assert_eq!(d.handle_key(Key::Enter, &mut store), Effect::Nothing);
    assert!(matches!(d.input_mode(), InputMode::EnteringDuration { name } if name == "Refactor"));
    type_text(&mut d, &mut store, "45");
    assert_eq!(d.handle_key(Key::Enter, &mut store), Effect::Persist);
    assert!(matches!(d.input_mode(), InputMode::Normal));
    assert_eq!(store.len(), 1);
    let a = &store[0];
    assert_eq!((a.id, a.name.as_str(), a.duration_minutes), (1, "Refactor", 45));
    assert_eq!(a.date, today());
}

#[test]
fn add_with_explicit_date_gets_next_id() {
    let mut store = vec![act(1, "a", 5, "2024-01-01"), act(5, "b", 5, "2024-01-01")];
    let mut d = Dashboard::new();
    d.on_key(Key::Char('a'), &mut store, "2024-07-07");
    d.on_key(Key::Char('x'), &mut store, "2024-07-07");
    d.on_key(Key::Enter, &mut store, "2024-07-07");
    d.on_key(Key::Char('9'), &mut store, "2024-07-07");
    assert_eq!(d.on_key(Key::Enter, &mut store, "2024-07-07"), Effect::Persist);
    let a = store.last().unwrap();
    assert_eq!((a.id, a.name.as_str(), a.duration_minutes, a.date.as_str()), (6, "x", 9, "2024-07-07"));
}

#[test]
fn name_is_trimmed_and_blank_name_is_refused() {
    let mut store: Vec<Activity> = Vec::new();
    let mut d = Dashboard::new();
    d.handle_key(Key::Char('a'), &mut store);
    type_text(&mut d, &mut store, "   ");
    d.handle_key(Key::Enter, &mut store);
    assert!(matches!(d.input_mode(), InputMode::EnteringName));
    assert_eq!(d.input_text(), "   ");
    d.handle_key(Key::Backspace, &mut store);
    d.handle_key(Key::Backspace, &mut store);
    d.handle_key(Key::Backspace, &mut store);
    d.handle_key(Key::Backspace, &mut store);
    assert_eq!(d.input_text(), "");
    type_text(&mut d, &mut store, "  Pair session ");
    d.handle_key(Key::Enter, &mut store);
    assert!(matches!(d.input_mode(), InputMode::EnteringDuration { name } if name == "Pair session"));
    assert_eq!(d.input_text(), "");
    type_text(&mut d, &mut store, " 30 ");
    assert_eq!(d.handle_key(Key::Enter, &mut store), Effect::Persist);
    assert_eq!(store[0].name, "Pair session");
    assert_eq!(store[0].duration_minutes, 30);
}

#[test]
fn bad_or_zero_duration_creates_nothing() {
    for text in ["0", "abc", "-5", "", "4294967296", "+"] {
        let mut store: Vec<Activity> = Vec::new();
        let mut d = Dashboard::new();
        d.handle_key(Key::Char('a'), &mut store);
        type_text(&mut d, &mut store, "Task");
        d.handle_key(Key::Enter, &mut store);
        type_text(&mut d, &mut store, text);
        assert_eq!(d.handle_key(Key::Enter, &mut store), Effect::Nothing);
        assert!(store.is_empty());
        assert!(matches!(d.input_mode(), InputMode::Normal));
    }
}

#[test]
fn plus_sign_duration_is_accepted() {
    let mut store: Vec<Activity> = Vec::new();
    let mut d = Dashboard::new();
    d.on_key(Key::Char('a'), &mut store, "2024-01-01");
    type_text(&mut d, &mut store, "T");
    d.on_key(Key::Enter, &mut store, "2024-01-01");
    type_text(&mut d, &mut store, "+4294967295");
    assert_eq!(d.on_key(Key::Enter, &mut store, "2024-01-01"), Effect::Persist);
    assert_eq!(store[0].duration_minutes, u32::MAX);
}

#[test]
fn escape_cancels_entry() {
    let mut store: Vec<Activity> = Vec::new();
    let mut d = Dashboard::new();
    d.handle_key(Key::Char('a'), &mut store);
    type_text(&mut d, &mut store, "Half");
    assert_eq!(d.handle_key(Key::Esc, &mut store), Effect::Nothing);
    assert!(matches!(d.input_mode(), InputMode::Normal));
    assert_eq!(d.input_text(), "");
    assert!(store.is_empty());
}

#[test]
fn filter_entry_sets_and_clears_bounds() {
    let mut store = vec![act(1, "a", 30, "2024-01-01"), act(2, "b", 45, "2024-01-02"), act(3, "c", 90, "2024-01-03")];
    let mut d = Dashboard::new();
    d.handle_key(Key::Char('f'), &mut store);
    assert!(matches!(d.input_mode(), InputMode::EnteringFilterMin));
    type_text(&mut d, &mut store, "30");
    d.handle_key(Key::Enter, &mut store);
    assert!(matches!(d.input_mode(), InputMode::EnteringFilterMax { min: 30 }));
    assert_eq!(d.filter_min(), Some(30));
    type_text(&mut d, &mut store, "60");
    d.handle_key(Key::Enter, &mut store);
    assert!(matches!(d.input_mode(), InputMode::Normal));
    assert_eq!(d.filter_max(), Some(60));
    assert_eq!(ids(&d.listing(&store)), vec![2, 1]);
    d.handle_key(Key::Char('s'), &mut store);
    assert_eq!(d.sort_mode(), SortMode::ByDuration);
    assert_eq!(ids(&d.listing(&store)), vec![2, 1]);

    d.handle_key(Key::Char('f'), &mut store);
    type_text(&mut d, &mut store, "x");
    d.handle_key(Key::Enter, &mut store);
    assert_eq!(d.filter_min(), None);
    d.handle_key(Key::Enter, &mut store);
    assert_eq!(d.filter_max(), None);
    assert_eq!(ids(&d.listing(&store)), vec![3, 2, 1]);

    d.handle_key(Key::Char('f'), &mut store);
    type_text(&mut d, &mut store, "40");
    d.handle_key(Key::Enter, &mut store);
    d.handle_key(Key::Enter, &mut store);
    assert_eq!((d.filter_min(), d.filter_max()), (Some(40), None));
    assert_eq!(d.handle_key(Key::Char('r'), &mut store), Effect::Nothing);
    assert_eq!((d.filter_min(), d.filter_max()), (None, None));
}

#[test]
fn delete_last_of_three_moves_selection_up() {
    let mut store = vec![act(1, "a", 10, "2024-01-03"), act(2, "b", 20, "2024-01-02"), act(3, "c", 30, "2024-01-01")];
    let mut d = Dashboard::new();
    d.handle_key(Key::Down, &mut store);
    d.handle_key(Key::Down, &mut store);
    assert_eq!(d.selected(), 2);
    d.handle_key(Key::Down, &mut store);
    assert_eq!(d.selected(), 2);
    assert_eq!(d.handle_key(Key::Char('d'), &mut store), Effect::Persist);
    assert_eq!(ids(&store), vec![1, 2]);
    assert_eq!(d.selected(), 1);
}

#[test]
fn delete_only_record_leaves_empty_view_at_zero() {
    let mut store = vec![act(1, "a", 10, "2024-01-01")];
    let mut d = Dashboard::new();
    assert_eq!(d.handle_key(Key::Char('d'), &mut store), Effect::Persist);
    assert!(store.is_empty());
    assert_eq!(d.selected(), 0);
    assert!(d.listing(&store).is_empty());
    assert_eq!(d.handle_key(Key::Char('d'), &mut store), Effect::Nothing);
    assert_eq!(d.handle_key(Key::Down, &mut store), Effect::Nothing);
    assert_eq!(d.selected(), 0);
}

#[test]
fn delete_removes_the_selected_row_not_the_store_position() {
    let mut store = vec![act(1, "a", 10, "2024-01-01"), act(2, "b", 30, "2024-01-01"), act(3, "c", 20, "2024-01-01")];
    let mut d = Dashboard::new();
    d.handle_key(Key::Char('s'), &mut store);
    assert_eq!(ids(&d.listing(&store)), vec![2, 3, 1]);
    d.handle_key(Key::Down, &mut store);
    d.handle_key(Key::Char('d'), &mut store);
    assert_eq!(ids(&store), vec![1, 2]);
    d.handle_key(Key::Char('d'), &mut store);
    assert_eq!(ids(&store), vec![2]);
    assert_eq!(store[0].id, 2);
}

#[test]
fn selection_clamps_when_filter_shrinks_view() {
    let mut store = vec![act(1, "a", 10, "2024-01-03"), act(2, "b", 20, "2024-01-02"), act(3, "c", 30, "2024-01-01")];
    let mut d = Dashboard::new();
    d.handle_key(Key::Down, &mut store);
    d.handle_key(Key::Down, &mut store);
    d.handle_key(Key::Char('f'), &mut store);
    type_text(&mut d, &mut store, "25");
    d.handle_key(Key::Enter, &mut store);
    assert_eq!(d.selected(), 0);
    d.handle_key(Key::Up, &mut store);
    assert_eq!(d.selected(), 0);
}

#[test]
fn normal_keys_toggle_and_quit() {
    let mut store: Vec<Activity> = Vec::new();
    let mut d = Dashboard::new();
    assert_eq!(d.sort_mode(), SortMode::ByDate);
    d.handle_key(Key::Char('s'), &mut store);
    d.handle_key(Key::Char('s'), &mut store);
    assert_eq!(d.sort_mode(), SortMode::ByName);
    d.handle_key(Key::Char('s'), &mut store);
    assert_eq!(d.sort_mode(), SortMode::ByDate);
    assert!(!d.show_stats());
    d.handle_key(Key::Char('v'), &mut store);
    assert!(d.show_stats());
    d.handle_key(Key::Char('v'), &mut store);
    assert!(!d.show_stats());
    assert_eq!(d.handle_key(Key::Char('z'), &mut store), Effect::Nothing);
    assert_eq!(d.handle_key(Key::Other, &mut store), Effect::Nothing);
    assert_eq!(d.handle_key(Key::Char('q'), &mut store), Effect::Quit);
}

#[test]
fn commit_overlay_replaces_and_returns() {
    let mut store = vec![act(1, "a", 10, "2024-01-01")];
    let mut d = Dashboard::new();
    d.handle_key(Key::Char('f'), &mut store);
    type_text(&mut d, &mut store, "50");
    d.handle_key(Key::Enter, &mut store);
    d.handle_key(Key::Enter, &mut store);
    assert_eq!(d.handle_key(Key::Char('g'), &mut store), Effect::FetchCommits);
    assert!(!d.in_commit_view());
    d.show_commits(vec![act(1, "newest", 3, "2024-02-02"), act(2, "older", 1, "2024-02-01")]);
    assert!(d.in_commit_view());
    assert_eq!(d.selected(), 0);
    let listed = d.listing(&store);
    assert_eq!(listed.iter().map(|a| a.name.as_str()).collect::<Vec<_>>(), vec!["newest", "older"]);
    d.handle_key(Key::Down, &mut store);
    assert_eq!(d.selected(), 1);
    assert_eq!(d.handle_key(Key::Char('d'), &mut store), Effect::Nothing);
    assert_eq!(store.len(), 1);
    d.handle_key(Key::Char('r'), &mut store);
    assert!(!d.in_commit_view());
    assert_eq!(d.filter_min(), Some(50));
    assert_eq!(d.selected(), 0);
    assert!(d.listing(&store).is_empty());
}

#[test]
fn submit_takes_trimmed_text() {
    let mut store: Vec<Activity> = Vec::new();
    let mut d = Dashboard::new();
    d.on_key(Key::Char('a'), &mut store, "2024-01-01");
    assert_eq!(d.submit("", &mut store, "2024-01-01"), Effect::Nothing);
    assert!(matches!(d.input_mode(), InputMode::EnteringName));
    d.submit("Docs", &mut store, "2024-01-01");
    assert_eq!(d.submit("12", &mut store, "2024-01-01"), Effect::Persist);
    assert_eq!((store[0].name.as_str(), store[0].duration_minutes, store[0].date.as_str()), ("Docs", 12, "2024-01-01"));
}
