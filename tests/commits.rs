use kodo::commits::{activities_from_commits, get_commit_activities, order_newest_first, CommitRecord};

fn commit(message: &str, seconds: i64) -> CommitRecord {
    CommitRecord { message: message.to_string(), seconds }
}

fn local_date(seconds: i64) -> String {
    chrono::DateTime::from_timestamp(seconds, 0)
        .unwrap()
        .with_timezone(&chrono::Local)
        .format("%Y-%m-%d")
        .to_string()
}

const T0: i64 = 1_700_000_000;

#[test]
fn ten_minute_gap_then_oldest_gets_one() {
    let commits = vec![commit("older", T0 - 600), commit("newest", T0)];
    let acts = get_commit_activities(&commits).unwrap();
    assert_eq!(acts.len(), 2);
    assert_eq!((acts[0].id, acts[0].name.as_str(), acts[0].duration_minutes), (1, "newest", 10));
    assert_eq!((acts[1].id, acts[1].name.as_str(), acts[1].duration_minutes), (2, "older", 1));
    assert_eq!(acts[0].date, local_date(T0));
    assert_eq!(acts[1].date, local_date(T0 - 600));
}

#[test]
fn short_gap_counts_as_one_minute() {
    let commits = vec![commit("a", T0), commit("b", T0 - 59), commit("c", T0 - 59 - 125)];
    let acts = get_commit_activities(&commits).unwrap();
    let d: Vec<u32> = acts.iter().map(|a| a.duration_minutes).collect();
    assert_eq!(d, vec![1, 2, 1]);
}

#[test]
fn same_second_commits_keep_walk_order() {
    let commits = vec![commit("x", T0), commit("y", T0 + 60), commit("z", T0)];
    let ordered = order_newest_first(&commits);
    let names: Vec<&str> = ordered.iter().map(|c| c.message.as_str()).collect();
    assert_eq!(names, vec!["y", "x", "z"]);
}

#[test]
fn empty_history_gives_no_activities() {
    assert!(get_commit_activities(&Vec::new()).unwrap().is_empty());
}

#[test]
fn timestamps_at_the_calendar_edges() {
    assert!(get_commit_activities(&vec![commit("max", 8_210_266_876_799)]).is_some());
    assert!(get_commit_activities(&vec![commit("past max", 8_210_266_876_800)]).is_none());
    assert!(get_commit_activities(&vec![commit("min", -8_334_601_228_800)]).is_some());
    assert!(get_commit_activities(&vec![commit("past min", -8_334_601_228_801)]).is_none());
    assert!(get_commit_activities(&vec![commit("ok", T0), commit("bad", i64::MAX)]).is_none());
}

#[test]
fn durations_from_given_dates() {
    let ordered = vec![commit("c", T0 + 7200), commit("b", T0 + 3600), commit("a", T0)];
    let dates = vec!["d1".to_string(), "d2".to_string(), "d3".to_string()];
    let acts = activities_from_commits(&ordered, &dates);
    let got: Vec<(u32, &str, u32, &str)> =
        acts.iter().map(|a| (a.id, a.name.as_str(), a.duration_minutes, a.date.as_str())).collect();
    assert_eq!(got, vec![(1, "c", 60, "d1"), (2, "b", 60, "d2"), (3, "a", 1, "d3")]);
}

#[test]
fn huge_gap_wraps_to_thirty_two_bits() {
    let minutes: i64 = (1i64 << 32) + 5;
    let ordered = vec![commit("new", minutes * 60), commit("old", 0)];
    let dates = vec!["d".to_string(), "d".to_string()];
    let acts = activities_from_commits(&ordered, &dates);
    assert_eq!(acts[0].duration_minutes, 5);
}
