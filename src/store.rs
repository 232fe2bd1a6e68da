use vstd::prelude::*;
use crate::activity::{Activity, ActivityView, views, next_id_of, next_id, ids_unique, max_id, lemma_max_id_bounds};
use crate::clock::local_today;
use crate::projection::{SortMode, stable_sort, within, sum_minutes, sort_activities, filter_by_duration, total_minutes};

verus! {

/// `s` with `a` appended under the next free id, when there is one.
pub open spec fn with_added(s: Seq<ActivityView>, name: Seq<char>, minutes: u32, date: Seq<char>) -> Seq<
    ActivityView,
> {
    match next_id_of(s) {
        Some(id) => s.push(ActivityView { id, name, duration_minutes: minutes, date }),
        None => s,
    }
}

/// `k` is the first index of `s` holding a record with `id`.
pub open spec fn first_with_id(s: Seq<ActivityView>, id: u32, k: int) -> bool {
    &&& 0 <= k < s.len()
    &&& s[k].id == id
    &&& forall|j: int| 0 <= j < k ==> #[trigger] s[j].id != id
}

/// Some record of `s` carries `id`.
pub open spec fn holds_id(s: Seq<ActivityView>, id: u32) -> bool {
    exists|k: int| 0 <= k < s.len() && #[trigger] s[k].id == id
}

/// `s` without its first record that carries `id`; `s` itself when none does.
pub open spec fn remove_first_id(s: Seq<ActivityView>, id: u32) -> Seq<ActivityView> {
    if holds_id(s, id) {
        s.remove(choose|k: int| first_with_id(s, id, k))
    } else {
        s
    }
}

proof fn lemma_first_with_id(s: Seq<ActivityView>, id: u32)
    requires
        holds_id(s, id),
    ensures
        exists|k: int| first_with_id(s, id, k),
        forall|k1: int, k2: int| first_with_id(s, id, k1) && first_with_id(s, id, k2) ==> k1 == k2,
    decreases s.len(),
{
    let k = choose|k: int| 0 <= k < s.len() && #[trigger] s[k].id == id;
    if s[0].id == id {
        assert(first_with_id(s, id, 0));
    } else {
        let t = s.drop_first();
        assert(t[k - 1].id == id);
        lemma_first_with_id(t, id);
        let j = choose|j: int| first_with_id(t, id, j);
        assert forall|i: int| 0 <= i < j + 1 implies #[trigger] s[i].id != id by {
            if i > 0 {
                assert(s[i] == t[i - 1]);
            }
        }
        assert(first_with_id(s, id, j + 1));
    }
    assert forall|k1: int, k2: int| first_with_id(s, id, k1) && first_with_id(s, id, k2) implies k1 == k2 by {
        if k1 < k2 {
            assert(s[k1].id != id);
        } else if k2 < k1 {
            assert(s[k2].id != id);
        }
    }
}

/// Deleting by id removes exactly one record, the first that carries the id,
/// and leaves every other record, its id included, as it was and in order.
pub proof fn lemma_delete_removes_one(s: Seq<ActivityView>, id: u32)
    requires
        holds_id(s, id),
    ensures
        remove_first_id(s, id).len() == s.len() - 1,
        exists|k: int|
            first_with_id(s, id, k) && (forall|j: int| 0 <= j < k ==> #[trigger] remove_first_id(s, id)[j] == s[j])
                && (forall|j: int| k <= j < s.len() - 1 ==> #[trigger] remove_first_id(s, id)[j] == s[j + 1]),
{
    lemma_first_with_id(s, id);
    let k = choose|k: int| first_with_id(s, id, k);
    assert(first_with_id(s, id, k));
}

/// `s` without the records that carry `id`.
pub open spec fn without_id(s: Seq<ActivityView>, id: u32) -> Seq<ActivityView>
    decreases s.len(),
{
    if s.len() == 0 {
        s
    } else if s.last().id == id {
        without_id(s.drop_last(), id)
    } else {
        without_id(s.drop_last(), id).push(s.last())
    }
}

/// `a` with a new name and a new duration where one is given.
pub open spec fn edited(a: ActivityView, name: Option<Seq<char>>, minutes: Option<u32>) -> ActivityView {
    ActivityView {
        id: a.id,
        name: match name {
            Some(n) => n,
            None => a.name,
        },
        duration_minutes: match minutes {
            Some(m) => m,
            None => a.duration_minutes,
        },
        date: a.date,
    }
}

/// Some record of `s` has this name and this date.
pub open spec fn has_entry(s: Seq<ActivityView>, name: Seq<char>, date: Seq<char>) -> bool {
    exists|k: int| 0 <= k < s.len() && #[trigger] s[k].name == name && s[k].date == date
}

/// The store after taking in the commit-derived activities `c` in order: each
/// whose name and date no record has yet is appended under the next free id.
pub open spec fn merge_commits(e: Seq<ActivityView>, c: Seq<ActivityView>) -> Seq<ActivityView>
    decreases c.len(),
{
    if c.len() == 0 {
        e
    } else {
        let m = merge_commits(e, c.drop_last());
        let x = c.last();
        if has_entry(m, x.name, x.date) {
            m
        } else {
            with_added(m, x.name, x.duration_minutes, x.date)
        }
    }
}

/// Appending under the next free id keeps the ids unique.
pub proof fn lemma_added_keeps_ids_unique(s: Seq<ActivityView>, name: Seq<char>, minutes: u32, date: Seq<char>)
    requires
        ids_unique(s),
    ensures
        ids_unique(with_added(s, name, minutes, date)),
{
    lemma_max_id_bounds(s);
    let r = with_added(s, name, minutes, date);
    if next_id_of(s) is Some {
        assert forall|i: int, j: int| 0 <= i < j < r.len() implies #[trigger] r[i].id != #[trigger] r[j].id by {
            assert(r[i] == s[i]);
            if j < s.len() {
                assert(r[j] == s[j]);
            }
        }
    }
}

/// Removing a record by id keeps the ids unique.
pub proof fn lemma_removal_keeps_ids_unique(s: Seq<ActivityView>, id: u32)
    requires
        ids_unique(s),
    ensures
        ids_unique(remove_first_id(s, id)),
{
    if holds_id(s, id) {
        lemma_first_with_id(s, id);
        let k = choose|k: int| first_with_id(s, id, k);
        let r = s.remove(k);
        assert forall|i: int, j: int| 0 <= i < j < r.len() implies #[trigger] r[i].id != #[trigger] r[j].id by {
            let si = if i < k { i } else { i + 1 };
            let sj = if j < k { j } else { j + 1 };
            assert(r[i] == s[si] && r[j] == s[sj]);
        }
    }
}

proof fn lemma_without_id_from(s: Seq<ActivityView>, id: u32)
    ensures
        forall|i: int| 0 <= i < without_id(s, id).len() ==> s.contains(#[trigger] without_id(s, id)[i]),
    decreases s.len(),
{
    if s.len() > 0 {
        let d = s.drop_last();
        lemma_without_id_from(d, id);
        assert forall|i: int| 0 <= i < without_id(s, id).len() implies s.contains(#[trigger] without_id(s, id)[i]) by {
            let x = without_id(s, id)[i];
            if i < without_id(d, id).len() {
                assert(x == without_id(d, id)[i]);
                let k = choose|k: int| 0 <= k < d.len() && d[k] == x;
                assert(s[k] == x);
            } else {
                assert(s[s.len() - 1] == x);
            }
        }
    }
}

/// Deleting every record with an id keeps the ids unique.
pub proof fn lemma_delete_keeps_ids_unique(s: Seq<ActivityView>, id: u32)
    requires
        ids_unique(s),
    ensures
        ids_unique(without_id(s, id)),
    decreases s.len(),
{
    if s.len() > 0 {
        let d = s.drop_last();
        assert(ids_unique(d)) by {
            assert forall|i: int, j: int| 0 <= i < j < d.len() implies #[trigger] d[i].id != #[trigger] d[j].id by {
                assert(d[i] == s[i] && d[j] == s[j]);
            }
        }
        lemma_delete_keeps_ids_unique(d, id);
        lemma_without_id_from(d, id);
        let w = without_id(d, id);
        if s.last().id != id {
            assert forall|i: int, j: int| 0 <= i < j < w.len() + 1 implies #[trigger] w.push(s.last())[i].id != #[trigger] w.push(s.last())[j].id by {
                assert(w.push(s.last())[i] == w[i]);
                if j < w.len() {
                    assert(w.push(s.last())[j] == w[j]);
                } else {
                    assert(d.contains(w[i]));
                    let k = choose|k: int| 0 <= k < d.len() && d[k] == w[i];
                    assert(s[k] == d[k]);
                }
            }
        }
    }
}

/// Editing a record keeps its id, so the ids stay unique.
pub proof fn lemma_edit_keeps_ids_unique(
    s: Seq<ActivityView>,
    k: int,
    name: Option<Seq<char>>,
    minutes: Option<u32>,
)
    requires
        ids_unique(s),
        0 <= k < s.len(),
    ensures
        ids_unique(s.update(k, edited(s[k], name, minutes))),
{
    let r = s.update(k, edited(s[k], name, minutes));
    assert forall|i: int, j: int| 0 <= i < j < r.len() implies #[trigger] r[i].id != #[trigger] r[j].id by {
        assert(r[i].id == s[i].id && r[j].id == s[j].id);
    }
}

/// Taking in commit-derived activities keeps the ids unique.
pub proof fn lemma_merge_keeps_ids_unique(e: Seq<ActivityView>, c: Seq<ActivityView>)
    requires
        ids_unique(e),
    ensures
        ids_unique(merge_commits(e, c)),
    decreases c.len(),
{
    if c.len() > 0 {
        lemma_merge_keeps_ids_unique(e, c.drop_last());
        let m = merge_commits(e, c.drop_last());
        lemma_added_keeps_ids_unique(m, c.last().name, c.last().duration_minutes, c.last().date);
    }
}

/// Appends an activity with the given name, duration and date under the next
/// free id, and returns that id; `None`, with the store unchanged, when no id
/// is left.
pub fn add_activity_dated(store: &mut Vec<Activity>, name: &str, minutes: u32, date: &str) -> (r:
    Option<u32>)
    ensures
        r == next_id_of(views(old(store)@)),
        views(final(store)@) == with_added(views(old(store)@), name@, minutes, date@),
{
    match next_id(store) {
        Some(id) => {
            let a = Activity::new(id, name, minutes, date);
            let ghost before = store@;
            store.push(a);
            proof {
                assert(views(store@) =~= views(before).push(a@));
            }
            Some(id)
        },
        None => None,
    }
}

/// Appends an activity with the given name and duration, dated today, under
/// the next free id, and returns that id; `None`, with the store unchanged,
/// when no id is left.
pub fn add_activity(store: &mut Vec<Activity>, name: &str, minutes: u32) -> (r: Option<u32>)
    ensures
        r == next_id_of(views(old(store)@)),
        r is Some ==> views(final(store)@) == with_added(
            views(old(store)@),
            name@,
            minutes,
            final(store)@.last().date@,
        ),
        r is None ==> views(final(store)@) == views(old(store)@),
{
    let today = local_today();
    add_activity_dated(store, name, minutes, today.as_str())
}

impl Activity {
    /// An activity with the given id, name and duration, dated today.
    pub fn new_with_id(id: u32, name: &str, duration_minutes: u32) -> (r: Activity)
        ensures
            r.id == id,
            r.name@ == name@,
            r.duration_minutes == duration_minutes,
    {
        let today = local_today();
        Activity::new(id, name, duration_minutes, today.as_str())
    }
}

/// The first index of `store` whose record carries `id`.
pub fn position_of_id(store: &Vec<Activity>, id: u32) -> (r: Option<usize>)
    ensures
        r matches Some(k) ==> first_with_id(views(store@), id, k as int),
        r is None ==> !holds_id(views(store@), id),
{
    let mut i: usize = 0;
    while i < store.len()
        invariant
            i <= store.len(),
            forall|j: int| 0 <= j < i ==> #[trigger] views(store@)[j].id != id,
        decreases store.len() - i,
    {
        if store[i].id == id {
            return Some(i);
        }
        i = i + 1;
    }
    None
}

/// Removes the first record that carries `id`; `false`, with the store
/// unchanged, when none does.
pub fn remove_first_with_id(store: &mut Vec<Activity>, id: u32) -> (r: bool)
    ensures
        r == holds_id(views(old(store)@), id),
        views(final(store)@) == remove_first_id(views(old(store)@), id),
{
    match position_of_id(store, id) {
        Some(k) => {
            let ghost before = store@;
            store.remove(k);
            proof {
                assert(views(store@) =~= views(before).remove(k as int));
                assert(holds_id(views(before), id)) by {
                    assert(views(before)[k as int].id == id);
                }
                lemma_first_with_id(views(before), id);
            }
            true
        },
        None => false,
    }
}

/// Removes every record that carries `id`, and says whether there was one.
pub fn delete_activity(store: &mut Vec<Activity>, id: u32) -> (r: bool)
    ensures
        views(final(store)@) == without_id(views(old(store)@), id),
        r == holds_id(views(old(store)@), id),
{
    let ghost s = views(store@);
    let mut kept: Vec<Activity> = Vec::new();
    let mut found = false;
    let mut i: usize = 0;
    while i < store.len()
        invariant
            i <= store.len(),
            s == views(store@),
            views(kept@) == without_id(s.take(i as int), id),
            found == holds_id(s.take(i as int), id),
        decreases store.len() - i,
    {
        proof {
            assert(s.take(i + 1).drop_last() =~= s.take(i as int));
            assert(s.take(i + 1).last() == s[i as int]);
            if holds_id(s.take(i as int), id) {
                let k = choose|k: int| 0 <= k < i && #[trigger] s.take(i as int)[k].id == id;
                assert(s.take(i + 1)[k].id == id);
            }
            if holds_id(s.take(i + 1), id) && s[i as int].id != id {
                let k = choose|k: int| 0 <= k < i + 1 && #[trigger] s.take(i + 1)[k].id == id;
                assert(s.take(i as int)[k].id == id);
            }
            if s[i as int].id == id {
                assert(s.take(i + 1)[i as int].id == id);
            }
        }
        if store[i].id == id {
            found = true;
        } else {
            let c = store[i].duplicate();
            let ghost before = kept@;
            kept.push(c);
            proof {
                assert(views(kept@) =~= views(before).push(c@));
            }
        }
        i = i + 1;
    }
    proof {
        assert(s.take(i as int) =~= s);
    }
    *store = kept;
    found
}

/// Gives the first record that carries `id` the new name and the new duration
/// where one is given, and says whether there was such a record.
pub fn edit_activity(
    store: &mut Vec<Activity>,
    id: u32,
    new_name: Option<String>,
    new_minutes: Option<u32>,
) -> (r: bool)
    ensures
        r == holds_id(views(old(store)@), id),
        r ==> exists|k: int|
            first_with_id(views(old(store)@), id, k) && views(final(store)@) == views(
                old(store)@,
            ).update(
                k,
                edited(
                    views(old(store)@)[k],
                    match new_name {
                        Some(n) => Some(n@),
                        None => None,
                    },
                    new_minutes,
                ),
            ),
        !r ==> views(final(store)@) == views(old(store)@),
{
    match position_of_id(store, id) {
        Some(k) => {
            let old_a = store[k].duplicate();
            let name = match new_name {
                Some(n) => n,
                None => old_a.name.clone(),
            };
            let minutes = match new_minutes {
                Some(m) => m,
                None => old_a.duration_minutes,
            };
            let a = Activity { id: old_a.id, name, duration_minutes: minutes, date: old_a.date.clone() };
            let ghost before = store@;
            store.set(k, a);
            proof {
                assert(views(store@) =~= views(before).update(k as int, a@));
            }
            true
        },
        None => false,
    }
}

/// The records of `store`, longest first (ties in store order), with the sum
/// of their durations.
pub fn list_activities(store: &Vec<Activity>) -> (r: (Vec<Activity>, u64))
    requires
        store@.len() <= u32::MAX,
    ensures
        views(r.0@) == stable_sort(views(store@), SortMode::ByDuration),
        r.1 == sum_minutes(views(store@)),
{
    let total = total_minutes(store);
    (sort_activities(store, SortMode::ByDuration), total)
}

/// The records of `store` whose duration lies within the bounds that are set,
/// in store order, with the sum of their durations.
pub fn filter_activities(store: &Vec<Activity>, min: Option<u32>, max: Option<u32>) -> (r: (
    Vec<Activity>,
    u64,
))
    requires
        store@.len() <= u32::MAX,
    ensures
        views(r.0@) == within(views(store@), min, max),
        r.1 == sum_minutes(within(views(store@), min, max)),
{
    let kept = filter_by_duration(store, min, max);
    proof {
        lemma_within_len(views(store@), min, max);
    }
    let total = total_minutes(&kept);
    (kept, total)
}

proof fn lemma_within_len(s: Seq<ActivityView>, min: Option<u32>, max: Option<u32>)
    ensures
        within(s, min, max).len() <= s.len(),
    decreases s.len(),
{
    if s.len() > 0 {
        lemma_within_len(s.drop_last(), min, max);
    }
}

/// Whether some record of `store` has this name and this date.
fn has_record(store: &Vec<Activity>, name: &String, date: &String) -> (r: bool)
    ensures
        r == has_entry(views(store@), name@, date@),
{
    let mut i: usize = 0;
    while i < store.len()
        invariant
            i <= store.len(),
            forall|j: int| 0 <= j < i ==> !(#[trigger] views(store@)[j].name == name@ && views(store@)[j].date == date@),
        decreases store.len() - i,
    {
        if store[i].name == *name && store[i].date == *date {
            assert(views(store@)[i as int].name == name@);
            return true;
        }
        i = i + 1;
    }
    false
}

/// Takes the commit-derived activities `commits` into `existing`, in order:
/// each whose name and date no record has yet is appended under the next free
/// id, with its duration; the others are skipped.
pub fn sync_commits_to_file(existing: &mut Vec<Activity>, commits: &Vec<Activity>)
    ensures
        views(final(existing)@) == merge_commits(views(old(existing)@), views(commits@)),
{
    let ghost e0 = views(existing@);
    let ghost c = views(commits@);
    let mut i: usize = 0;
    while i < commits.len()
        invariant
            i <= commits.len(),
            c == views(commits@),
            views(existing@) == merge_commits(e0, c.take(i as int)),
        decreases commits.len() - i,
    {
        proof {
            assert(c.take(i + 1).drop_last() =~= c.take(i as int));
            assert(c.take(i + 1).last() == c[i as int]);
        }
        let x = &commits[i];
        if !has_record(existing, &x.name, &x.date) {
            add_activity_dated(existing, x.name.as_str(), x.duration_minutes, x.date.as_str());
        }
        i = i + 1;
    }
    proof {
        assert(c.take(i as int) =~= c);
    }
}

} // verus!
