use vstd::prelude::*;
use crate::activity::{Activity, ActivityView, views};
use crate::clock::{representable_timestamp, local_date_of};

verus! {

broadcast use {vstd::seq_lib::group_to_multiset_ensures, vstd::multiset::group_multiset_axioms};

/// A commit as read from version-control history: its message and its time in
/// seconds since the Unix epoch.
#[derive(Debug, Clone)]
pub struct CommitRecord {
    pub message: String,
    pub seconds: i64,
}

/// The mathematical value of a [`CommitRecord`].
pub struct CommitView {
    pub message: Seq<char>,
    pub seconds: i64,
}

impl View for CommitRecord {
    type V = CommitView;

    open spec fn view(&self) -> CommitView {
        CommitView { message: self.message@, seconds: self.seconds }
    }
}

/// The views of a sequence of commits, element by element.
pub open spec fn commit_views(s: Seq<CommitRecord>) -> Seq<CommitView> {
    s.map_values(|c: CommitRecord| c@)
}

/// The dates of a sequence of activities.
pub open spec fn dates_of(s: Seq<Activity>) -> Seq<Seq<char>> {
    s.map_values(|a: Activity| a.date@)
}

/// The character sequences of a sequence of strings.
pub open spec fn string_views(s: Seq<String>) -> Seq<Seq<char>> {
    s.map_values(|d: String| d@)
}

/// `x` placed into `t` right after the last commit that is not older than `x`.
pub open spec fn insert_by_time(t: Seq<CommitView>, x: CommitView) -> Seq<CommitView>
    decreases t.len(),
{
    if t.len() == 0 {
        seq![x]
    } else if x.seconds > t.last().seconds {
        insert_by_time(t.drop_last(), x).push(t.last())
    } else {
        t.push(x)
    }
}

/// The commits of `s`, newest first; commits of the same second keep their
/// order in `s`.
pub open spec fn newest_first(s: Seq<CommitView>) -> Seq<CommitView>
    decreases s.len(),
{
    if s.len() == 0 {
        s
    } else {
        insert_by_time(newest_first(s.drop_last()), s.last())
    }
}

/// No commit of `s` is older than a commit after it.
pub open spec fn is_newest_first(s: Seq<CommitView>) -> bool {
    forall|i: int, j: int| 0 <= i < j < s.len() ==> #[trigger] s[i].seconds >= #[trigger] s[j].seconds
}

/// The estimated duration of the commit at `i` in a newest-first `c`: the whole
/// minutes to the next older commit, at least 1, kept to 32 bits as a cast
/// keeps them; the oldest commit gets 1.
pub open spec fn duration_at(c: Seq<CommitView>, i: int) -> u32 {
    if i + 1 < c.len() {
        let minutes = (c[i].seconds - c[i + 1].seconds) / 60;
        let kept = (minutes % 0x1_0000_0000) as u32;
        if kept > 1 {
            kept
        } else {
            1
        }
    } else {
        1
    }
}

/// The activities for a newest-first `c` with the given dates: the commit at
/// `i` gets id `i + 1`, its message as name, and its estimated duration.
pub open spec fn from_commits(c: Seq<CommitView>, dates: Seq<Seq<char>>) -> Seq<ActivityView> {
    Seq::new(
        c.len(),
        |i: int|
            ActivityView {
                id: (i + 1) as u32,
                name: c[i].message,
                duration_minutes: duration_at(c, i),
                date: dates[i],
            },
    )
}

proof fn lemma_insert_by_time(t: Seq<CommitView>, x: CommitView)
    requires
        is_newest_first(t),
    ensures
        insert_by_time(t, x).to_multiset() =~= t.to_multiset().insert(x),
        is_newest_first(insert_by_time(t, x)),
    decreases t.len(),
{
    if t.len() == 0 {
        assert(seq![x] =~= t.push(x));
    } else if x.seconds > t.last().seconds {
        let d = t.drop_last();
        assert(is_newest_first(d)) by {
            assert forall|i: int, j: int| 0 <= i < j < d.len() implies #[trigger] d[i].seconds >= #[trigger] d[j].seconds by {
                assert(d[i] == t[i] && d[j] == t[j]);
            }
        }
        lemma_insert_by_time(d, x);
        assert(d.push(t.last()) =~= t);
        let r = insert_by_time(d, x);
        assert forall|k: int| 0 <= k < r.len() implies #[trigger] r[k].seconds >= t.last().seconds by {
            assert(r.to_multiset().count(r[k]) > 0);
            if r[k] != x {
                assert(d.to_multiset().count(r[k]) > 0);
                assert(d.contains(r[k]));
                let i = choose|i: int| 0 <= i < d.len() && d[i] == r[k];
                assert(t[i] == d[i]);
            }
        }
        assert forall|i: int, j: int| 0 <= i < j < r.len() + 1 implies #[trigger] r.push(t.last())[i].seconds >= #[trigger] r.push(t.last())[j].seconds by {
            assert(r.push(t.last())[i] == r[i]);
            if j < r.len() {
                assert(r.push(t.last())[j] == r[j]);
            }
        }
    } else {
        assert forall|i: int, j: int| 0 <= i < j < t.len() + 1 implies #[trigger] t.push(x)[i].seconds >= #[trigger] t.push(x)[j].seconds by {
            assert(t.push(x)[i] == t[i]);
            if j < t.len() {
                assert(t.push(x)[j] == t[j]);
            } else if i < t.len() - 1 {
                assert(t[i].seconds >= t[t.len() - 1].seconds);
            }
        }
    }
}

/// Ordering newest first keeps every commit and yields a newest-first sequence.
pub proof fn lemma_newest_first(s: Seq<CommitView>)
    ensures
        newest_first(s).to_multiset() =~= s.to_multiset(),
        is_newest_first(newest_first(s)),
    decreases s.len(),
{
    if s.len() > 0 {
        lemma_newest_first(s.drop_last());
        lemma_insert_by_time(newest_first(s.drop_last()), s.last());
        assert(s.drop_last().push(s.last()) =~= s);
    }
}

/// The commits of `v`, newest first; commits of the same second keep their order.
pub fn order_newest_first(v: &Vec<CommitRecord>) -> (r: Vec<CommitRecord>)
    ensures
        commit_views(r@) == newest_first(commit_views(v@)),
{
    let mut out: Vec<CommitRecord> = Vec::new();
    let mut i: usize = 0;
    while i < v.len()
        invariant
            i <= v.len(),
            commit_views(out@) == newest_first(commit_views(v@).take(i as int)),
        decreases v.len() - i,
    {
        let x = CommitRecord { message: v[i].message.clone(), seconds: v[i].seconds };
        let ghost u = commit_views(out@);
        proof {
            assert(commit_views(v@).take(i + 1).drop_last() =~= commit_views(v@).take(i as int));
            assert(commit_views(v@).take(i + 1).last() == x@);
            assert(u.take(u.len() as int) =~= u);
            assert(u.skip(u.len() as int) =~= Seq::<CommitView>::empty());
        }
        let mut j: usize = out.len();
        while j > 0 && x.seconds > out[j - 1].seconds
            invariant
                j <= out.len(),
                u == commit_views(out@),
                insert_by_time(u, x@) == insert_by_time(u.take(j as int), x@) + u.skip(j as int),
            decreases j,
        {
            proof {
                assert(u.take(j as int).drop_last() =~= u.take(j - 1));
                assert(u.take(j as int).last() == u[j - 1]);
                assert(insert_by_time(u.take(j - 1), x@).push(u[j - 1]) + u.skip(j as int)
                    =~= insert_by_time(u.take(j - 1), x@) + u.skip(j - 1));
            }
            j = j - 1;
        }
        proof {
            if j > 0 {
                assert(u.take(j as int).last() == u[j - 1]);
            }
            assert(insert_by_time(u.take(j as int), x@) + u.skip(j as int) =~= u.insert(
                j as int,
                x@,
            ));
        }
        out.insert(j, x);
        proof {
            assert(commit_views(out@) =~= u.insert(j as int, x@));
        }
        i = i + 1;
    }
    proof {
        assert(commit_views(v@).take(i as int) =~= commit_views(v@));
    }
    out
}

/// The activities for the newest-first commits `c`, with `dates[i]` as the
/// date of the activity of `c[i]`.
pub fn activities_from_commits(c: &Vec<CommitRecord>, dates: &Vec<String>) -> (r: Vec<Activity>)
    requires
        is_newest_first(commit_views(c@)),
        dates@.len() == c@.len(),
        c@.len() <= u32::MAX,
    ensures
        views(r@) == from_commits(commit_views(c@), string_views(dates@)),
{
    let ghost cv = commit_views(c@);
    let ghost dv = string_views(dates@);
    let n = c.len();
    let mut out: Vec<Activity> = Vec::new();
    let mut i: usize = 0;
    while i < n
        invariant
            n == c@.len(),
            n == dates@.len(),
            n <= u32::MAX,
            i <= n,
            cv == commit_views(c@),
            dv == string_views(dates@),
            is_newest_first(cv),
            views(out@) == from_commits(cv, dv).take(i as int),
        decreases n - i,
    {
        let minutes: u32 = if i + 1 < n {
            assert(cv[i as int].seconds >= cv[i + 1].seconds);
            let gap = (c[i].seconds as i128 - c[i + 1].seconds as i128) as u64;
            let kept = ((gap / 60) % 0x1_0000_0000) as u32;
            if kept > 1 {
                kept
            } else {
                1
            }
        } else {
            1
        };
        let a = Activity {
            id: (i + 1) as u32,
            name: c[i].message.clone(),
            duration_minutes: minutes,
            date: dates[i].clone(),
        };
        let ghost before = out@;
        out.push(a);
        proof {
            assert(a@ == from_commits(cv, dv)[i as int]);
            assert(views(out@) =~= views(before).push(a@));
            assert(views(out@) =~= from_commits(cv, dv).take(i + 1));
        }
        i = i + 1;
    }
    proof {
        assert(from_commits(cv, dv).take(n as int) =~= from_commits(cv, dv));
    }
    out
}

/// The activities for a batch of commits: ordered newest first, numbered from
/// 1, each with its estimated duration and its date in the machine's time
/// zone. `None` when a commit's time lies outside the calendar's range.
pub fn get_commit_activities(commits: &Vec<CommitRecord>) -> (r: Option<Vec<Activity>>)
    requires
        commits@.len() <= u32::MAX,
    ensures
        r is Some <==> forall|i: int|
            0 <= i < commits@.len() ==> representable_timestamp(#[trigger] commits@[i].seconds as int),
        r matches Some(v) ==> views(v@) == from_commits(
            newest_first(commit_views(commits@)),
            dates_of(v@),
        ),
{
    let ordered = order_newest_first(commits);
    let ghost cv = commit_views(commits@);
    let ghost ov = commit_views(ordered@);
    proof {
        lemma_newest_first(cv);
        assert(ov.len() == cv.len()) by {
            assert(ov.to_multiset().len() == cv.to_multiset().len());
        }
    }
    let mut dates: Vec<String> = Vec::new();
    let mut i: usize = 0;
    while i < ordered.len()
        invariant
            i <= ordered.len(),
            ov == commit_views(ordered@),
            cv == commit_views(commits@),
            ov.len() == cv.len(),
            ov.to_multiset() =~= cv.to_multiset(),
            dates@.len() == i,
            forall|k: int| 0 <= k < i ==> representable_timestamp(#[trigger] ov[k].seconds as int),
        decreases ordered.len() - i,
    {
        match local_date_of(ordered[i].seconds) {
            Some(d) => dates.push(d),
            None => {
                proof {
                    assert(ov.to_multiset().count(ov[i as int]) > 0);
                    assert(cv.to_multiset().count(ov[i as int]) > 0);
                    assert(cv.contains(ov[i as int]));
                    let k = choose|k: int| 0 <= k < cv.len() && cv[k] == ov[i as int];
                    assert(cv[k].seconds == commits@[k].seconds);
                }
                return None;
            },
        }
        i = i + 1;
    }
    proof {
        assert forall|k: int| 0 <= k < commits@.len() implies representable_timestamp(#[trigger] commits@[k].seconds as int) by {
            assert(cv[k].seconds == commits@[k].seconds);
            assert(cv.to_multiset().count(cv[k]) > 0);
            assert(ov.contains(cv[k]));
        }
    }
    let out = activities_from_commits(&ordered, &dates);
    proof {
        let dv = string_views(dates@);
        assert(views(out@).len() == out@.len());
        assert(from_commits(ov, dv).len() == dv.len());
        assert forall|k: int| 0 <= k < out@.len() implies #[trigger] dates_of(out@)[k] == dv[k] by {
            assert(views(out@)[k] == from_commits(ov, dv)[k]);
            assert(views(out@)[k] == out@[k]@);
        }
        assert(dates_of(out@) =~= dv);
    }
    Some(out)
}

} // verus!
