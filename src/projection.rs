use vstd::prelude::*;
use vstd::string::StrSliceExecFns;
use crate::activity::{Activity, ActivityView, views};

verus! {

/// The order in which the dashboard lists activities.
#[derive(Clone, Copy, Debug, PartialEq, Eq, Structural)]
pub enum SortMode {
    /// Newest date first (dates compared as strings).
    ByDate,
    /// Longest duration first.
    ByDuration,
    /// Names in ascending order.
    ByName,
}

/// Strict lexicographic order on character sequences, characters compared by
/// code point.
pub open spec fn lex_lt(a: Seq<char>, b: Seq<char>) -> bool
    decreases a.len(),
{
    if a.len() == 0 {
        b.len() > 0
    } else if b.len() == 0 {
        false
    } else if a[0] != b[0] {
        (a[0] as int) < (b[0] as int)
    } else {
        lex_lt(a.drop_first(), b.drop_first())
    }
}

/// `a` belongs strictly before `b` in `mode`.
pub open spec fn precedes(mode: SortMode, a: ActivityView, b: ActivityView) -> bool {
    match mode {
        SortMode::ByDate => lex_lt(b.date, a.date),
        SortMode::ByDuration => a.duration_minutes > b.duration_minutes,
        SortMode::ByName => lex_lt(a.name, b.name),
    }
}

/// `a` and `b` have the same sort key in `mode`.
pub open spec fn tied(mode: SortMode, a: ActivityView, b: ActivityView) -> bool {
    match mode {
        SortMode::ByDate => a.date == b.date,
        SortMode::ByDuration => a.duration_minutes == b.duration_minutes,
        SortMode::ByName => a.name == b.name,
    }
}

/// `x` placed into `t` right after the last element that it does not strictly
/// precede.
pub open spec fn insert_sorted(t: Seq<ActivityView>, x: ActivityView, mode: SortMode) -> Seq<
    ActivityView,
>
    decreases t.len(),
{
    if t.len() == 0 {
        seq![x]
    } else if precedes(mode, x, t.last()) {
        insert_sorted(t.drop_last(), x, mode).push(t.last())
    } else {
        t.push(x)
    }
}

/// The stable sort of `s` in `mode`: elements with equal keys keep their
/// relative order.
pub open spec fn stable_sort(s: Seq<ActivityView>, mode: SortMode) -> Seq<ActivityView>
    decreases s.len(),
{
    if s.len() == 0 {
        s
    } else {
        insert_sorted(stable_sort(s.drop_last(), mode), s.last(), mode)
    }
}

/// No element of `s` strictly precedes an element before it.
pub open spec fn is_sorted(s: Seq<ActivityView>, mode: SortMode) -> bool {
    forall|i: int, j: int| 0 <= i < j < s.len() ==> !precedes(mode, #[trigger] s[j], #[trigger] s[i])
}

/// The duration of `a` lies within both bounds that are set; bounds are inclusive.
pub open spec fn in_bounds(a: ActivityView, min: Option<u32>, max: Option<u32>) -> bool {
    &&& (min matches Some(m) ==> a.duration_minutes >= m)
    &&& (max matches Some(m) ==> a.duration_minutes <= m)
}

/// The elements of `s` within the bounds, in their order in `s`.
pub open spec fn within(s: Seq<ActivityView>, min: Option<u32>, max: Option<u32>) -> Seq<
    ActivityView,
>
    decreases s.len(),
{
    if s.len() == 0 {
        s
    } else if in_bounds(s.last(), min, max) {
        within(s.drop_last(), min, max).push(s.last())
    } else {
        within(s.drop_last(), min, max)
    }
}

/// What the dashboard lists for `s`: the activities within the bounds, stably
/// sorted in `mode`.
pub open spec fn projection(
    s: Seq<ActivityView>,
    min: Option<u32>,
    max: Option<u32>,
    mode: SortMode,
) -> Seq<ActivityView> {
    stable_sort(within(s, min, max), mode)
}

/// The sum of the durations in `s`.
pub open spec fn sum_minutes(s: Seq<ActivityView>) -> int
    decreases s.len(),
{
    if s.len() == 0 {
        0
    } else {
        sum_minutes(s.drop_last()) + s.last().duration_minutes
    }
}

/// Compares two strings in lexicographic order of their characters.
pub fn str_less(a: &str, b: &str) -> (r: bool)
    ensures
        r == lex_lt(a@, b@),
{
    let la = a.unicode_len();
    let lb = b.unicode_len();
    let mut i: usize = 0;
    proof {
        assert(a@.skip(0) =~= a@);
        assert(b@.skip(0) =~= b@);
    }
    while i < la && i < lb
        invariant
            la == a@.len(),
            lb == b@.len(),
            i <= la,
            i <= lb,
            lex_lt(a@, b@) == lex_lt(a@.skip(i as int), b@.skip(i as int)),
        decreases la - i,
    {
        let ca = a.get_char(i);
        let cb = b.get_char(i);
        if ca != cb {
            return (ca as u32) < (cb as u32);
        }
        proof {
            assert(a@.skip(i as int).drop_first() =~= a@.skip(i + 1));
            assert(b@.skip(i as int).drop_first() =~= b@.skip(i + 1));
        }
        i = i + 1;
    }
    i < lb
}

/// Whether `a` belongs strictly before `b` in `mode`.
pub fn comes_before(mode: SortMode, a: &Activity, b: &Activity) -> (r: bool)
    ensures
        r == precedes(mode, a@, b@),
{
    match mode {
        SortMode::ByDate => str_less(b.date.as_str(), a.date.as_str()),
        SortMode::ByDuration => a.duration_minutes > b.duration_minutes,
        SortMode::ByName => str_less(a.name.as_str(), b.name.as_str()),
    }
}

/// The activities of `source` whose duration lies within the bounds that are
/// set, in their order in `source`.
pub fn filter_by_duration(source: &Vec<Activity>, min: Option<u32>, max: Option<u32>) -> (r: Vec<
    Activity,
>)
    ensures
        views(r@) == within(views(source@), min, max),
{
    let mut out: Vec<Activity> = Vec::new();
    let mut i: usize = 0;
    while i < source.len()
        invariant
            i <= source.len(),
            views(out@) == within(views(source@).take(i as int), min, max),
        decreases source.len() - i,
    {
        let a = &source[i];
        proof {
            assert(views(source@).take(i + 1).drop_last() =~= views(source@).take(i as int));
            assert(views(source@).take(i + 1).last() == a@);
        }
        let keep = match min {
            Some(m) => a.duration_minutes >= m,
            None => true,
        } && match max {
            Some(m) => a.duration_minutes <= m,
            None => true,
        };
        if keep {
            let c = a.duplicate();
            let ghost before = out@;
            out.push(c);
            proof {
                assert(views(out@) =~= views(before).push(c@));
            }
        }
        i = i + 1;
    }
    proof {
        assert(views(source@).take(i as int) =~= views(source@));
    }
    out
}

/// The activities of `v` stably sorted in `mode`.
pub fn sort_activities(v: &Vec<Activity>, mode: SortMode) -> (r: Vec<Activity>)
    ensures
        views(r@) == stable_sort(views(v@), mode),
{
    let mut out: Vec<Activity> = Vec::new();
    let mut i: usize = 0;
    while i < v.len()
        invariant
            i <= v.len(),
            views(out@) == stable_sort(views(v@).take(i as int), mode),
        decreases v.len() - i,
    {
        let x = v[i].duplicate();
        let ghost u = views(out@);
        proof {
            assert(views(v@).take(i + 1).drop_last() =~= views(v@).take(i as int));
            assert(views(v@).take(i + 1).last() == x@);
            assert(u.take(u.len() as int) =~= u);
            assert(u.skip(u.len() as int) =~= Seq::<ActivityView>::empty());
        }
        let mut j: usize = out.len();
        while j > 0 && comes_before(mode, &x, &out[j - 1])
            invariant
                j <= out.len(),
                u == views(out@),
                insert_sorted(u, x@, mode) == insert_sorted(u.take(j as int), x@, mode) + u.skip(
                    j as int,
                ),
            decreases j,
        {
            proof {
                assert(u.take(j as int).drop_last() =~= u.take(j - 1));
                assert(u.take(j as int).last() == u[j - 1]);
                assert(insert_sorted(u.take(j - 1), x@, mode).push(u[j - 1]) + u.skip(j as int)
                    =~= insert_sorted(u.take(j - 1), x@, mode) + u.skip(j - 1));
            }
            j = j - 1;
        }
        proof {
            if j > 0 {
                assert(u.take(j as int).last() == u[j - 1]);
            }
            assert(insert_sorted(u.take(j as int), x@, mode) + u.skip(j as int) =~= u.insert(
                j as int,
                x@,
            ));
        }
        out.insert(j, x);
        proof {
            assert(views(out@) =~= u.insert(j as int, x@));
        }
        i = i + 1;
    }
    proof {
        assert(views(v@).take(i as int) =~= views(v@));
    }
    out
}

/// What the dashboard lists for `source`: the activities within the bounds,
/// stably sorted in `mode`.
pub fn project_view(source: &Vec<Activity>, min: Option<u32>, max: Option<u32>, mode: SortMode) -> (r:
    Vec<Activity>)
    ensures
        views(r@) == projection(views(source@), min, max, mode),
{
    let kept = filter_by_duration(source, min, max);
    sort_activities(&kept, mode)
}

/// The sum of the durations of `v`.
pub fn total_minutes(v: &Vec<Activity>) -> (r: u64)
    requires
        v@.len() <= u32::MAX,
    ensures
        r == sum_minutes(views(v@)),
{
    let mut total: u64 = 0;
    let mut i: usize = 0;
    while i < v.len()
        invariant
            i <= v.len(),
            v@.len() <= u32::MAX,
            total == sum_minutes(views(v@).take(i as int)),
            total <= i * (u32::MAX as int),
        decreases v.len() - i,
    {
        proof {
            assert(views(v@).take(i + 1).drop_last() =~= views(v@).take(i as int));
            assert((i + 1) * (u32::MAX as int) <= (u32::MAX as int) * (u32::MAX as int))
                by (nonlinear_arith)
                requires
                    i < u32::MAX,
            ;
        }
        total = total + v[i].duration_minutes as u64;
        i = i + 1;
    }
    proof {
        assert(views(v@).take(i as int) =~= views(v@));
    }
    total
}

} // verus!
