use vstd::prelude::*;
use crate::activity::ActivityView;
use crate::projection::{
    SortMode,
    lex_lt,
    precedes,
    tied,
    insert_sorted,
    stable_sort,
    is_sorted,
    in_bounds,
    within,
    projection,
};

verus! {

broadcast use {vstd::seq_lib::group_to_multiset_ensures, vstd::multiset::group_multiset_axioms};

proof fn lemma_lex_irreflexive(a: Seq<char>)
    ensures
        !lex_lt(a, a),
    decreases a.len(),
{
    if a.len() > 0 {
        lemma_lex_irreflexive(a.drop_first());
    }
}

proof fn lemma_lex_transitive(a: Seq<char>, b: Seq<char>, c: Seq<char>)
    requires
        lex_lt(a, b),
        lex_lt(b, c),
    ensures
        lex_lt(a, c),
    decreases a.len(),
{
    if a.len() > 0 && b.len() > 0 && c.len() > 0 && a[0] == b[0] && b[0] == c[0] {
        lemma_lex_transitive(a.drop_first(), b.drop_first(), c.drop_first());
    }
}

proof fn lemma_lex_total(a: Seq<char>, b: Seq<char>)
    requires
        !lex_lt(a, b),
        !lex_lt(b, a),
    ensures
        a == b,
    decreases a.len(),
{
    if a.len() > 0 && b.len() > 0 {
        if a[0] == b[0] {
            lemma_lex_total(a.drop_first(), b.drop_first());
            assert(a =~= seq![a[0]] + a.drop_first());
            assert(b =~= seq![b[0]] + b.drop_first());
        }
    } else {
        assert(a =~= b);
    }
}

proof fn lemma_lex_asymmetric(a: Seq<char>, b: Seq<char>)
    requires
        lex_lt(a, b),
    ensures
        !lex_lt(b, a),
{
    if lex_lt(b, a) {
        lemma_lex_transitive(a, b, a);
        lemma_lex_irreflexive(a);
    }
}

/// Strict precedence excludes a tie and the converse precedence.
proof fn lemma_precedes_strict(mode: SortMode, a: ActivityView, b: ActivityView)
    requires
        precedes(mode, a, b),
    ensures
        !tied(mode, a, b),
        !precedes(mode, b, a),
{
    match mode {
        SortMode::ByDate => {
            lemma_lex_asymmetric(b.date, a.date);
            lemma_lex_irreflexive(a.date);
        },
        SortMode::ByDuration => {},
        SortMode::ByName => {
            lemma_lex_asymmetric(a.name, b.name);
            lemma_lex_irreflexive(a.name);
        },
    }
}

/// Two elements of which neither precedes the other are tied.
proof fn lemma_precedes_total(mode: SortMode, a: ActivityView, b: ActivityView)
    requires
        !precedes(mode, a, b),
        !precedes(mode, b, a),
    ensures
        tied(mode, a, b),
{
    match mode {
        SortMode::ByDate => lemma_lex_total(a.date, b.date),
        SortMode::ByDuration => {},
        SortMode::ByName => lemma_lex_total(a.name, b.name),
    }
}

proof fn lemma_precedes_transitive(mode: SortMode, a: ActivityView, b: ActivityView, c: ActivityView)
    requires
        precedes(mode, a, b),
        precedes(mode, b, c),
    ensures
        precedes(mode, a, c),
{
    match mode {
        SortMode::ByDate => lemma_lex_transitive(c.date, b.date, a.date),
        SortMode::ByDuration => {},
        SortMode::ByName => lemma_lex_transitive(a.name, b.name, c.name),
    }
}

proof fn lemma_insert_multiset(t: Seq<ActivityView>, x: ActivityView, mode: SortMode)
    ensures
        insert_sorted(t, x, mode).to_multiset() =~= t.to_multiset().insert(x),
    decreases t.len(),
{
    if t.len() == 0 {
        assert(seq![x] =~= t.push(x));
    } else if precedes(mode, x, t.last()) {
        lemma_insert_multiset(t.drop_last(), x, mode);
        assert(t.drop_last().push(t.last()) =~= t);
    }
}

/// Sorting keeps every element, as often as it occurs.
pub proof fn lemma_sort_multiset(s: Seq<ActivityView>, mode: SortMode)
    ensures
        stable_sort(s, mode).to_multiset() =~= s.to_multiset(),
    decreases s.len(),
{
    if s.len() > 0 {
        lemma_sort_multiset(s.drop_last(), mode);
        lemma_insert_multiset(stable_sort(s.drop_last(), mode), s.last(), mode);
        assert(s.drop_last().push(s.last()) =~= s);
    }
}

proof fn lemma_insert_keeps_sorted(t: Seq<ActivityView>, x: ActivityView, mode: SortMode)
    requires
        is_sorted(t, mode),
    ensures
        is_sorted(insert_sorted(t, x, mode), mode),
    decreases t.len(),
{
    if t.len() == 0 {
    } else if precedes(mode, x, t.last()) {
        let d = t.drop_last();
        assert(is_sorted(d, mode)) by {
            assert forall|i: int, j: int| 0 <= i < j < d.len() implies !precedes(mode, #[trigger] d[j], #[trigger] d[i]) by {
                assert(d[i] == t[i] && d[j] == t[j]);
            }
        }
        lemma_insert_keeps_sorted(d, x, mode);
        lemma_insert_multiset(d, x, mode);
        let r = insert_sorted(d, x, mode);
        let last = t.last();
        lemma_precedes_strict(mode, x, last);
        assert forall|k: int| 0 <= k < r.len() implies !precedes(mode, last, #[trigger] r[k]) by {
            assert(r.to_multiset().count(r[k]) > 0);
            if r[k] != x {
                assert(d.to_multiset().count(r[k]) > 0);
                assert(d.contains(r[k]));
                let i = choose|i: int| 0 <= i < d.len() && d[i] == r[k];
                assert(t[i] == d[i]);
                assert(t[t.len() - 1] == last);
            }
        }
        assert(is_sorted(r.push(last), mode)) by {
            assert forall|i: int, j: int| 0 <= i < j < r.len() + 1 implies !precedes(mode, #[trigger] r.push(last)[j], #[trigger] r.push(last)[i]) by {
                if j == r.len() {
                    assert(r.push(last)[i] == r[i]);
                } else {
                    assert(r.push(last)[i] == r[i] && r.push(last)[j] == r[j]);
                }
            }
        }
    } else {
        let r = t.push(x);
        let last = t.last();
        assert forall|i: int, j: int| 0 <= i < j < r.len() implies !precedes(mode, #[trigger] r[j], #[trigger] r[i]) by {
            assert(r[i] == t[i]);
            if j == t.len() {
                if precedes(mode, x, t[i]) {
                    if i < t.len() - 1 {
                        assert(!precedes(mode, t[t.len() - 1], t[i]));
                    }
                    if precedes(mode, last, x) {
                        lemma_precedes_transitive(mode, last, x, t[i]);
                    } else {
                        lemma_precedes_total(mode, x, last);
                    }
                }
            } else {
                assert(r[j] == t[j]);
            }
        }
    }
}

/// The result of sorting is sorted.
pub proof fn lemma_sort_is_sorted(s: Seq<ActivityView>, mode: SortMode)
    ensures
        is_sorted(stable_sort(s, mode), mode),
    decreases s.len(),
{
    if s.len() > 0 {
        lemma_sort_is_sorted(s.drop_last(), mode);
        lemma_insert_keeps_sorted(stable_sort(s.drop_last(), mode), s.last(), mode);
    }
}

/// The elements of `s` tied with `x` in `mode`, in their order in `s`.
pub open spec fn ties_of(s: Seq<ActivityView>, mode: SortMode, x: ActivityView) -> Seq<ActivityView>
    decreases s.len(),
{
    if s.len() == 0 {
        s
    } else if tied(mode, s.last(), x) {
        ties_of(s.drop_last(), mode, x).push(s.last())
    } else {
        ties_of(s.drop_last(), mode, x)
    }
}

proof fn lemma_insert_ties(t: Seq<ActivityView>, y: ActivityView, mode: SortMode, x: ActivityView)
    ensures
        ties_of(insert_sorted(t, y, mode), mode, x) == if tied(mode, y, x) {
            ties_of(t, mode, x).push(y)
        } else {
            ties_of(t, mode, x)
        },
    decreases t.len(),
{
    if t.len() == 0 {
        assert(seq![y].drop_last() =~= t);
    } else if precedes(mode, y, t.last()) {
        let d = t.drop_last();
        let r = insert_sorted(d, y, mode);
        lemma_insert_ties(d, y, mode, x);
        assert(r.push(t.last()).drop_last() =~= r);
        lemma_precedes_strict(mode, y, t.last());
    } else {
        assert(t.push(y).drop_last() =~= t);
    }
}

/// Sorting is stable: the elements tied with any `x` come out in the order in
/// which they went in.
pub proof fn lemma_sort_keeps_tie_order(s: Seq<ActivityView>, mode: SortMode, x: ActivityView)
    ensures
        ties_of(stable_sort(s, mode), mode, x) == ties_of(s, mode, x),
    decreases s.len(),
{
    if s.len() > 0 {
        lemma_sort_keeps_tie_order(s.drop_last(), mode, x);
        lemma_insert_ties(stable_sort(s.drop_last(), mode), s.last(), mode, x);
    }
}

/// Sorting a sequence that is already sorted leaves it as it is.
pub proof fn lemma_sort_of_sorted(s: Seq<ActivityView>, mode: SortMode)
    requires
        is_sorted(s, mode),
    ensures
        stable_sort(s, mode) == s,
    decreases s.len(),
{
    if s.len() > 0 {
        let d = s.drop_last();
        assert(is_sorted(d, mode)) by {
            assert forall|i: int, j: int| 0 <= i < j < d.len() implies !precedes(mode, #[trigger] d[j], #[trigger] d[i]) by {
                assert(d[i] == s[i] && d[j] == s[j]);
            }
        }
        lemma_sort_of_sorted(d, mode);
        if d.len() > 0 {
            assert(d.last() == s[s.len() - 2]);
        }
        assert(d.push(s.last()) =~= s);
    }
}

/// Sorting twice in the same mode gives what sorting once gives.
pub proof fn lemma_sort_idempotent(s: Seq<ActivityView>, mode: SortMode)
    ensures
        stable_sort(stable_sort(s, mode), mode) == stable_sort(s, mode),
{
    lemma_sort_is_sorted(s, mode);
    lemma_sort_of_sorted(stable_sort(s, mode), mode);
}

proof fn lemma_within_multiset(s: Seq<ActivityView>, min: Option<u32>, max: Option<u32>)
    ensures
        forall|a: ActivityView| #[trigger] within(s, min, max).to_multiset().count(a) == if in_bounds(a, min, max) {
            s.to_multiset().count(a)
        } else {
            0
        },
    decreases s.len(),
{
    if s.len() > 0 {
        let d = s.drop_last();
        lemma_within_multiset(d, min, max);
        assert(d.push(s.last()) =~= s);
        assert(s.to_multiset() =~= d.to_multiset().insert(s.last()));
        if in_bounds(s.last(), min, max) {
            assert(within(s, min, max).to_multiset() =~= within(d, min, max).to_multiset().insert(
                s.last(),
            ));
        } else {
            assert(within(s, min, max) == within(d, min, max));
        }
        assert forall|a: ActivityView| #[trigger] within(s, min, max).to_multiset().count(a) == if in_bounds(a, min, max) {
            s.to_multiset().count(a)
        } else {
            0
        } by {
            assert(within(d, min, max).to_multiset().count(a) == if in_bounds(a, min, max) {
                d.to_multiset().count(a)
            } else {
                0
            });
        }
    } else {
        assert forall|a: ActivityView| #[trigger] within(s, min, max).to_multiset().count(a) == 0 by {
            assert(!within(s, min, max).contains(a));
        }
        assert forall|a: ActivityView| #[trigger] s.to_multiset().count(a) == 0 by {
            assert(!s.contains(a));
        }
    }
}

/// The listing holds exactly the activities of the source that lie within the
/// bounds: each one listed satisfies both bounds, and each one left out
/// violates at least one. Each is listed as often as it occurs in the source.
pub proof fn lemma_projection_bounds(
    s: Seq<ActivityView>,
    min: Option<u32>,
    max: Option<u32>,
    mode: SortMode,
)
    ensures
        forall|a: ActivityView| #[trigger] projection(s, min, max, mode).contains(a) ==> in_bounds(a, min, max),
        forall|a: ActivityView| s.contains(a) && !#[trigger] projection(s, min, max, mode).contains(a) ==> !in_bounds(a, min, max),
        forall|a: ActivityView| #[trigger] projection(s, min, max, mode).to_multiset().count(a) == if in_bounds(a, min, max) {
            s.to_multiset().count(a)
        } else {
            0
        },
{
    lemma_within_multiset(s, min, max);
    lemma_sort_multiset(within(s, min, max), mode);
    assert forall|a: ActivityView| #[trigger] projection(s, min, max, mode).contains(a) implies in_bounds(a, min, max) by {
        assert(projection(s, min, max, mode).to_multiset().count(a) > 0);
    }
    assert forall|a: ActivityView| s.contains(a) && !#[trigger] projection(s, min, max, mode).contains(a) implies !in_bounds(a, min, max) by {
        if in_bounds(a, min, max) {
            assert(s.to_multiset().count(a) > 0);
            assert(projection(s, min, max, mode).to_multiset().count(a) > 0);
        }
    }
}

/// An activity added to the store whose duration lies strictly between the
/// bounds that are set is listed in the next projection.
pub proof fn lemma_added_activity_is_listed(
    store: Seq<ActivityView>,
    a: ActivityView,
    min: Option<u32>,
    max: Option<u32>,
    mode: SortMode,
)
    requires
        min matches Some(m) ==> m < a.duration_minutes,
        max matches Some(m) ==> a.duration_minutes < m,
    ensures
        projection(store.push(a), min, max, mode).contains(a),
{
    lemma_projection_bounds(store.push(a), min, max, mode);
    assert(store.push(a)[store.len() as int] == a);
    assert(store.push(a).contains(a));
}

} // verus!
