use vstd::prelude::*;
use crate::activity::{Activity, ActivityView, views};

verus! {

/// How a row of the activity table is drawn.
#[derive(Clone, Copy, Debug, PartialEq, Eq, Structural)]
pub enum RowStyle {
    /// The selected row.
    Highlighted,
    /// An even row that is not selected.
    Striped,
    /// An odd row that is not selected.
    Plain,
}

/// The table of activities, with one highlighted row.
pub struct ActivityTable;

impl ActivityTable {
    /// The style of row `index` when row `selected` is highlighted.
    pub fn row_style(index: usize, selected: usize) -> (r: RowStyle)
        ensures
            r == (if index == selected {
                RowStyle::Highlighted
            } else if index % 2 == 0 {
                RowStyle::Striped
            } else {
                RowStyle::Plain
            }),
    {
        if index == selected {
            RowStyle::Highlighted
        } else if index % 2 == 0 {
            RowStyle::Striped
        } else {
            RowStyle::Plain
        }
    }
}

/// The largest duration in `s`, or 0 when `s` is empty.
pub open spec fn max_minutes(s: Seq<ActivityView>) -> int
    decreases s.len(),
{
    if s.len() == 0 {
        0
    } else if s.last().duration_minutes > max_minutes(s.drop_last()) {
        s.last().duration_minutes as int
    } else {
        max_minutes(s.drop_last())
    }
}

/// The top of the statistics chart's scale: the largest duration shown, and
/// at least 1.
pub fn chart_scale(v: &Vec<Activity>) -> (r: u64)
    ensures
        r == (if max_minutes(views(v@)) > 1 {
            max_minutes(views(v@))
        } else {
            1
        }),
{
    let mut m: u32 = 0;
    let mut i: usize = 0;
    while i < v.len()
        invariant
            i <= v.len(),
            m == max_minutes(views(v@).take(i as int)),
        decreases v.len() - i,
    {
        proof {
            assert(views(v@).take(i + 1).drop_last() =~= views(v@).take(i as int));
        }
        if v[i].duration_minutes > m {
            m = v[i].duration_minutes;
        }
        i = i + 1;
    }
    proof {
        assert(views(v@).take(i as int) =~= views(v@));
    }
    if m > 1 {
        m as u64
    } else {
        1
    }
}

} // verus!
