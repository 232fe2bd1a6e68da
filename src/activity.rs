use vstd::prelude::*;

verus! {

/// One tracked activity: an id unique within its store, a display name, a
/// duration in minutes and a calendar date written `YYYY-MM-DD`.
#[derive(Debug, Clone)]
pub struct Activity {
    pub id: u32,
    pub name: String,
    pub duration_minutes: u32,
    pub date: String,
}

/// The mathematical value of an [`Activity`]: its strings as character sequences.
pub struct ActivityView {
    pub id: u32,
    pub name: Seq<char>,
    pub duration_minutes: u32,
    pub date: Seq<char>,
}

impl View for Activity {
    type V = ActivityView;

    open spec fn view(&self) -> ActivityView {
        ActivityView {
            id: self.id,
            name: self.name@,
            duration_minutes: self.duration_minutes,
            date: self.date@,
        }
    }
}

/// The views of a sequence of activities, element by element.
pub open spec fn views(s: Seq<Activity>) -> Seq<ActivityView> {
    s.map_values(|a: Activity| a@)
}

/// The largest id in `s`, or 0 when `s` is empty.
pub open spec fn max_id(s: Seq<ActivityView>) -> int
    decreases s.len(),
{
    if s.len() == 0 {
        0
    } else {
        let m = max_id(s.drop_last());
        if s.last().id > m {
            s.last().id as int
        } else {
            m
        }
    }
}

/// No two records of `s` carry the same id.
pub open spec fn ids_unique(s: Seq<ActivityView>) -> bool {
    forall|i: int, j: int| 0 <= i < j < s.len() ==> #[trigger] s[i].id != #[trigger] s[j].id
}

/// The id that the next created activity receives: one more than the largest
/// id in the store (1 for an empty store), when that still fits in a `u32`.
pub open spec fn next_id_of(s: Seq<ActivityView>) -> Option<u32> {
    if max_id(s) < u32::MAX {
        Some((max_id(s) + 1) as u32)
    } else {
        None
    }
}

impl Activity {
    /// An activity with the given fields.
    pub fn new(id: u32, name: &str, duration_minutes: u32, date: &str) -> (r: Activity)
        ensures
            r@ == (ActivityView { id, name: name@, duration_minutes, date: date@ }),
    {
        Activity { id, name: name.to_owned(), duration_minutes, date: date.to_owned() }
    }

    pub fn id(&self) -> (r: u32)
        ensures
            r == self.id,
    {
        self.id
    }

    pub fn name(&self) -> (r: &str)
        ensures
            r@ == self.name@,
    {
        self.name.as_str()
    }

    pub fn duration_minutes(&self) -> (r: u32)
        ensures
            r == self.duration_minutes,
    {
        self.duration_minutes
    }

    /// A field-by-field copy.
    pub fn duplicate(&self) -> (r: Activity)
        ensures
            r@ == self@,
    {
        Activity {
            id: self.id,
            name: self.name.clone(),
            duration_minutes: self.duration_minutes,
            date: self.date.clone(),
        }
    }
}

/// `max_id` is an upper bound on the ids of `s`, reached by one of them when
/// `s` is not empty.
pub proof fn lemma_max_id_bounds(s: Seq<ActivityView>)
    ensures
        0 <= max_id(s) <= u32::MAX,
        forall|i: int| 0 <= i < s.len() ==> s[i].id <= max_id(s),
        s.len() > 0 ==> exists|i: int| 0 <= i < s.len() && s[i].id == max_id(s),
    decreases s.len(),
{
    if s.len() > 0 {
        lemma_max_id_bounds(s.drop_last());
        assert forall|i: int| 0 <= i < s.len() implies s[i].id <= max_id(s) by {
            if i < s.len() - 1 {
                assert(s[i] == s.drop_last()[i]);
            }
        }
        if s.last().id <= max_id(s.drop_last()) && s.len() > 1 {
            let i = choose|i: int| 0 <= i < s.len() - 1 && s.drop_last()[i].id == max_id(s.drop_last());
            assert(s[i] == s.drop_last()[i]);
            assert(s[i].id == max_id(s));
        } else {
            assert(s[s.len() - 1].id == max_id(s));
        }
    }
}

/// The id for a new activity in `store`, or `None` when the largest id in use
/// is already `u32::MAX`.
pub fn next_id(store: &Vec<Activity>) -> (r: Option<u32>)
    ensures
        r == next_id_of(views(store@)),
        r matches Some(id) ==> forall|i: int| 0 <= i < store@.len() ==> #[trigger] store@[i].id < id,
{
    let mut m: u32 = 0;
    let mut i: usize = 0;
    while i < store.len()
        invariant
            i <= store.len(),
            m == max_id(views(store@).subrange(0, i as int)),
        decreases store.len() - i,
    {
        proof {
            assert(views(store@).subrange(0, i + 1).drop_last() == views(store@).subrange(0, i as int));
        }
        if store[i].id > m {
            m = store[i].id;
        }
        i = i + 1;
    }
    proof {
        assert(views(store@).subrange(0, i as int) == views(store@));
        lemma_max_id_bounds(views(store@));
        assert forall|k: int| 0 <= k < store@.len() implies #[trigger] store@[k].id <= m by {
            assert(views(store@)[k].id == store@[k].id);
        }
    }
    if m < u32::MAX {
        Some(m + 1)
    } else {
        None
    }
}

} // verus!
