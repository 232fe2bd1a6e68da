use vstd::prelude::*;
use crate::activity::{Activity, ActivityView, views, next_id_of, ids_unique};
use crate::clock::local_today;
use crate::projection::{SortMode, projection, project_view};
use crate::store::{
    with_added,
    remove_first_id,
    first_with_id,
    holds_id,
    lemma_delete_removes_one,
    lemma_added_keeps_ids_unique,
    lemma_removal_keeps_ids_unique,
    add_activity_dated,
    remove_first_with_id,
};
use crate::text::{trimmed, decimal_u32, trim_text, parse_u32, collect_chars};
use crate::projection_proofs::{lemma_added_activity_is_listed, lemma_projection_bounds};

verus! {

/// One key press, as the dashboard reads it.
#[derive(Clone, Copy, Debug, PartialEq, Eq, Structural)]
pub enum Key {
    Char(char),
    Up,
    Down,
    Enter,
    Backspace,
    Esc,
    Other,
}

/// What the caller of the dashboard has to do after a key press.
#[derive(Clone, Copy, Debug, PartialEq, Eq, Structural)]
pub enum Effect {
    /// Nothing beyond drawing the next frame.
    Nothing,
    /// Leave the dashboard.
    Quit,
    /// The store changed: write it out. A failed write does not stop the dashboard.
    Persist,
    /// Fetch the commit-derived activities and hand them to `show_commits`.
    FetchCommits,
}

/// Which text the dashboard is reading, with what earlier steps entered.
#[derive(Debug, Clone)]
pub enum InputMode {
    Normal,
    EnteringName,
    EnteringDuration { name: String },
    EnteringFilterMin,
    EnteringFilterMax { min: u32 },
}

/// The mathematical value of an [`InputMode`].
pub enum ModeView {
    Normal,
    EnteringName,
    EnteringDuration(Seq<char>),
    EnteringFilterMin,
    EnteringFilterMax(u32),
}

impl View for InputMode {
    type V = ModeView;

    open spec fn view(&self) -> ModeView {
        match self {
            InputMode::Normal => ModeView::Normal,
            InputMode::EnteringName => ModeView::EnteringName,
            InputMode::EnteringDuration { name } => ModeView::EnteringDuration(name@),
            InputMode::EnteringFilterMin => ModeView::EnteringFilterMin,
            InputMode::EnteringFilterMax { min } => ModeView::EnteringFilterMax(*min),
        }
    }
}

/// The source of what the dashboard lists: the store, or a snapshot of
/// commit-derived activities taken when they were fetched.
#[derive(Debug, Clone)]
pub enum Overlay {
    Local,
    Commits(Vec<Activity>),
}

/// The dashboard's session state. It is never persisted.
#[derive(Debug, Clone)]
pub struct Dashboard {
    mode: InputMode,
    buffer: Vec<char>,
    selected: usize,
    filter_min: Option<u32>,
    filter_max: Option<u32>,
    sort_mode: SortMode,
    show_stats: bool,
    overlay: Overlay,
}

/// The mathematical value of a [`Dashboard`].
pub struct DashboardView {
    pub mode: ModeView,
    pub buffer: Seq<char>,
    pub selected: int,
    pub filter_min: Option<u32>,
    pub filter_max: Option<u32>,
    pub sort_mode: SortMode,
    pub show_stats: bool,
    /// The commit snapshot while it is shown.
    pub overlay: Option<Seq<ActivityView>>,
}

impl View for Dashboard {
    type V = DashboardView;

    closed spec fn view(&self) -> DashboardView {
        DashboardView {
            mode: self.mode@,
            buffer: self.buffer@,
            selected: self.selected as int,
            filter_min: self.filter_min,
            filter_max: self.filter_max,
            sort_mode: self.sort_mode,
            show_stats: self.show_stats,
            overlay: match self.overlay {
                Overlay::Local => None,
                Overlay::Commits(c) => Some(views(c@)),
            },
        }
    }
}

/// The state, the store and the effect after a key press.
pub struct Outcome {
    pub state: DashboardView,
    pub store: Seq<ActivityView>,
    pub effect: Effect,
}

/// What the dashboard lists in state `d` over `store`.
pub open spec fn listed(d: DashboardView, store: Seq<ActivityView>) -> Seq<ActivityView> {
    match d.overlay {
        Some(c) => c,
        None => projection(store, d.filter_min, d.filter_max, d.sort_mode),
    }
}

/// `sel` kept within `[0, len - 1]`, and 0 when `len` is 0.
pub open spec fn clamp(sel: int, len: int) -> int {
    if len <= 0 {
        0
    } else if sel >= len {
        len - 1
    } else if sel < 0 {
        0
    } else {
        sel
    }
}

/// The outcome with `d`'s selection clamped to what `d` lists over `store`.
pub open spec fn settle(d: DashboardView, store: Seq<ActivityView>, effect: Effect) -> Outcome {
    Outcome {
        state: DashboardView { selected: clamp(d.selected, listed(d, store).len() as int), ..d },
        store,
        effect,
    }
}

/// The order that the sort key moves on to.
pub open spec fn next_sort(m: SortMode) -> SortMode {
    match m {
        SortMode::ByDate => SortMode::ByDuration,
        SortMode::ByDuration => SortMode::ByName,
        SortMode::ByName => SortMode::ByDate,
    }
}

/// A number read from entered text, with text that is no number read as 0.
pub open spec fn number_or_zero(text: Seq<char>) -> u32 {
    match decimal_u32(text) {
        Some(v) => v,
        None => 0,
    }
}

/// The state in which the dashboard starts.
pub open spec fn initial_state() -> DashboardView {
    DashboardView {
        mode: ModeView::Normal,
        buffer: Seq::empty(),
        selected: 0,
        filter_min: None,
        filter_max: None,
        sort_mode: SortMode::ByDate,
        show_stats: false,
        overlay: None,
    }
}

/// Confirming the entered text `text` (already trimmed) in state `d`; `today`
/// dates a created activity.
pub open spec fn after_enter(
    d: DashboardView,
    text: Seq<char>,
    store: Seq<ActivityView>,
    today: Seq<char>,
) -> Outcome {
    let cleared = DashboardView { buffer: Seq::empty(), ..d };
    match d.mode {
        ModeView::Normal => settle(d, store, Effect::Nothing),
        ModeView::EnteringName => if text.len() > 0 {
            settle(DashboardView { mode: ModeView::EnteringDuration(text), ..cleared }, store, Effect::Nothing)
        } else {
            settle(d, store, Effect::Nothing)
        },
        ModeView::EnteringDuration(name) => {
            let minutes = number_or_zero(text);
            let back = DashboardView { mode: ModeView::Normal, ..cleared };
            if minutes > 0 && next_id_of(store) is Some {
                settle(back, with_added(store, name, minutes, today), Effect::Persist)
            } else {
                settle(back, store, Effect::Nothing)
            }
        },
        ModeView::EnteringFilterMin => {
            let m = number_or_zero(text);
            settle(
                DashboardView {
                    mode: ModeView::EnteringFilterMax(m),
                    filter_min: if m > 0 { Some(m) } else { None },
                    ..cleared
                },
                store,
                Effect::Nothing,
            )
        },
        ModeView::EnteringFilterMax(_) => {
            let m = number_or_zero(text);
            settle(
                DashboardView {
                    mode: ModeView::Normal,
                    filter_max: if m > 0 { Some(m) } else { None },
                    ..cleared
                },
                store,
                Effect::Nothing,
            )
        },
    }
}

/// A key press in the normal mode.
pub open spec fn after_normal_key(d: DashboardView, key: Key, store: Seq<ActivityView>) -> Outcome {
    let cleared = DashboardView { buffer: Seq::empty(), ..d };
    match key {
        Key::Char(c) => if c == 'q' {
            settle(d, store, Effect::Quit)
        } else if c == 'a' {
            settle(DashboardView { mode: ModeView::EnteringName, ..cleared }, store, Effect::Nothing)
        } else if c == 'd' {
            let v = listed(d, store);
            if d.overlay is None && 0 <= d.selected < v.len() {
                settle(d, remove_first_id(store, v[d.selected].id), Effect::Persist)
            } else {
                settle(d, store, Effect::Nothing)
            }
        } else if c == 'f' {
            settle(DashboardView { mode: ModeView::EnteringFilterMin, ..cleared }, store, Effect::Nothing)
        } else if c == 'r' {
            if d.overlay is Some {
                settle(DashboardView { overlay: None, ..d }, store, Effect::Nothing)
            } else {
                settle(DashboardView { filter_min: None, filter_max: None, ..d }, store, Effect::Nothing)
            }
        } else if c == 's' {
            settle(DashboardView { sort_mode: next_sort(d.sort_mode), ..d }, store, Effect::Nothing)
        } else if c == 'v' {
            settle(DashboardView { show_stats: !d.show_stats, ..d }, store, Effect::Nothing)
        } else if c == 'g' {
            settle(d, store, Effect::FetchCommits)
        } else {
            settle(d, store, Effect::Nothing)
        },
        Key::Up => if d.selected > 0 {
            settle(DashboardView { selected: d.selected - 1, ..d }, store, Effect::Nothing)
        } else {
            settle(d, store, Effect::Nothing)
        },
        Key::Down => if d.selected + 1 < listed(d, store).len() {
            settle(DashboardView { selected: d.selected + 1, ..d }, store, Effect::Nothing)
        } else {
            settle(d, store, Effect::Nothing)
        },
        _ => settle(d, store, Effect::Nothing),
    }
}

/// A key press in state `d` over `store`; `today` dates a created activity.
pub open spec fn after_key(d: DashboardView, key: Key, store: Seq<ActivityView>, today: Seq<char>) -> Outcome {
    match d.mode {
        ModeView::Normal => after_normal_key(d, key, store),
        _ => match key {
            Key::Enter => after_enter(d, trimmed(d.buffer), store, today),
            Key::Esc => settle(
                DashboardView { mode: ModeView::Normal, buffer: Seq::empty(), ..d },
                store,
                Effect::Nothing,
            ),
            Key::Backspace => if d.buffer.len() > 0 {
                settle(DashboardView { buffer: d.buffer.drop_last(), ..d }, store, Effect::Nothing)
            } else {
                settle(d, store, Effect::Nothing)
            },
            Key::Char(c) => settle(DashboardView { buffer: d.buffer.push(c), ..d }, store, Effect::Nothing),
            _ => settle(d, store, Effect::Nothing),
        },
    }
}

/// After any key press the selection points into what is listed, or is 0
/// when nothing is listed.
pub proof fn lemma_selection_in_range(d: DashboardView, key: Key, store: Seq<ActivityView>, today: Seq<char>)
    ensures
        ({
            let o = after_key(d, key, store, today);
            let n = listed(o.state, o.store).len();
            (n == 0 && o.state.selected == 0) || (0 <= o.state.selected < n)
        }),
{
}

/// Confirming a duration strictly between the bounds that are set, while the
/// store is listed, appends the new activity, and the next listing shows it.
pub proof fn lemma_entered_activity_is_listed(
    d: DashboardView,
    name: Seq<char>,
    text: Seq<char>,
    store: Seq<ActivityView>,
    today: Seq<char>,
)
    requires
        d.mode == ModeView::EnteringDuration(name),
        d.overlay is None,
        number_or_zero(text) > 0,
        next_id_of(store) is Some,
        d.filter_min matches Some(m) ==> m < number_or_zero(text),
        d.filter_max matches Some(m) ==> number_or_zero(text) < m,
    ensures
        ({
            let o = after_enter(d, text, store, today);
            let a = ActivityView {
                id: next_id_of(store)->0,
                name,
                duration_minutes: number_or_zero(text),
                date: today,
            };
            o.store == store.push(a) && listed(o.state, o.store).contains(a)
        }),
{
    let a = ActivityView {
        id: next_id_of(store)->0,
        name,
        duration_minutes: number_or_zero(text),
        date: today,
    };
    lemma_added_activity_is_listed(store, a, d.filter_min, d.filter_max, d.sort_mode);
}

/// The delete key, while the store is listed and a row is selected, removes
/// exactly one record: the first in the store that carries the selected row's
/// id. Every other record stays as it was, in order.
pub proof fn lemma_delete_key_removes_selected(d: DashboardView, store: Seq<ActivityView>, today: Seq<char>)
    requires
        d.mode is Normal,
        d.overlay is None,
        0 <= d.selected < listed(d, store).len(),
    ensures
        ({
            let o = after_key(d, Key::Char('d'), store, today);
            let id = listed(d, store)[d.selected].id;
            &&& o.effect == Effect::Persist
            &&& o.store.len() == store.len() - 1
            &&& exists|k: int|
                first_with_id(store, id, k) && o.store == store.remove(k)
        }),
{
    let v = listed(d, store);
    let a = v[d.selected];
    lemma_projection_bounds(store, d.filter_min, d.filter_max, d.sort_mode);
    broadcast use vstd::seq_lib::group_to_multiset_ensures;

    assert(v.contains(a));
    assert(v.to_multiset().count(a) > 0);
    assert(store.to_multiset().count(a) > 0);
    assert(store.contains(a));
    let i = choose|i: int| 0 <= i < store.len() && store[i] == a;
    assert(holds_id(store, a.id)) by {
        assert(store[i].id == a.id);
    }
    lemma_delete_removes_one(store, a.id);
    let k = choose|k: int| first_with_id(store, a.id, k) && (forall|j: int| 0 <= j < k ==> #[trigger] remove_first_id(store, a.id)[j] == store[j])
        && (forall|j: int| k <= j < store.len() - 1 ==> #[trigger] remove_first_id(store, a.id)[j] == store[j + 1]);
    assert(remove_first_id(store, a.id) =~= store.remove(k));
}

/// No key press gives two records of the store the same id.
pub proof fn lemma_keys_keep_ids_unique(d: DashboardView, key: Key, store: Seq<ActivityView>, today: Seq<char>)
    requires
        ids_unique(store),
    ensures
        ids_unique(after_key(d, key, store, today).store),
{
    match d.mode {
        ModeView::EnteringDuration(name) => {
            lemma_added_keeps_ids_unique(store, name, number_or_zero(trimmed(d.buffer)), today);
        },
        ModeView::Normal => {
            let v = listed(d, store);
            if 0 <= d.selected < v.len() {
                lemma_removal_keeps_ids_unique(store, v[d.selected].id);
            }
        },
        _ => {},
    }
}

/// A copy of each activity of `v`, in order.
fn copy_all(v: &Vec<Activity>) -> (r: Vec<Activity>)
    ensures
        views(r@) == views(v@),
{
    let mut out: Vec<Activity> = Vec::new();
    let mut i: usize = 0;
    while i < v.len()
        invariant
            i <= v.len(),
            views(out@) == views(v@).take(i as int),
        decreases v.len() - i,
    {
        let c = v[i].duplicate();
        let ghost before = out@;
        out.push(c);
        proof {
            assert(views(out@) =~= views(before).push(c@));
            assert(views(v@).take(i + 1) =~= views(v@).take(i as int).push(c@));
        }
        i = i + 1;
    }
    proof {
        assert(views(v@).take(i as int) =~= views(v@));
    }
    out
}

impl Dashboard {
    /// The state in which a session starts: normal mode, nothing entered, the
    /// first row selected, no bounds, sorted by date, no statistics, the store
    /// listed.
    pub fn new() -> (r: Dashboard)
        ensures
            r@ == initial_state(),
    {
        Dashboard {
            mode: InputMode::Normal,
            buffer: Vec::new(),
            selected: 0,
            filter_min: None,
            filter_max: None,
            sort_mode: SortMode::ByDate,
            show_stats: false,
            overlay: Overlay::Local,
        }
    }

    /// What the dashboard lists over `store`: the commit snapshot while it is
    /// shown, else the store's projection under the current bounds and order.
    pub fn listing(&self, store: &Vec<Activity>) -> (r: Vec<Activity>)
        ensures
            views(r@) == listed(self@, views(store@)),
    {
        match &self.overlay {
            Overlay::Commits(c) => copy_all(c),
            Overlay::Local => project_view(store, self.filter_min, self.filter_max, self.sort_mode),
        }
    }

    /// Clamps the selection to what is listed over `store`.
    fn clamp_selection(&mut self, store: &Vec<Activity>)
        ensures
            final(self)@ == settle(old(self)@, views(store@), Effect::Nothing).state,
    {
        let n = self.listing(store).len();
        if n == 0 {
            self.selected = 0;
        } else if self.selected >= n {
            self.selected = n - 1;
        }
    }

    /// Confirms the entered text `text`, already trimmed: a name moves on to
    /// its duration, a duration creates the activity dated `today`, a bound is
    /// set. Text that is no positive number creates nothing and clears the
    /// bound.
    pub fn submit(&mut self, text: &str, store: &mut Vec<Activity>, today: &str) -> (e: Effect)
        ensures
            final(self)@ == after_enter(old(self)@, text@, views(old(store)@), today@).state,
            views(final(store)@) == after_enter(old(self)@, text@, views(old(store)@), today@).store,
            e == after_enter(old(self)@, text@, views(old(store)@), today@).effect,
    {
        let pending = match &self.mode {
            InputMode::EnteringDuration { name } => Some(name.clone()),
            _ => None,
        };
        match self.mode {
            InputMode::Normal => {
                self.clamp_selection(store);
                Effect::Nothing
            },
            InputMode::EnteringName => {
                if !text.is_empty() {
                    self.mode = InputMode::EnteringDuration { name: text.to_owned() };
                    self.buffer = Vec::new();
                }
                self.clamp_selection(store);
                Effect::Nothing
            },
            InputMode::EnteringDuration { .. } => {
                let minutes = match parse_u32(text) {
                    Some(v) => v,
                    None => 0,
                };
                self.mode = InputMode::Normal;
                self.buffer = Vec::new();
                let mut effect = Effect::Nothing;
                if minutes > 0 {
                    if let Some(name) = pending {
                        if add_activity_dated(store, name.as_str(), minutes, today).is_some() {
                            effect = Effect::Persist;
                        }
                    }
                }
                self.clamp_selection(store);
                effect
            },
            InputMode::EnteringFilterMin => {
                let m = match parse_u32(text) {
                    Some(v) => v,
                    None => 0,
                };
                self.filter_min = if m > 0 {
                    Some(m)
                } else {
                    None
                };
                self.mode = InputMode::EnteringFilterMax { min: m };
                self.buffer = Vec::new();
                self.clamp_selection(store);
                Effect::Nothing
            },
            InputMode::EnteringFilterMax { .. } => {
                let m = match parse_u32(text) {
                    Some(v) => v,
                    None => 0,
                };
                self.filter_max = if m > 0 {
                    Some(m)
                } else {
                    None
                };
                self.mode = InputMode::Normal;
                self.buffer = Vec::new();
                self.clamp_selection(store);
                Effect::Nothing
            },
        }
    }

    /// Handles a key press in the normal mode.
    fn normal_key(&mut self, key: Key, store: &mut Vec<Activity>) -> (e: Effect)
        requires
            old(self)@.mode is Normal,
        ensures
            final(self)@ == after_normal_key(old(self)@, key, views(old(store)@)).state,
            views(final(store)@) == after_normal_key(old(self)@, key, views(old(store)@)).store,
            e == after_normal_key(old(self)@, key, views(old(store)@)).effect,
    {
        let mut effect = Effect::Nothing;
        match key {
            Key::Char(c) => {
                if c == 'q' {
                    effect = Effect::Quit;
                } else if c == 'a' {
                    self.mode = InputMode::EnteringName;
                    self.buffer = Vec::new();
                } else if c == 'd' {
                    let local = match self.overlay {
                        Overlay::Local => true,
                        Overlay::Commits(_) => false,
                    };
                    let v = self.listing(store);
                    if local && self.selected < v.len() {
                        let id = v[self.selected].id;
                        remove_first_with_id(store, id);
                        effect = Effect::Persist;
                    }
                } else if c == 'f' {
                    self.mode = InputMode::EnteringFilterMin;
                    self.buffer = Vec::new();
                } else if c == 'r' {
                    let local = match self.overlay {
                        Overlay::Local => true,
                        Overlay::Commits(_) => false,
                    };
                    if local {
                        self.filter_min = None;
                        self.filter_max = None;
                    } else {
                        self.overlay = Overlay::Local;
                    }
                } else if c == 's' {
                    self.sort_mode = match self.sort_mode {
                        SortMode::ByDate => SortMode::ByDuration,
                        SortMode::ByDuration => SortMode::ByName,
                        SortMode::ByName => SortMode::ByDate,
                    };
                } else if c == 'v' {
                    self.show_stats = !self.show_stats;
                } else if c == 'g' {
                    effect = Effect::FetchCommits;
                }
            },
            Key::Up => {
                if self.selected > 0 {
                    self.selected = self.selected - 1;
                }
            },
            Key::Down => {
                let n = self.listing(store).len();
                if n > 0 && self.selected < n - 1 {
                    self.selected = self.selected + 1;
                }
            },
            _ => {},
        }
        self.clamp_selection(store);
        effect
    }

    /// Handles one key press, dating a created activity `today`.
    pub fn on_key(&mut self, key: Key, store: &mut Vec<Activity>, today: &str) -> (e: Effect)
        ensures
            final(self)@ == after_key(old(self)@, key, views(old(store)@), today@).state,
            views(final(store)@) == after_key(old(self)@, key, views(old(store)@), today@).store,
            e == after_key(old(self)@, key, views(old(store)@), today@).effect,
    {
        if let InputMode::Normal = self.mode {
            return self.normal_key(key, store);
        }
        match key {
            Key::Enter => {
                let raw = collect_chars(&self.buffer);
                let text = trim_text(raw.as_str());
                self.submit(text.as_str(), store, today)
            },
            Key::Esc => {
                self.mode = InputMode::Normal;
                self.buffer = Vec::new();
                self.clamp_selection(store);
                Effect::Nothing
            },
            Key::Backspace => {
                self.buffer.pop();
                self.clamp_selection(store);
                Effect::Nothing
            },
            Key::Char(c) => {
                self.buffer.push(c);
                self.clamp_selection(store);
                Effect::Nothing
            },
            _ => {
                self.clamp_selection(store);
                Effect::Nothing
            },
        }
    }

    /// Handles one key press; a created activity is dated with the machine's
    /// current local date.
    pub fn handle_key(&mut self, key: Key, store: &mut Vec<Activity>) -> (e: Effect)
        ensures
            exists|today: Seq<char>|
                {
                    &&& final(self)@ == after_key(old(self)@, key, views(old(store)@), today).state
                    &&& views(final(store)@) == after_key(old(self)@, key, views(old(store)@), today).store
                    &&& e == after_key(old(self)@, key, views(old(store)@), today).effect
                },
    {
        let today = local_today();
        self.on_key(key, store, today.as_str())
    }

    /// The text entry under way, if any.
    pub fn input_mode(&self) -> (r: &InputMode)
        ensures
            r@ == self@.mode,
    {
        &self.mode
    }

    /// The text entered so far.
    pub fn input_text(&self) -> (r: String)
        ensures
            r@ == self@.buffer,
    {
        collect_chars(&self.buffer)
    }

    /// The index of the selected row of the listing.
    pub fn selected(&self) -> (r: usize)
        ensures
            r == self@.selected,
    {
        self.selected
    }

    pub fn filter_min(&self) -> (r: Option<u32>)
        ensures
            r == self@.filter_min,
    {
        self.filter_min
    }

    pub fn filter_max(&self) -> (r: Option<u32>)
        ensures
            r == self@.filter_max,
    {
        self.filter_max
    }

    pub fn sort_mode(&self) -> (r: SortMode)
        ensures
            r == self@.sort_mode,
    {
        self.sort_mode
    }

    pub fn show_stats(&self) -> (r: bool)
        ensures
            r == self@.show_stats,
    {
        self.show_stats
    }

    /// Whether the commit snapshot is shown in place of the store.
    pub fn in_commit_view(&self) -> (r: bool)
        ensures
            r == self@.overlay is Some,
    {
        match self.overlay {
            Overlay::Local => false,
            Overlay::Commits(_) => true,
        }
    }

    /// Shows the commit-derived activities `commits` in place of the store,
    /// with the first row selected.
    pub fn show_commits(&mut self, commits: Vec<Activity>)
        ensures
            final(self)@ == (DashboardView { overlay: Some(views(commits@)), selected: 0, ..old(self)@ }),
    {
        self.overlay = Overlay::Commits(commits);
        self.selected = 0;
    }
}

} // verus!
