//! The operations view's interaction rules: which tab is shown, what the
//! keys do, the checkpoint-name prompt and the Compare Runs selection. The
//! terminal loop performs the actions these rules ask for and reports their
//! outcomes back.

use vstd::prelude::*;

use crate::model::MetricDefinition;
use crate::text::{
    lemma_text_lt_total, lemma_text_lt_transitive, text_less, text_lt, concat2, decimal_string, decimal_text, starts_with, starts_with_chars, concat3, copy_string, pop_char, push_char, same_text, to_chars, trim, trim_span, string_of,
};

verus! {

pub const TAB_COUNT: usize = 6;

/// Number of metric series the Compare Runs tab can overlay.
pub const COMPARE_METRIC_COUNT: usize = 6;

/// Bit of `KeyModifiers` that marks the Control key.
pub const CONTROL: u8 = 0b0000_0010;

/// At most this many runs are overlaid at once.
pub const MAX_VISIBLE_RUNS: usize = 4;

#[derive(Debug, Clone, Copy, PartialEq, Eq, Structural)]
pub enum Tab {
    Overview,
    Thermal,
    Power,
    System,
    Storage,
    Compare,
}

pub open spec fn tab_of(index: nat) -> Tab {
    if index == 0 {
        Tab::Overview
    } else if index == 1 {
        Tab::Thermal
    } else if index == 2 {
        Tab::Power
    } else if index == 3 {
        Tab::System
    } else if index == 4 {
        Tab::Storage
    } else {
        Tab::Compare
    }
}

/// The tab at a position of the tab bar.
pub fn tab_at(index: usize) -> (r: Tab)
    requires
        index < TAB_COUNT,
    ensures
        r == tab_of(index as nat),
{
    if index == 0 {
        Tab::Overview
    } else if index == 1 {
        Tab::Thermal
    } else if index == 2 {
        Tab::Power
    } else if index == 3 {
        Tab::System
    } else if index == 4 {
        Tab::Storage
    } else {
        Tab::Compare
    }
}

pub open spec fn tab_title(tab: Tab) -> Seq<char> {
    match tab {
        Tab::Overview => "Overview"@,
        Tab::Thermal => "Thermal"@,
        Tab::Power => "Power"@,
        Tab::System => "System"@,
        Tab::Storage => "Storage/Net"@,
        Tab::Compare => "Compare Runs"@,
    }
}

impl Tab {
    pub fn title(self) -> (r: &'static str)
        ensures
            r@ == tab_title(self),
    {
        match self {
            Tab::Overview => "Overview",
            Tab::Thermal => "Thermal",
            Tab::Power => "Power",
            Tab::System => "System",
            Tab::Storage => "Storage/Net",
            Tab::Compare => "Compare Runs",
        }
    }
}

/// The legend symbol of the `index`-th visible run.
pub open spec fn run_symbol_of(index: nat) -> Seq<char> {
    if index == 0 {
        "⠿"@
    } else if index == 1 {
        "•"@
    } else if index == 2 {
        "■"@
    } else if index == 3 {
        "▮"@
    } else {
        "•"@
    }
}

/// The power collector's state as the Power tab shows it.
#[derive(Debug, Clone, Copy, PartialEq, Eq, Structural)]
pub enum CollectorState {
    Unavailable,
    Degraded,
    Active,
}

/// No valid pass yet is unavailable; a failed last pass or a reported error
/// is degraded; otherwise the collector is active.
pub open spec fn collector_state_of(valid_samples: u64, last_sample_valid: bool, has_error: bool) -> CollectorState {
    if valid_samples == 0 {
        CollectorState::Unavailable
    } else if !last_sample_valid || has_error {
        CollectorState::Degraded
    } else {
        CollectorState::Active
    }
}

pub fn collector_state(valid_samples: u64, last_sample_valid: bool, has_error: bool) -> (r: CollectorState)
    ensures
        r == collector_state_of(valid_samples, last_sample_valid, has_error),
{
    if valid_samples == 0 {
        CollectorState::Unavailable
    } else if !last_sample_valid || has_error {
        CollectorState::Degraded
    } else {
        CollectorState::Active
    }
}

impl CollectorState {
    pub open spec fn label_of(self) -> Seq<char> {
        match self {
            CollectorState::Unavailable => "UNAVAILABLE"@,
            CollectorState::Degraded => "DEGRADED"@,
            CollectorState::Active => "ACTIVE"@,
        }
    }

    pub fn label(self) -> (r: &'static str)
        ensures
            r@ == self.label_of(),
    {
        match self {
            CollectorState::Unavailable => "UNAVAILABLE",
            CollectorState::Degraded => "DEGRADED",
            CollectorState::Active => "ACTIVE",
        }
    }
}

pub fn run_symbol(index: usize) -> (r: &'static str)
    ensures
        r@ == run_symbol_of(index as nat),
{
    if index == 0 {
        "⠿"
    } else if index == 1 {
        "•"
    } else if index == 2 {
        "■"
    } else if index == 3 {
        "▮"
    } else {
        "•"
    }
}

/// Text cut to `width` characters, the last of them replaced by an ellipsis.
pub open spec fn truncated(value: Seq<char>, width: nat) -> Seq<char> {
    if value.len() <= width {
        value
    } else {
        value.take(if width >= 1 { width - 1 } else { 0 }) + "…"@
    }
}

pub fn truncate_text(value: &str, width: usize) -> (r: String)
    ensures
        r@ == truncated(value@, width as nat),
{
    let chars = to_chars(value);
    if chars.len() <= width {
        return string_of(chars.as_slice());
    }
    let keep: usize = if width >= 1 {
        width - 1
    } else {
        0
    };
    let mut out = to_chars("");
    proof {
        reveal_strlit("");
    }
    let mut i: usize = 0;
    assert(chars@.take(0) =~= ""@);
    while i < keep
        invariant
            keep < chars@.len(),
            i <= keep,
            out@ == chars@.take(i as int),
        decreases keep - i,
    {
        out.push(chars[i]);
        assert(chars@.take(i + 1) =~= chars@.take(i as int).push(chars@[i as int]));
        i = i + 1;
    }
    let ellipsis = to_chars("…");
    out.extend_from_slice(ellipsis.as_slice());
    string_of(out.as_slice())
}

/// A saved run as the Compare Runs tab lists it.
#[derive(Debug, Clone)]
pub struct RunRef {
    pub id: String,
    pub name: String,
}

impl View for RunRef {
    type V = (Seq<char>, Seq<char>);

    open spec fn view(&self) -> (Seq<char>, Seq<char>) {
        (self.id@, self.name@)
    }
}

pub struct CompareView {
    pub runs: Seq<(Seq<char>, Seq<char>)>,
    pub selected: nat,
    pub visible: Seq<Seq<char>>,
    pub baseline: Option<Seq<char>>,
    pub metric: nat,
    pub overlap: bool,
    pub message: Option<Seq<char>>,
    pub pending_delete: Option<Seq<char>>,
}

/// Selection state of the Compare Runs tab.
pub struct CompareState {
    pub runs: Vec<RunRef>,
    pub selected: usize,
    pub visible: Vec<String>,
    pub baseline: Option<String>,
    pub metric: usize,
    pub overlap: bool,
    pub message: Option<String>,
    pub pending_delete: Option<String>,
}

pub open spec fn opt_view(o: Option<String>) -> Option<Seq<char>> {
    match o {
        Some(s) => Some(s@),
        None => None,
    }
}

pub open spec fn strings_view(v: Seq<String>) -> Seq<Seq<char>> {
    v.map_values(|s: String| s@)
}

pub open spec fn runs_view(v: Seq<RunRef>) -> Seq<(Seq<char>, Seq<char>)> {
    v.map_values(|r: RunRef| r@)
}

impl View for CompareState {
    type V = CompareView;

    open spec fn view(&self) -> CompareView {
        CompareView {
            runs: runs_view(self.runs@),
            selected: self.selected as nat,
            visible: strings_view(self.visible@),
            baseline: opt_view(self.baseline),
            metric: self.metric as nat,
            overlap: self.overlap,
            message: opt_view(self.message),
            pending_delete: opt_view(self.pending_delete),
        }
    }
}

/// The ids of the runs, in list order.
pub open spec fn run_ids(runs: Seq<(Seq<char>, Seq<char>)>) -> Seq<Seq<char>> {
    runs.map_values(|r: (Seq<char>, Seq<char>)| r.0)
}

/// The first two distinct ids of the list (a set built from its first two runs).
pub open spec fn first_two_ids(runs: Seq<(Seq<char>, Seq<char>)>) -> Seq<Seq<char>> {
    if runs.len() == 0 {
        seq![]
    } else if runs.len() == 1 || runs[0].0 == runs[1].0 {
        seq![runs[0].0]
    } else {
        seq![runs[0].0, runs[1].0]
    }
}

/// The largest valid index of a list of `len` items (0 for an empty list).
pub open spec fn last_index_of(len: nat) -> nat {
    if len == 0 {
        0
    } else {
        (len - 1) as nat
    }
}

/// `v` without the entries equal to `x`.
pub open spec fn without(v: Seq<Seq<char>>, x: Seq<char>) -> Seq<Seq<char>>
    decreases v.len(),
{
    if v.len() == 0 {
        v
    } else if v.last() == x {
        without(v.drop_last(), x)
    } else {
        without(v.drop_last(), x).push(v.last())
    }
}

/// The entries of `v` that `keep` holds.
pub open spec fn retained(v: Seq<Seq<char>>, keep: Seq<Seq<char>>) -> Seq<Seq<char>>
    decreases v.len(),
{
    if v.len() == 0 {
        v
    } else if keep.contains(v.last()) {
        retained(v.drop_last(), keep).push(v.last())
    } else {
        retained(v.drop_last(), keep)
    }
}

/// The Compare Runs state for a freshly loaded run list.
pub open spec fn compare_initial(runs: Seq<(Seq<char>, Seq<char>)>) -> CompareView {
    CompareView {
        runs,
        selected: 0,
        visible: first_two_ids(runs),
        baseline: if runs.len() > 0 {
            Some(runs[0].0)
        } else {
            None
        },
        metric: 0,
        overlap: true,
        message: None,
        pending_delete: None,
    }
}

/// The Compare Runs state after the run list was reloaded: the selection is
/// clamped, runs that disappeared are hidden (showing the first two when
/// nothing is left), a vanished baseline falls back to the first run, and a
/// pending deletion of a vanished run is dropped.
pub open spec fn compare_refreshed(c: CompareView, runs: Seq<(Seq<char>, Seq<char>)>) -> CompareView {
    let ids = run_ids(runs);
    let kept = retained(c.visible, ids);
    CompareView {
        runs,
        selected: if c.selected <= last_index_of(runs.len()) {
            c.selected
        } else {
            last_index_of(runs.len())
        },
        visible: if kept.len() == 0 {
            first_two_ids(runs)
        } else {
            kept
        },
        baseline: match c.baseline {
            Some(b) => if ids.contains(b) {
                Some(b)
            } else if runs.len() > 0 {
                Some(runs[0].0)
            } else {
                None
            },
            None => if runs.len() > 0 {
                Some(runs[0].0)
            } else {
                None
            },
        },
        metric: c.metric,
        overlap: c.overlap,
        message: c.message,
        pending_delete: match c.pending_delete {
            Some(p) => if ids.contains(p) {
                Some(p)
            } else {
                None
            },
            None => None,
        },
    }
}

fn contains_string(v: &Vec<String>, x: &str) -> (r: bool)
    ensures
        r == strings_view(v@).contains(x@),
{
    let mut i: usize = 0;
    while i < v.len()
        invariant
            i <= v@.len(),
            forall|j: int| 0 <= j < i ==> v@[j]@ != x@,
        decreases v@.len() - i,
    {
        if same_text(v[i].as_str(), x) {
            assert(strings_view(v@)[i as int] == x@);
            return true;
        }
        i = i + 1;
    }
    assert forall|j: int| 0 <= j < strings_view(v@).len() implies strings_view(v@)[j] != x@ by {}
    false
}

fn contains_run_id(runs: &Vec<RunRef>, id: &str) -> (r: bool)
    ensures
        r == run_ids(runs_view(runs@)).contains(id@),
{
    let mut i: usize = 0;
    while i < runs.len()
        invariant
            i <= runs@.len(),
            forall|j: int| 0 <= j < i ==> runs@[j].id@ != id@,
        decreases runs@.len() - i,
    {
        if same_text(runs[i].id.as_str(), id) {
            assert(run_ids(runs_view(runs@))[i as int] == id@);
            return true;
        }
        i = i + 1;
    }
    assert forall|j: int| 0 <= j < run_ids(runs_view(runs@)).len() implies run_ids(
        runs_view(runs@),
    )[j] != id@ by {}
    false
}

fn first_two(runs: &Vec<RunRef>) -> (r: Vec<String>)
    ensures
        strings_view(r@) == first_two_ids(runs_view(runs@)),
{
    let mut out: Vec<String> = Vec::new();
    if runs.len() == 0 {
        assert(strings_view(out@) =~= first_two_ids(runs_view(runs@)));
        return out;
    }
    out.push(copy_string(runs[0].id.as_str()));
    if runs.len() >= 2 && !same_text(runs[0].id.as_str(), runs[1].id.as_str()) {
        out.push(copy_string(runs[1].id.as_str()));
    }
    assert(strings_view(out@) =~= first_two_ids(runs_view(runs@)));
    out
}

fn first_id(runs: &Vec<RunRef>) -> (r: Option<String>)
    ensures
        opt_view(r) == if runs@.len() > 0 {
            Some(runs@[0].id@)
        } else {
            None::<Seq<char>>
        },
{
    if runs.len() > 0 {
        Some(copy_string(runs[0].id.as_str()))
    } else {
        None
    }
}

fn remove_string(v: &Vec<String>, x: &str) -> (r: Vec<String>)
    ensures
        strings_view(r@) == without(strings_view(v@), x@),
{
    let mut out: Vec<String> = Vec::new();
    let mut i: usize = 0;
    assert(strings_view(v@).take(0) =~= Seq::<Seq<char>>::empty());
    while i < v.len()
        invariant
            i <= v@.len(),
            strings_view(out@) == without(strings_view(v@).take(i as int), x@),
        decreases v@.len() - i,
    {
        let ghost t = strings_view(v@).take(i + 1);
        assert(t.drop_last() =~= strings_view(v@).take(i as int));
        assert(t.last() == v@[i as int]@);
        if !same_text(v[i].as_str(), x) {
            out.push(copy_string(v[i].as_str()));
            assert(strings_view(out@) =~= without(strings_view(v@).take(i as int), x@).push(v@[i as int]@));
        }
        i = i + 1;
    }
    assert(strings_view(v@).take(v@.len() as int) =~= strings_view(v@));
    out
}

fn retain_ids(v: &Vec<String>, runs: &Vec<RunRef>) -> (r: Vec<String>)
    ensures
        strings_view(r@) == retained(strings_view(v@), run_ids(runs_view(runs@))),
{
    let mut out: Vec<String> = Vec::new();
    let mut i: usize = 0;
    assert(strings_view(v@).take(0) =~= Seq::<Seq<char>>::empty());
    while i < v.len()
        invariant
            i <= v@.len(),
            strings_view(out@) == retained(strings_view(v@).take(i as int), run_ids(runs_view(runs@))),
        decreases v@.len() - i,
    {
        let ghost t = strings_view(v@).take(i + 1);
        assert(t.drop_last() =~= strings_view(v@).take(i as int));
        assert(t.last() == v@[i as int]@);
        if contains_run_id(runs, v[i].as_str()) {
            out.push(copy_string(v[i].as_str()));
            assert(strings_view(out@) =~= retained(strings_view(v@).take(i as int), run_ids(runs_view(runs@))).push(v@[i as int]@));
        }
        i = i + 1;
    }
    assert(strings_view(v@).take(v@.len() as int) =~= strings_view(v@));
    out
}

impl CompareState {
    /// The state for a freshly loaded list of completed runs.
    pub fn new(runs: Vec<RunRef>) -> (r: CompareState)
        ensures
            r@ == compare_initial(runs_view(runs@)),
    {
        let visible = first_two(&runs);
        let baseline = first_id(&runs);
        CompareState {
            runs,
            selected: 0,
            visible,
            baseline,
            metric: 0,
            overlap: true,
            message: None,
            pending_delete: None,
        }
    }

    /// Adopts a reloaded run list.
    pub fn refresh(&mut self, runs: Vec<RunRef>)
        ensures
            final(self)@ == compare_refreshed(old(self)@, runs_view(runs@)),
    {
        let last = if runs.len() == 0 {
            0
        } else {
            runs.len() - 1
        };
        if self.selected > last {
            self.selected = last;
        }
        let kept = retain_ids(&self.visible, &runs);
        self.visible = if kept.len() == 0 {
            first_two(&runs)
        } else {
            kept
        };
        let keep_baseline = match &self.baseline {
            Some(b) => contains_run_id(&runs, b.as_str()),
            None => false,
        };
        if !keep_baseline {
            self.baseline = first_id(&runs);
        }
        let keep_pending = match &self.pending_delete {
            Some(p) => contains_run_id(&runs, p.as_str()),
            None => true,
        };
        if !keep_pending {
            self.pending_delete = None;
        }
        self.runs = runs;
    }
}

/// The position of run `id` among the first four visible runs, in list order.
pub open spec fn visible_position(c: CompareView, id: Seq<char>) -> Option<nat>
    decreases c.runs.len(),
{
    visible_position_from(c.runs, c.visible, id, 0, 0)
}

pub open spec fn visible_position_from(
    runs: Seq<(Seq<char>, Seq<char>)>,
    visible: Seq<Seq<char>>,
    id: Seq<char>,
    from: nat,
    seen: nat,
) -> Option<nat>
    decreases runs.len() - from,
{
    if from >= runs.len() || seen >= 4 {
        None
    } else if visible.contains(runs[from as int].0) {
        if runs[from as int].0 == id {
            Some(seen)
        } else {
            visible_position_from(runs, visible, id, from + 1, seen + 1)
        }
    } else {
        visible_position_from(runs, visible, id, from + 1, seen)
    }
}

/// Which legend slot (colour and symbol) run `id` occupies, if it is shown.
pub fn visible_run_index(state: &CompareState, id: &str) -> (r: Option<usize>)
    ensures
        match r {
            Some(i) => visible_position(state@, id@) == Some(i as nat),
            None => visible_position(state@, id@) is None,
        },
{
    let mut i: usize = 0;
    let mut seen: usize = 0;
    while i < state.runs.len() && seen < 4
        invariant
            i <= state.runs@.len(),
            seen <= 4,
            visible_position(state@, id@) == visible_position_from(
                runs_view(state.runs@),
                strings_view(state.visible@),
                id@,
                i as nat,
                seen as nat,
            ),
        decreases state.runs@.len() - i,
    {
        if contains_string(&state.visible, state.runs[i].id.as_str()) {
            if same_text(state.runs[i].id.as_str(), id) {
                return Some(seen);
            }
            seen = seen + 1;
        }
        i = i + 1;
    }
    None
}

/// A key as the terminal reports it: what was pressed, the modifier bits
/// (`KeyModifiers::bits`), and whether it is a press rather than a release
/// or repeat.
#[derive(Debug, Clone, Copy, PartialEq, Eq, Structural)]
pub enum KeyCode {
    Char(char),
    Tab,
    BackTab,
    Esc,
    Backspace,
    Enter,
    Up,
    Down,
    Left,
    Right,
    Other,
}

#[derive(Debug, Clone, Copy, PartialEq, Eq, Structural)]
pub struct KeyInput {
    pub code: KeyCode,
    pub modifiers: u8,
    pub press: bool,
}

/// Facts about the displayed cache that bound the cursor keys.
#[derive(Debug, Clone, Copy, PartialEq, Eq, Structural)]
pub struct OpsContext {
    pub core_count: usize,
    pub thermal_groups: usize,
}

/// Whether keys edit a checkpoint name or drive the view.
pub enum InputMode {
    Normal,
    CheckpointName(String),
}

pub open spec fn input_view(i: InputMode) -> Option<Seq<char>> {
    match i {
        InputMode::Normal => None,
        InputMode::CheckpointName(name) => Some(name@),
    }
}

/// Everything the operations view remembers between frames.
pub struct OpsState {
    pub active: usize,
    pub selected_core: usize,
    pub thermal_group: usize,
    pub input: InputMode,
    pub recording: bool,
    pub dirty: bool,
    pub clear_body: bool,
    pub compare: CompareState,
}

pub struct OpsView {
    pub active: nat,
    pub selected_core: nat,
    pub thermal_group: nat,
    pub input: Option<Seq<char>>,
    pub recording: bool,
    pub dirty: bool,
    pub clear_body: bool,
    pub compare: CompareView,
}

impl View for OpsState {
    type V = OpsView;

    open spec fn view(&self) -> OpsView {
        OpsView {
            active: self.active as nat,
            selected_core: self.selected_core as nat,
            thermal_group: self.thermal_group as nat,
            input: input_view(self.input),
            recording: self.recording,
            dirty: self.dirty,
            clear_body: self.clear_body,
            compare: self.compare@,
        }
    }
}

/// What the terminal loop must do after a key.
pub enum OpsAction {
    Continue,
    Quit,
    /// Start a checkpoint with this (trimmed) name.
    StartRun(String),
    /// Stop and save the recording checkpoint.
    StopRun,
    /// Export these runs (ids, in list order) as a comparison document.
    Export(Vec<String>),
    /// Delete the completed run with this id and name.
    Delete { id: String, name: String },
}

pub enum ActionView {
    Continue,
    Quit,
    StartRun(Seq<char>),
    StopRun,
    Export(Seq<Seq<char>>),
    Delete(Seq<char>, Seq<char>),
}

impl View for OpsAction {
    type V = ActionView;

    open spec fn view(&self) -> ActionView {
        match self {
            OpsAction::Continue => ActionView::Continue,
            OpsAction::Quit => ActionView::Quit,
            OpsAction::StartRun(n) => ActionView::StartRun(n@),
            OpsAction::StopRun => ActionView::StopRun,
            OpsAction::Export(ids) => ActionView::Export(strings_view(ids@)),
            OpsAction::Delete { id, name } => ActionView::Delete(id@, name@),
        }
    }
}

/// The invariant of the operations view: a real tab and metric, at most
/// four distinct visible runs, and a selection inside the run list.
pub open spec fn ops_wf(s: OpsView) -> bool {
    &&& s.active < TAB_COUNT
    &&& s.compare.metric < COMPARE_METRIC_COUNT
    &&& s.compare.visible.len() <= MAX_VISIBLE_RUNS
    &&& s.compare.visible.no_duplicates()
    &&& s.compare.selected <= last_index_of(s.compare.runs.len())
}

/// The ids of the visible runs, in list order.
pub open spec fn export_ids(c: CompareView) -> Seq<Seq<char>> {
    crate::text::collect_some(
        c.runs,
        |r: (Seq<char>, Seq<char>)| if c.visible.contains(r.0) {
            Some(r.0)
        } else {
            None
        },
    )
}

/// One step toward `bound` (`min(n + 1, bound)`).
pub open spec fn step_up(n: nat, bound: nat) -> nat {
    if n < bound {
        n + 1
    } else {
        bound
    }
}

pub open spec fn step_down(n: nat) -> nat {
    if n > 0 {
        (n - 1) as nat
    } else {
        0
    }
}

pub open spec fn with_dirty(s: OpsView) -> OpsView {
    OpsView { dirty: true, ..s }
}

pub open spec fn with_tab(s: OpsView, tab: nat) -> OpsView {
    OpsView { active: tab, dirty: true, clear_body: true, ..s }
}

pub open spec fn with_compare(s: OpsView, c: CompareView) -> OpsView {
    OpsView { compare: c, dirty: true, ..s }
}

/// A key while the checkpoint-name prompt is open.
pub open spec fn name_key_step(s: OpsView, name: Seq<char>, k: KeyInput) -> (OpsView, ActionView) {
    let s = with_dirty(s);
    match k.code {
        KeyCode::Esc => (OpsView { input: None, ..s }, ActionView::Continue),
        KeyCode::Backspace => (
            OpsView {
                input: Some(
                    if name.len() > 0 {
                        name.drop_last()
                    } else {
                        name
                    },
                ),
                ..s
            },
            ActionView::Continue,
        ),
        KeyCode::Enter => if trim(name).len() > 0 {
            (s, ActionView::StartRun(trim(name)))
        } else {
            (s, ActionView::Continue)
        },
        KeyCode::Char(c) => if k.modifiers & CONTROL == 0 && (vstd::utf8::encode_utf8(name).len() as usize) < 80 {
            (OpsView { input: Some(name.push(c)), ..s }, ActionView::Continue)
        } else {
            (s, ActionView::Continue)
        },
        _ => (s, ActionView::Continue),
    }
}

/// A key on the Compare Runs tab that the tab itself handles.
pub open spec fn compare_key_step(s: OpsView, k: KeyInput) -> Option<(OpsView, ActionView)> {
    let c = s.compare;
    let has_run = c.selected < c.runs.len();
    let run = c.runs[c.selected as int];
    match k.code {
        KeyCode::Up => Some(
            (with_compare(s, CompareView { selected: step_down(c.selected), ..c }), ActionView::Continue),
        ),
        KeyCode::Down => Some(
            (
                with_compare(
                    s,
                    CompareView { selected: step_up(c.selected, last_index_of(c.runs.len())), ..c },
                ),
                ActionView::Continue,
            ),
        ),
        KeyCode::Enter => Some(
            (
                with_compare(
                    s,
                    CompareView {
                        baseline: if has_run {
                            Some(run.0)
                        } else {
                            None
                        },
                        ..c
                    },
                ),
                ActionView::Continue,
            ),
        ),
        KeyCode::Left => Some(
            (
                with_compare(
                    s,
                    CompareView { metric: ((c.metric + COMPARE_METRIC_COUNT - 1) % (COMPARE_METRIC_COUNT as int)) as nat, ..c },
                ),
                ActionView::Continue,
            ),
        ),
        KeyCode::Right => Some(
            (
                with_compare(s, CompareView { metric: ((c.metric + 1) % (COMPARE_METRIC_COUNT as nat)) as nat, ..c }),
                ActionView::Continue,
            ),
        ),
        KeyCode::Char(ch) => if ch == ' ' {
            Some(
                (
                    with_compare(
                        s,
                        if !has_run {
                            c
                        } else if c.visible.contains(run.0) {
                            CompareView { visible: without(c.visible, run.0), ..c }
                        } else if c.visible.len() < MAX_VISIBLE_RUNS {
                            CompareView { visible: c.visible.push(run.0), ..c }
                        } else {
                            CompareView { message: Some("At most four runs can be visible."@), ..c }
                        },
                    ),
                    ActionView::Continue,
                ),
            )
        } else if ch == 'w' {
            Some((with_compare(s, CompareView { overlap: !c.overlap, ..c }), ActionView::Continue))
        } else if ch == 'x' {
            Some((with_dirty(s), ActionView::Export(export_ids(c))))
        } else if ch == 'd' {
            if !has_run {
                Some((with_dirty(s), ActionView::Continue))
            } else if c.pending_delete == Some(run.0) {
                Some((with_dirty(s), ActionView::Delete(run.0, run.1)))
            } else {
                Some(
                    (
                        with_compare(
                            s,
                            CompareView {
                                pending_delete: Some(run.0),
                                message: Some("Press d again to delete '"@ + run.1 + "'."@),
                                ..c
                            },
                        ),
                        ActionView::Continue,
                    ),
                )
            }
        } else {
            None
        },
        _ => None,
    }
}

/// A key in normal mode.
pub open spec fn normal_key_step(s: OpsView, k: KeyInput, ctx: OpsContext) -> (OpsView, ActionView) {
    let tab = tab_of(s.active);
    match k.code {
        KeyCode::Char(ch) if ch == 'q' || (ch == 'c' && k.modifiers == CONTROL) => (
            s,
            ActionView::Quit,
        ),
        KeyCode::Tab => (with_tab(s, ((s.active + 1) % (TAB_COUNT as nat)) as nat), ActionView::Continue),
        KeyCode::BackTab => (
            with_tab(s, ((s.active + TAB_COUNT - 1) % (TAB_COUNT as int)) as nat),
            ActionView::Continue,
        ),
        KeyCode::Char(ch) if '1' <= ch <= '6' => (
            with_tab(s, ((ch as u32) - 0x31) as nat),
            ActionView::Continue,
        ),
        KeyCode::Char(ch) if ch == 'r' => if s.recording {
            (with_dirty(s), ActionView::StopRun)
        } else {
            (OpsView { input: Some(Seq::<char>::empty()), ..with_dirty(s) }, ActionView::Continue)
        },
        _ => if tab == Tab::Compare && compare_key_step(s, k) is Some {
            compare_key_step(s, k).unwrap()
        } else if tab == Tab::System && k.code == KeyCode::Up {
            (OpsView { selected_core: step_down(s.selected_core), ..with_dirty(s) }, ActionView::Continue)
        } else if tab == Tab::System && k.code == KeyCode::Down {
            (
                OpsView {
                    selected_core: step_up(s.selected_core, last_index_of(ctx.core_count as nat)),
                    ..with_dirty(s)
                },
                ActionView::Continue,
            )
        } else if tab == Tab::Thermal && k.code == KeyCode::Left {
            (OpsView { thermal_group: step_down(s.thermal_group), ..with_dirty(s) }, ActionView::Continue)
        } else if tab == Tab::Thermal && k.code == KeyCode::Right {
            (
                OpsView {
                    thermal_group: step_up(s.thermal_group, last_index_of(ctx.thermal_groups as nat)),
                    ..with_dirty(s)
                },
                ActionView::Continue,
            )
        } else {
            (s, ActionView::Continue)
        },
    }
}

/// The effect of one key event.
pub open spec fn key_step(s: OpsView, k: KeyInput, ctx: OpsContext) -> (OpsView, ActionView) {
    if !k.press {
        (s, ActionView::Continue)
    } else {
        match s.input {
            Some(name) => name_key_step(s, name, k),
            None => normal_key_step(s, k, ctx),
        }
    }
}

fn selected_visible_ids(c: &CompareState) -> (r: Vec<String>)
    ensures
        strings_view(r@) == export_ids(c@),
{
    let ghost f = |r: (Seq<char>, Seq<char>)| if c@.visible.contains(r.0) {
        Some(r.0)
    } else {
        None
    };
    let mut out: Vec<String> = Vec::new();
    let mut i: usize = 0;
    assert(runs_view(c.runs@).take(0) =~= Seq::<(Seq<char>, Seq<char>)>::empty());
    while i < c.runs.len()
        invariant
            i <= c.runs@.len(),
            strings_view(out@) == crate::text::collect_some(runs_view(c.runs@).take(i as int), f),
            f == (|r: (Seq<char>, Seq<char>)| if c@.visible.contains(r.0) {
                Some(r.0)
            } else {
                None
            }),
        decreases c.runs@.len() - i,
    {
        proof {
            crate::text::lemma_collect_some_step(runs_view(c.runs@), i as int, f);
        }
        if contains_string(&c.visible, c.runs[i].id.as_str()) {
            out.push(copy_string(c.runs[i].id.as_str()));
            assert(strings_view(out@) =~= crate::text::collect_some(runs_view(c.runs@).take(i as int), f).push(c.runs@[i as int].id@));
        }
        i = i + 1;
    }
    assert(runs_view(c.runs@).take(c.runs@.len() as int) =~= runs_view(c.runs@));
    out
}

impl OpsState {
    /// The view as it opens: the Overview tab, nothing selected, a full redraw due.
    pub fn new(runs: Vec<RunRef>, recording: bool) -> (r: OpsState)
        ensures
            r@.active == 0,
            r@.selected_core == 0,
            r@.thermal_group == 0,
            r@.input is None,
            r@.recording == recording,
            r@.dirty,
            r@.clear_body,
            r@.compare == compare_initial(runs_view(runs@)),
    {
        OpsState {
            active: 0,
            selected_core: 0,
            thermal_group: 0,
            input: InputMode::Normal,
            recording,
            dirty: true,
            clear_body: true,
            compare: CompareState::new(runs),
        }
    }

    /// The tab shown.
    pub fn active_tab(&self) -> (r: Tab)
        requires
            self@.active < TAB_COUNT,
        ensures
            r == tab_of(self@.active),
    {
        tab_at(self.active)
    }

    /// A checkpoint was started: the prompt closes and recording shows.
    pub fn start_succeeded(&mut self)
        ensures
            final(self)@ == (OpsView { recording: true, input: None, ..old(self)@ }),
    {
        self.recording = true;
        self.input = InputMode::Normal;
    }

    /// Shows a message in the Compare Runs status panel.
    pub fn report(&mut self, message: String)
        ensures
            final(self)@ == (OpsView {
                compare: CompareView { message: Some(message@), ..old(self)@.compare },
                ..old(self)@
            }),
    {
        self.compare.message = Some(message);
    }

    /// The recording checkpoint was saved as `name`; `runs` is the reloaded list.
    pub fn stop_succeeded(&mut self, name: &str, runs: Vec<RunRef>)
        ensures
            final(self)@ == (OpsView {
                recording: false,
                compare: compare_refreshed(
                    CompareView { message: Some("Saved run '"@ + name@ + "'."@), ..old(self)@.compare },
                    runs_view(runs@),
                ),
                ..old(self)@
            }),
    {
        self.compare.message = Some(concat3("Saved run '", name, "'."));
        self.recording = false;
        self.compare.refresh(runs);
    }

    /// The run `name` was deleted; `runs` is the reloaded list.
    pub fn delete_succeeded(&mut self, name: &str, runs: Vec<RunRef>)
        ensures
            final(self)@ == (OpsView {
                compare: compare_refreshed(
                    CompareView {
                        message: Some("Deleted run '"@ + name@ + "'."@),
                        pending_delete: None,
                        ..old(self)@.compare
                    },
                    runs_view(runs@),
                ),
                ..old(self)@
            }),
    {
        self.compare.message = Some(concat3("Deleted run '", name, "'."));
        self.compare.pending_delete = None;
        self.compare.refresh(runs);
    }

    /// A deletion failed with `message`; the confirmation is withdrawn.
    pub fn delete_failed(&mut self, message: String)
        ensures
            final(self)@ == (OpsView {
                compare: CompareView {
                    message: Some(message@),
                    pending_delete: None,
                    ..old(self)@.compare
                },
                ..old(self)@
            }),
    {
        self.compare.message = Some(message);
        self.compare.pending_delete = None;
    }

    /// A new cache was read: the thermal group is clamped to the groups it
    /// has, the run list reloaded and the recording state refreshed.
    pub fn cache_refreshed(&mut self, ctx: OpsContext, runs: Vec<RunRef>, recording: bool)
        ensures
            final(self)@ == (OpsView {
                thermal_group: if old(self)@.thermal_group <= last_index_of(ctx.thermal_groups as nat) {
                    old(self)@.thermal_group
                } else {
                    last_index_of(ctx.thermal_groups as nat)
                },
                recording,
                dirty: true,
                compare: compare_refreshed(old(self)@.compare, runs_view(runs@)),
                ..old(self)@
            }),
    {
        let last = if ctx.thermal_groups == 0 {
            0
        } else {
            ctx.thermal_groups - 1
        };
        if self.thermal_group > last {
            self.thermal_group = last;
        }
        self.compare.refresh(runs);
        self.recording = recording;
        self.dirty = true;
    }

    /// The terminal was resized: redraw everything.
    pub fn resized(&mut self)
        ensures
            final(self)@ == (OpsView { dirty: true, clear_body: true, ..old(self)@ }),
    {
        self.dirty = true;
        self.clear_body = true;
    }

    /// A frame was drawn.
    pub fn drawn(&mut self)
        ensures
            final(self)@ == (OpsView { dirty: false, clear_body: false, ..old(self)@ }),
    {
        self.dirty = false;
        self.clear_body = false;
    }

    fn name_key(&mut self, name: String, key: KeyInput) -> (r: OpsAction)
        requires
            old(self)@.input == Some(name@),
        ensures
            (final(self)@, r@) == name_key_step(old(self)@, name@, key),
    {
        let mut name = name;
        let mut action = OpsAction::Continue;
        match key.code {
            KeyCode::Esc => {
                self.input = InputMode::Normal;
            },
            KeyCode::Backspace => {
                let _ = pop_char(&mut name);
                self.input = InputMode::CheckpointName(name);
            },
            KeyCode::Enter => {
                let chars = to_chars(name.as_str());
                let (a, b) = trim_span(chars.as_slice());
                if b > a {
                    action = OpsAction::StartRun(string_of(&chars[a..b]));
                }
            },
            KeyCode::Char(c) => {
                if key.modifiers & CONTROL == 0 && name.as_str().len() < 80 {
                    push_char(&mut name, c);
                    self.input = InputMode::CheckpointName(name);
                }
            },
            _ => {},
        }
        self.dirty = true;
        action
    }

    fn compare_key(&mut self, key: KeyInput) -> (r: Option<OpsAction>)
        requires
            old(self)@.compare.metric < COMPARE_METRIC_COUNT,
        ensures
            match r {
                Some(a) => compare_key_step(old(self)@, key) == Some((final(self)@, a@)),
                None => compare_key_step(old(self)@, key) is None && final(self)@ == old(self)@,
            },
    {
        let has_run = self.compare.selected < self.compare.runs.len();
        match key.code {
            KeyCode::Up => {
                if self.compare.selected > 0 {
                    self.compare.selected = self.compare.selected - 1;
                }
                self.dirty = true;
                return Some(OpsAction::Continue);
            },
            KeyCode::Down => {
                let last = if self.compare.runs.len() == 0 {
                    0
                } else {
                    self.compare.runs.len() - 1
                };
                self.compare.selected = if self.compare.selected < last {
                    self.compare.selected + 1
                } else {
                    last
                };
                self.dirty = true;
                return Some(OpsAction::Continue);
            },
            KeyCode::Enter => {
                self.compare.baseline = if has_run {
                    Some(copy_string(self.compare.runs[self.compare.selected].id.as_str()))
                } else {
                    None
                };
                self.dirty = true;
                return Some(OpsAction::Continue);
            },
            KeyCode::Left => {
                self.compare.metric = (self.compare.metric + COMPARE_METRIC_COUNT - 1)
                    % COMPARE_METRIC_COUNT;
                self.dirty = true;
                return Some(OpsAction::Continue);
            },
            KeyCode::Right => {
                self.compare.metric = (self.compare.metric + 1) % COMPARE_METRIC_COUNT;
                self.dirty = true;
                return Some(OpsAction::Continue);
            },
            KeyCode::Char(ch) => {
                if ch == ' ' {
                    if has_run {
                        let id = copy_string(self.compare.runs[self.compare.selected].id.as_str());
                        if contains_string(&self.compare.visible, id.as_str()) {
                            self.compare.visible = remove_string(&self.compare.visible, id.as_str());
                        } else if self.compare.visible.len() < MAX_VISIBLE_RUNS {
                            let ghost before = strings_view(self.compare.visible@);
                            let ghost idv = id@;
                            self.compare.visible.push(id);
                            assert(strings_view(self.compare.visible@) =~= before.push(idv));
                        } else {
                            self.compare.message = Some(copy_string("At most four runs can be visible."));
                        }
                    }
                    self.dirty = true;
                    return Some(OpsAction::Continue);
                }
                if ch == 'w' {
                    self.compare.overlap = !self.compare.overlap;
                    self.dirty = true;
                    return Some(OpsAction::Continue);
                }
                if ch == 'x' {
                    let ids = selected_visible_ids(&self.compare);
                    self.dirty = true;
                    return Some(OpsAction::Export(ids));
                }
                if ch == 'd' {
                    self.dirty = true;
                    if !has_run {
                        return Some(OpsAction::Continue);
                    }
                    let id = copy_string(self.compare.runs[self.compare.selected].id.as_str());
                    let name = copy_string(self.compare.runs[self.compare.selected].name.as_str());
                    let pending = match &self.compare.pending_delete {
                        Some(p) => same_text(p.as_str(), id.as_str()),
                        None => false,
                    };
                    if pending {
                        return Some(OpsAction::Delete { id, name });
                    }
                    self.compare.message = Some(concat3("Press d again to delete '", name.as_str(), "'."));
                    self.compare.pending_delete = Some(id);
                    return Some(OpsAction::Continue);
                }
            },
            _ => {},
        }
        None
    }

    /// Handles one key event and says what the loop must do next.
    pub fn handle_key(&mut self, key: KeyInput, ctx: OpsContext) -> (r: OpsAction)
        requires
            old(self)@.active < TAB_COUNT,
            old(self)@.compare.metric < COMPARE_METRIC_COUNT,
        ensures
            (final(self)@, r@) == key_step(old(self)@, key, ctx),
    {
        if !key.press {
            return OpsAction::Continue;
        }
        let ghost s0 = self@;
        let editing = match &self.input {
            InputMode::CheckpointName(name) => Some(copy_string(name.as_str())),
            InputMode::Normal => None,
        };
        if let Some(name) = editing {
            return self.name_key(name, key);
        }
        let tab = tab_at(self.active);
        match key.code {
            KeyCode::Char(ch) => {
                if ch == 'q' || (ch == 'c' && key.modifiers == CONTROL) {
                    return OpsAction::Quit;
                }
                if '1' <= ch && ch <= '6' {
                    self.active = ((ch as u32) - 0x31) as usize;
                    self.dirty = true;
                    self.clear_body = true;
                    return OpsAction::Continue;
                }
                if ch == 'r' {
                    self.dirty = true;
                    if self.recording {
                        return OpsAction::StopRun;
                    }
                    self.input = InputMode::CheckpointName(String::new());
                    return OpsAction::Continue;
                }
            },
            KeyCode::Tab => {
                self.active = (self.active + 1) % TAB_COUNT;
                self.dirty = true;
                self.clear_body = true;
                return OpsAction::Continue;
            },
            KeyCode::BackTab => {
                self.active = (self.active + TAB_COUNT - 1) % TAB_COUNT;
                self.dirty = true;
                self.clear_body = true;
                return OpsAction::Continue;
            },
            _ => {},
        }
        if tab == Tab::Compare {
            if let Some(action) = self.compare_key(key) {
                return action;
            }
        }
        if tab == Tab::System {
            match key.code {
                KeyCode::Up => {
                    if self.selected_core > 0 {
                        self.selected_core = self.selected_core - 1;
                    }
                    self.dirty = true;
                },
                KeyCode::Down => {
                    let last = if ctx.core_count == 0 {
                        0
                    } else {
                        ctx.core_count - 1
                    };
                    self.selected_core = if self.selected_core < last {
                        self.selected_core + 1
                    } else {
                        last
                    };
                    self.dirty = true;
                },
                _ => {},
            }
        }
        if tab == Tab::Thermal {
            match key.code {
                KeyCode::Left => {
                    if self.thermal_group > 0 {
                        self.thermal_group = self.thermal_group - 1;
                    }
                    self.dirty = true;
                },
                KeyCode::Right => {
                    let last = if ctx.thermal_groups == 0 {
                        0
                    } else {
                        ctx.thermal_groups - 1
                    };
                    self.thermal_group = if self.thermal_group < last {
                        self.thermal_group + 1
                    } else {
                        last
                    };
                    self.dirty = true;
                },
                _ => {},
            }
        }
        OpsAction::Continue
    }
}

proof fn lemma_without(v: Seq<Seq<char>>, x: Seq<char>)
    ensures
        without(v, x).len() <= v.len(),
        !without(v, x).contains(x),
        forall|y: Seq<char>| #[trigger] without(v, x).contains(y) <==> (v.contains(y) && y != x),
        v.no_duplicates() ==> without(v, x).no_duplicates(),
        v.contains(x) ==> without(v, x).len() < v.len(),
    decreases v.len(),
{
    if v.len() > 0 {
        let w = without(v.drop_last(), x);
        lemma_without(v.drop_last(), x);
        assert forall|y: Seq<char>| v.contains(y) <==> (v.drop_last().contains(y) || y == v.last()) by {
            if v.contains(y) {
                let i = choose|i: int| 0 <= i < v.len() && v[i] == y;
                if i < v.len() - 1 {
                    assert(v.drop_last()[i] == y);
                }
            }
            if v.drop_last().contains(y) {
                let i = choose|i: int| 0 <= i < v.drop_last().len() && v.drop_last()[i] == y;
                assert(v[i] == y);
            }
            if y == v.last() {
                assert(v[v.len() - 1] == y);
            }
        }
        if v.last() != x {
            assert forall|y: Seq<char>| w.push(v.last()).contains(y) <==> (w.contains(y) || y == v.last()) by {
                if w.push(v.last()).contains(y) {
                    let i = choose|i: int| 0 <= i < w.push(v.last()).len() && w.push(v.last())[i] == y;
                    if i < w.len() {
                        assert(w[i] == y);
                    }
                }
                if w.contains(y) {
                    let i = choose|i: int| 0 <= i < w.len() && w[i] == y;
                    assert(w.push(v.last())[i] == y);
                }
                if y == v.last() {
                    assert(w.push(v.last())[w.len() as int] == y);
                }
            }
            if v.no_duplicates() {
                assert(!v.drop_last().contains(v.last())) by {
                    if v.drop_last().contains(v.last()) {
                        let i = choose|i: int| 0 <= i < v.drop_last().len() && v.drop_last()[i] == v.last();
                        assert(v[i] == v[v.len() - 1]);
                    }
                }
                assert(v.drop_last().no_duplicates()) by {
                    assert forall|i: int, j: int|
                        0 <= i < v.drop_last().len() && 0 <= j < v.drop_last().len() && i != j implies v.drop_last()[i]
                        != v.drop_last()[j] by {
                        assert(v[i] != v[j]);
                    }
                }
                assert(w.push(v.last()).no_duplicates()) by {
                    assert forall|i: int, j: int|
                        0 <= i < w.push(v.last()).len() && 0 <= j < w.push(v.last()).len() && i != j implies w.push(
                            v.last(),
                        )[i] != w.push(v.last())[j] by {
                        if i < w.len() && j < w.len() {
                        } else if i < w.len() {
                            assert(w.contains(w[i]));
                        } else if j < w.len() {
                            assert(w.contains(w[j]));
                        }
                    }
                }
            }
            if v.contains(x) {
                assert(v.drop_last().contains(x));
            }
            assert(without(v, x) == w.push(v.last()));
            assert forall|y: Seq<char>| #[trigger] without(v, x).contains(y) <==> (v.contains(y) && y != x) by {
                assert(w.contains(y) <==> (v.drop_last().contains(y) && y != x));
            }
        } else {
            assert(without(v, x) == w);
            assert forall|y: Seq<char>| #[trigger] without(v, x).contains(y) <==> (v.contains(y) && y != x) by {
                assert(w.contains(y) <==> (v.drop_last().contains(y) && y != x));
            }
            if v.no_duplicates() {
                assert(v.drop_last().no_duplicates()) by {
                    assert forall|i: int, j: int|
                        0 <= i < v.drop_last().len() && 0 <= j < v.drop_last().len() && i != j implies v.drop_last()[i]
                        != v.drop_last()[j] by {
                        assert(v[i] != v[j]);
                    }
                }
            }
        }
    }
}

proof fn lemma_retained(v: Seq<Seq<char>>, keep: Seq<Seq<char>>)
    ensures
        retained(v, keep).len() <= v.len(),
        forall|y: Seq<char>| #[trigger] retained(v, keep).contains(y) <==> (v.contains(y) && keep.contains(y)),
        v.no_duplicates() ==> retained(v, keep).no_duplicates(),
    decreases v.len(),
{
    if v.len() > 0 {
        let w = retained(v.drop_last(), keep);
        lemma_retained(v.drop_last(), keep);
        assert forall|y: Seq<char>| v.contains(y) <==> (v.drop_last().contains(y) || y == v.last()) by {
            if v.contains(y) {
                let i = choose|i: int| 0 <= i < v.len() && v[i] == y;
                if i < v.len() - 1 {
                    assert(v.drop_last()[i] == y);
                }
            }
            if v.drop_last().contains(y) {
                let i = choose|i: int| 0 <= i < v.drop_last().len() && v.drop_last()[i] == y;
                assert(v[i] == y);
            }
            if y == v.last() {
                assert(v[v.len() - 1] == y);
            }
        }
        if v.no_duplicates() {
            assert(v.drop_last().no_duplicates()) by {
                assert forall|i: int, j: int|
                    0 <= i < v.drop_last().len() && 0 <= j < v.drop_last().len() && i != j implies v.drop_last()[i]
                    != v.drop_last()[j] by {
                    assert(v[i] != v[j]);
                }
            }
        }
        if keep.contains(v.last()) {
            assert forall|y: Seq<char>| w.push(v.last()).contains(y) <==> (w.contains(y) || y == v.last()) by {
                if w.push(v.last()).contains(y) {
                    let i = choose|i: int| 0 <= i < w.push(v.last()).len() && w.push(v.last())[i] == y;
                    if i < w.len() {
                        assert(w[i] == y);
                    }
                }
                if w.contains(y) {
                    let i = choose|i: int| 0 <= i < w.len() && w[i] == y;
                    assert(w.push(v.last())[i] == y);
                }
                if y == v.last() {
                    assert(w.push(v.last())[w.len() as int] == y);
                }
            }
            if v.no_duplicates() {
                assert(!v.drop_last().contains(v.last())) by {
                    if v.drop_last().contains(v.last()) {
                        let i = choose|i: int| 0 <= i < v.drop_last().len() && v.drop_last()[i] == v.last();
                        assert(v[i] == v[v.len() - 1]);
                    }
                }
                assert(w.push(v.last()).no_duplicates()) by {
                    assert forall|i: int, j: int|
                        0 <= i < w.push(v.last()).len() && 0 <= j < w.push(v.last()).len() && i != j implies w.push(
                            v.last(),
                        )[i] != w.push(v.last())[j] by {
                        if i < w.len() && j < w.len() {
                        } else if i < w.len() {
                            assert(w.contains(w[i]));
                        } else if j < w.len() {
                            assert(w.contains(w[j]));
                        }
                    }
                }
            }
            assert(retained(v, keep) == w.push(v.last()));
            assert forall|y: Seq<char>| #[trigger] retained(v, keep).contains(y) <==> (v.contains(y) && keep.contains(y)) by {
                assert(w.contains(y) <==> (v.drop_last().contains(y) && keep.contains(y)));
            }
        } else {
            assert(retained(v, keep) == w);
            assert forall|y: Seq<char>| #[trigger] retained(v, keep).contains(y) <==> (v.contains(y) && keep.contains(y)) by {
                assert(w.contains(y) <==> (v.drop_last().contains(y) && keep.contains(y)));
            }
        }
    }
}

/// Reloading the run list keeps the Compare Runs invariant: at most four
/// distinct visible runs and a selection inside the list.
pub proof fn lemma_refresh_keeps_wf(c: CompareView, runs: Seq<(Seq<char>, Seq<char>)>)
    requires
        c.visible.len() <= MAX_VISIBLE_RUNS,
        c.visible.no_duplicates(),
    ensures
        compare_refreshed(c, runs).visible.len() <= MAX_VISIBLE_RUNS,
        compare_refreshed(c, runs).visible.no_duplicates(),
        compare_refreshed(c, runs).selected <= last_index_of(runs.len()),
        compare_refreshed(c, runs).metric == c.metric,
{
    lemma_retained(c.visible, run_ids(runs));
}

/// Every key keeps the view's invariant.
pub proof fn lemma_key_step_keeps_wf(s: OpsView, k: KeyInput, ctx: OpsContext)
    requires
        ops_wf(s),
    ensures
        ops_wf(key_step(s, k, ctx).0),
{
    let c = s.compare;
    if c.selected < c.runs.len() {
        lemma_without(c.visible, c.runs[c.selected as int].0);
        if !c.visible.contains(c.runs[c.selected as int].0) {
            let v2 = c.visible.push(c.runs[c.selected as int].0);
            assert(v2.no_duplicates()) by {
                assert forall|i: int, j: int| 0 <= i < v2.len() && 0 <= j < v2.len() && i != j implies v2[i] != v2[j] by {
                    if i < c.visible.len() && j < c.visible.len() {
                    } else if i < c.visible.len() {
                        assert(c.visible.contains(c.visible[i]));
                    } else if j < c.visible.len() {
                        assert(c.visible.contains(c.visible[j]));
                    }
                }
            }
        }
    }
}

/// Moving to the next tab and then to the previous one returns to the tab
/// the view started on.
pub proof fn lemma_tab_then_back_tab(s: OpsView, ctx: OpsContext, modifiers: u8)
    requires
        ops_wf(s),
        s.input is None,
    ensures
        ({
            let next = key_step(s, KeyInput { code: KeyCode::Tab, modifiers, press: true }, ctx).0;
            let back = key_step(next, KeyInput { code: KeyCode::BackTab, modifiers, press: true }, ctx).0;
            back.active == s.active
        }),
{
}

/// A run is deleted only on a confirmed request: the `d` key asks for the
/// deletion of the selected run only when that same run was already marked
/// by an earlier `d`.
pub proof fn lemma_delete_needs_confirmation(s: OpsView, k: KeyInput, ctx: OpsContext)
    ensures
        key_step(s, k, ctx).1 matches ActionView::Delete(id, name) ==> {
            &&& s.input is None
            &&& tab_of(s.active) == Tab::Compare
            &&& s.compare.selected < s.compare.runs.len()
            &&& s.compare.runs[s.compare.selected as int] == (id, name)
            &&& s.compare.pending_delete == Some(id)
        },
{
}

/// The view quits only on `q`, or on Control-C, while no name is being typed.
pub proof fn lemma_quit_keys(s: OpsView, k: KeyInput, ctx: OpsContext)
    ensures
        key_step(s, k, ctx).1 is Quit ==> {
            &&& k.press
            &&& s.input is None
            &&& (k.code == KeyCode::Char('q') || (k.code == KeyCode::Char('c') && k.modifiers == CONTROL))
        },
{
}

/// Pressing Space twice on the selected run leaves its visibility as it was.
pub proof fn lemma_space_twice_restores_visibility(s: OpsView, ctx: OpsContext, modifiers: u8)
    requires
        ops_wf(s),
        s.input is None,
        tab_of(s.active) == Tab::Compare,
        s.compare.selected < s.compare.runs.len(),
    ensures
        ({
            let space = KeyInput { code: KeyCode::Char(' '), modifiers, press: true };
            let once = key_step(s, space, ctx).0;
            let twice = key_step(once, space, ctx).0;
            let id = s.compare.runs[s.compare.selected as int].0;
            twice.compare.visible.contains(id) == s.compare.visible.contains(id)
        }),
{
    let id = s.compare.runs[s.compare.selected as int].0;
    let v = s.compare.visible;
    lemma_without(v, id);
    if v.contains(id) {
        let w = without(v, id);
        lemma_without(w.push(id), id);
        assert(w.push(id)[w.len() as int] == id);
    } else if v.len() < MAX_VISIBLE_RUNS {
        assert(v.push(id)[v.len() as int] == id);
        lemma_without(v.push(id), id);
    }
}

/// On the Thermal tab, Right moves one group toward the last group and stops
/// there, Left moves one group back and stops at the first, and nothing else
/// changes but the redraw flag; so Right then Left returns to a group below
/// the last.
pub proof fn lemma_thermal_group_steps(s: OpsView, ctx: OpsContext, modifiers: u8)
    requires
        s.input is None,
        tab_of(s.active) == Tab::Thermal,
        0 < ctx.thermal_groups,
        s.thermal_group < ctx.thermal_groups,
    ensures
        ({
            let right_key = KeyInput { code: KeyCode::Right, modifiers, press: true };
            let left_key = KeyInput { code: KeyCode::Left, modifiers, press: true };
            let right = key_step(s, right_key, ctx);
            let left = key_step(s, left_key, ctx);
            &&& right.1 == ActionView::Continue
            &&& left.1 == ActionView::Continue
            &&& right.0.thermal_group == if s.thermal_group + 1 < ctx.thermal_groups {
                s.thermal_group + 1
            } else {
                s.thermal_group
            }
            &&& left.0.thermal_group == if s.thermal_group > 0 {
                (s.thermal_group - 1) as nat
            } else {
                0
            }
            &&& right.0 == OpsView { thermal_group: right.0.thermal_group, dirty: true, ..s }
            &&& left.0 == OpsView { thermal_group: left.0.thermal_group, dirty: true, ..s }
            &&& s.thermal_group + 1 < ctx.thermal_groups ==> key_step(right.0, left_key, ctx).0.thermal_group
                == s.thermal_group
        }),
{
}

/// Reloading the run list keeps the chosen baseline while that run is still
/// listed; a baseline that is gone, or none at all, becomes the first listed
/// run (none when the list is empty).
pub proof fn lemma_refresh_keeps_listed_baseline(c: CompareView, runs: Seq<(Seq<char>, Seq<char>)>)
    ensures
        (c.baseline matches Some(b) && exists|i: int| 0 <= i < runs.len() && #[trigger] runs[i].0 == b)
            ==> compare_refreshed(c, runs).baseline == c.baseline,
        !(c.baseline matches Some(b) && exists|i: int| 0 <= i < runs.len() && #[trigger] runs[i].0 == b)
            ==> compare_refreshed(c, runs).baseline == if runs.len() > 0 {
            Some(runs[0].0)
        } else {
            None::<Seq<char>>
        },
{
    let ids = run_ids(runs);
    if let Some(b) = c.baseline {
        if exists|i: int| 0 <= i < runs.len() && #[trigger] runs[i].0 == b {
            let i = choose|i: int| 0 <= i < runs.len() && #[trigger] runs[i].0 == b;
            assert(ids[i] == b);
        } else {
            assert(!ids.contains(b)) by {
                if ids.contains(b) {
                    let j = choose|j: int| 0 <= j < ids.len() && ids[j] == b;
                    assert(runs[j].0 == b);
                }
            }
        }
    }
}

/// How long ago the oldest sample of a chart was taken, from its age in
/// whole seconds: `Ns ago` under a minute, `Nm ago` under an hour, then
/// hours, with the minutes when there are any.
pub open spec fn age_text(seconds: i64) -> Seq<char> {
    let s: nat = if seconds > 0 { seconds as nat } else { 0 };
    if s < 60 {
        decimal_text(s) + "s ago"@
    } else if s < 3600 {
        decimal_text(s / 60) + "m ago"@
    } else if (s % 3600) / 60 == 0 {
        decimal_text(s / 3600) + "h ago"@
    } else {
        decimal_text(s / 3600) + "h"@ + decimal_text((s % 3600) / 60) + "m ago"@
    }
}

pub fn age_label(seconds: i64) -> (r: String)
    ensures
        r@ == age_text(seconds),
{
    let s: u64 = if seconds > 0 { seconds as u64 } else { 0 };
    if s < 60 {
        let n = decimal_string(s);
        concat2(n.as_str(), "s ago")
    } else if s < 3600 {
        let n = decimal_string(s / 60);
        concat2(n.as_str(), "m ago")
    } else if (s % 3600) / 60 == 0 {
        let n = decimal_string(s / 3600);
        concat2(n.as_str(), "h ago")
    } else {
        let h = decimal_string(s / 3600);
        let m = decimal_string((s % 3600) / 60);
        let head = concat3(h.as_str(), "h", m.as_str());
        concat2(head.as_str(), "m ago")
    }
}

/// A recording's length from whole seconds: `Ns` under a minute, else
/// minutes and two-digit seconds.
pub open spec fn duration_text(seconds: u64) -> Seq<char> {
    if seconds < 60 {
        decimal_text(seconds as nat) + "s"@
    } else {
        decimal_text((seconds / 60) as nat) + "m"@ + (if seconds % 60 < 10 { "0"@ } else { seq![] })
            + decimal_text((seconds % 60) as nat) + "s"@
    }
}

pub fn duration_label(seconds: u64) -> (r: String)
    ensures
        r@ == duration_text(seconds),
{
    if seconds < 60 {
        let n = decimal_string(seconds);
        concat2(n.as_str(), "s")
    } else {
        let m = decimal_string(seconds / 60);
        let sec = decimal_string(seconds % 60);
        let pad = if seconds % 60 < 10 { "0" } else { "" };
        proof {
            reveal_strlit("");
        }
        let head = concat3(m.as_str(), "m", pad);
        concat3(head.as_str(), sec.as_str(), "s")
    }
}

/// How many metrics are CPU cores (keys starting `cpu_core_`).
pub open spec fn core_count_of(keys: Seq<Seq<char>>) -> nat
    decreases keys.len(),
{
    if keys.len() == 0 {
        0
    } else {
        core_count_of(keys.drop_last()) + if starts_with(keys.last(), "cpu_core_"@) { 1nat } else { 0nat }
    }
}

pub open spec fn metric_keys(metrics: Seq<MetricDefinition>) -> Seq<Seq<char>> {
    metrics.map_values(|m: MetricDefinition| m.key@)
}

pub fn cpu_core_count(metrics: &[MetricDefinition]) -> (r: usize)
    ensures
        r == core_count_of(metric_keys(metrics@)),
{
    let prefix = to_chars("cpu_core_");
    let ghost keys = metric_keys(metrics@);
    let mut count: usize = 0;
    let mut i: usize = 0;
    while i < metrics.len()
        invariant
            keys == metric_keys(metrics@),
            prefix@ == "cpu_core_"@,
            i <= metrics@.len(),
            count == core_count_of(keys.take(i as int)),
            count <= i,
        decreases metrics@.len() - i,
    {
        assert(keys.take(i + 1).drop_last() =~= keys.take(i as int));
        let key = to_chars(metrics[i].key.as_str());
        if starts_with_chars(key.as_slice(), prefix.as_slice()) {
            count = count + 1;
        }
        i = i + 1;
    }
    assert(keys.take(metrics@.len() as int) =~= keys);
    count
}

/// The keys of the temperature metrics (unit `C`), in order.
pub open spec fn thermal_keys_of(metrics: Seq<MetricDefinition>) -> Seq<Seq<char>>
    decreases metrics.len(),
{
    if metrics.len() == 0 {
        seq![]
    } else if metrics.last().unit@ == "C"@ {
        thermal_keys_of(metrics.drop_last()).push(metrics.last().key@)
    } else {
        thermal_keys_of(metrics.drop_last())
    }
}

pub fn thermal_metric_keys(metrics: &[MetricDefinition]) -> (r: Vec<String>)
    ensures
        r@.map_values(|s: String| s@) == thermal_keys_of(metrics@),
{
    let mut out: Vec<String> = Vec::new();
    let mut i: usize = 0;
    while i < metrics.len()
        invariant
            i <= metrics@.len(),
            out@.map_values(|s: String| s@) == thermal_keys_of(metrics@.take(i as int)),
        decreases metrics@.len() - i,
    {
        assert(metrics@.take(i + 1).drop_last() =~= metrics@.take(i as int));
        if same_text(metrics[i].unit.as_str(), "C") {
            let ghost before = out@.map_values(|s: String| s@);
            out.push(copy_string(metrics[i].key.as_str()));
            assert(out@.map_values(|s: String| s@) =~= before.push(metrics@[i as int].key@));
        }
        i = i + 1;
    }
    assert(metrics@.take(metrics@.len() as int) =~= metrics@);
    out
}

pub open spec fn is_thermal(m: MetricDefinition) -> bool {
    m.unit@ == "C"@
}

/// Some temperature metric belongs to group `g`.
pub open spec fn has_group(ms: Seq<MetricDefinition>, g: Seq<char>) -> bool {
    exists|i: int| 0 <= i < ms.len() && is_thermal(#[trigger] ms[i]) && ms[i].group@ == g
}

/// The keys of the temperature metrics of group `g`, in order.
pub open spec fn group_keys(ms: Seq<MetricDefinition>, g: Seq<char>) -> Seq<Seq<char>>
    decreases ms.len(),
{
    if ms.len() == 0 {
        seq![]
    } else if is_thermal(ms.last()) && ms.last().group@ == g {
        group_keys(ms.drop_last(), g).push(ms.last().key@)
    } else {
        group_keys(ms.drop_last(), g)
    }
}

/// The groups the Thermal tab shows first, in this order.
pub open spec fn known_groups() -> Seq<Seq<char>> {
    seq!["MLA"@, "APU"@, "CVU"@, "TOP"@, "Board"@]
}

pub open spec fn known_part(ms: Seq<MetricDefinition>) -> Seq<(Seq<char>, Seq<Seq<char>>)> {
    crate::text::collect_some(
        known_groups(),
        |g: Seq<char>| if has_group(ms, g) { Some((g, group_keys(ms, g))) } else { None },
    )
}

/// The temperature groups as the Thermal tab lists them: the known groups
/// that occur, in their fixed order, then every other group in text order,
/// each with the keys of its metrics.
pub open spec fn thermal_groups_ok(ms: Seq<MetricDefinition>, r: Seq<(Seq<char>, Seq<Seq<char>>)>) -> bool {
    let k = known_part(ms).len() as int;
    let rest = r.skip(k);
    &&& r.len() >= k
    &&& r.take(k) == known_part(ms)
    &&& forall|j: int|
        0 <= j < rest.len() ==> {
            &&& (#[trigger] rest[j]).1 == group_keys(ms, rest[j].0)
            &&& has_group(ms, rest[j].0)
            &&& !known_groups().contains(rest[j].0)
        }
    &&& forall|a: int, b: int| 0 <= a < b < rest.len() ==> text_lt(#[trigger] rest[a].0, #[trigger] rest[b].0)
    &&& forall|g: Seq<char>|
        has_group(ms, g) && !known_groups().contains(g) ==> exists|j: int| 0 <= j < rest.len() && #[trigger] rest[j].0 == g
}

pub open spec fn names_view(v: Seq<String>) -> Seq<Seq<char>> {
    v.map_values(|s: String| s@)
}

fn keys_of_group(metrics: &[MetricDefinition], group: &str) -> (r: Vec<String>)
    ensures
        names_view(r@) == group_keys(metrics@, group@),
{
    let mut out: Vec<String> = Vec::new();
    let mut i: usize = 0;
    while i < metrics.len()
        invariant
            i <= metrics@.len(),
            names_view(out@) == group_keys(metrics@.take(i as int), group@),
        decreases metrics@.len() - i,
    {
        assert(metrics@.take(i + 1).drop_last() =~= metrics@.take(i as int));
        if same_text(metrics[i].unit.as_str(), "C") && same_text(metrics[i].group.as_str(), group) {
            let ghost before = names_view(out@);
            out.push(copy_string(metrics[i].key.as_str()));
            assert(names_view(out@) =~= before.push(metrics@[i as int].key@));
        }
        i = i + 1;
    }
    assert(metrics@.take(metrics@.len() as int) =~= metrics@);
    out
}

fn contains_text(v: &[String], t: &str) -> (r: bool)
    ensures
        r == names_view(v@).contains(t@),
{
    let mut i: usize = 0;
    while i < v.len()
        invariant
            i <= v@.len(),
            forall|j: int| 0 <= j < i ==> names_view(v@)[j] != t@,
        decreases v@.len() - i,
    {
        if same_text(v[i].as_str(), t) {
            assert(names_view(v@)[i as int] == t@);
            return true;
        }
        i = i + 1;
    }
    false
}

/// The distinct temperature groups, in order of first appearance.
fn thermal_group_names(metrics: &[MetricDefinition]) -> (r: Vec<String>)
    ensures
        names_view(r@).no_duplicates(),
        forall|j: int| 0 <= j < r@.len() ==> has_group(metrics@, #[trigger] names_view(r@)[j]),
        forall|g: Seq<char>| has_group(metrics@, g) ==> names_view(r@).contains(g),
{
    let mut names: Vec<String> = Vec::new();
    let mut i: usize = 0;
    while i < metrics.len()
        invariant
            i <= metrics@.len(),
            names_view(names@).no_duplicates(),
            forall|j: int| 0 <= j < names@.len() ==> has_group(metrics@.take(i as int), #[trigger] names_view(names@)[j]),
            forall|g: Seq<char>| has_group(metrics@.take(i as int), g) ==> names_view(names@).contains(g),
        decreases metrics@.len() - i,
    {
        let ghost pre = metrics@.take(i as int);
        let ghost post = metrics@.take(i + 1);
        assert forall|g: Seq<char>| has_group(pre, g) implies has_group(post, g) by {
            let w = choose|w: int| 0 <= w < pre.len() && is_thermal(#[trigger] pre[w]) && pre[w].group@ == g;
            assert(post[w] == pre[w]);
        }
        assert forall|g: Seq<char>| has_group(post, g) implies has_group(pre, g) || (is_thermal(metrics@[i as int]) && metrics@[i as int].group@ == g) by {
            let w = choose|w: int| 0 <= w < post.len() && is_thermal(#[trigger] post[w]) && post[w].group@ == g;
            if w < i {
                assert(pre[w] == post[w]);
            }
        }
        if same_text(metrics[i].unit.as_str(), "C") && !contains_text(&names, metrics[i].group.as_str()) {
            let ghost before = names_view(names@);
            names.push(copy_string(metrics[i].group.as_str()));
            assert(names_view(names@) =~= before.push(metrics@[i as int].group@));
            assert(has_group(post, metrics@[i as int].group@)) by {
                assert(post[i as int] == metrics@[i as int]);
            }
            assert forall|g: Seq<char>| has_group(post, g) implies names_view(names@).contains(g) by {
                if has_group(pre, g) {
                    assert(before.contains(g));
                    let w = choose|w: int| 0 <= w < before.len() && before[w] == g;
                    assert(names_view(names@)[w] == g);
                } else {
                    assert(names_view(names@)[before.len() as int] == g);
                }
            }
        } else {
            assert forall|g: Seq<char>| has_group(post, g) implies names_view(names@).contains(g) by {
                if !has_group(pre, g) {
                    assert(is_thermal(metrics@[i as int]) && metrics@[i as int].group@ == g);
                }
            }
        }
        i = i + 1;
    }
    assert(metrics@.take(metrics@.len() as int) =~= metrics@);
    names
}

fn known_group(k: usize) -> (r: &'static str)
    requires
        k < 5,
    ensures
        r@ == known_groups()[k as int],
{
    if k == 0 {
        "MLA"
    } else if k == 1 {
        "APU"
    } else if k == 2 {
        "CVU"
    } else if k == 3 {
        "TOP"
    } else {
        "Board"
    }
}

fn is_known_group(g: &str) -> (r: bool)
    ensures
        r == known_groups().contains(g@),
{
    let mut k: usize = 0;
    while k < 5
        invariant
            k <= 5,
            forall|j: int| 0 <= j < k ==> known_groups()[j] != g@,
        decreases 5 - k,
    {
        if same_text(known_group(k), g) {
            assert(known_groups()[k as int] == g@);
            return true;
        }
        k = k + 1;
    }
    false
}

pub open spec fn groups_view(r: Seq<(String, Vec<String>)>) -> Seq<(Seq<char>, Seq<Seq<char>>)> {
    r.map_values(|e: (String, Vec<String>)| (e.0@, names_view(e.1@)))
}

/// The temperature metric keys grouped for the Thermal tab.
pub fn thermal_groups(metrics: &[MetricDefinition]) -> (r: Vec<(String, Vec<String>)>)
    ensures
        thermal_groups_ok(metrics@, groups_view(r@)),
{
    let ghost ms = metrics@;
    let names = thermal_group_names(metrics);
    let ghost nv = names_view(names@);
    let ghost f = |g: Seq<char>| if has_group(ms, g) { Some((g, group_keys(ms, g))) } else { None };
    let mut out: Vec<(String, Vec<String>)> = Vec::new();
    let mut k: usize = 0;
    assert(groups_view(out@) =~= crate::text::collect_some(known_groups().take(0), f));
    while k < 5
        invariant
            k <= 5,
            ms == metrics@,
            nv == names_view(names@),
            forall|g: Seq<char>| has_group(ms, g) <==> nv.contains(g),
            f == (|g: Seq<char>| if has_group(ms, g) { Some((g, group_keys(ms, g))) } else { None }),
            groups_view(out@) == crate::text::collect_some(known_groups().take(k as int), f),
        decreases 5 - k,
    {
        proof {
            crate::text::lemma_collect_some_step(known_groups(), k as int, f);
        }
        let g = known_group(k);
        if contains_text(&names, g) {
            let ghost before = groups_view(out@);
            let keys = keys_of_group(metrics, g);
            out.push((copy_string(g), keys));
            assert(groups_view(out@) =~= before.push((g@, group_keys(ms, g@))));
        }
        k = k + 1;
    }
    assert(known_groups().take(5) =~= known_groups());
    let ghost known = groups_view(out@);
    assert(known == known_part(ms));
    let mut rest: Vec<String> = Vec::new();
    let mut i: usize = 0;
    while i < names.len()
        invariant
            i <= names@.len(),
            nv == names_view(names@),
            nv.no_duplicates(),
            forall|a: int, b: int| 0 <= a < b < rest@.len() ==> text_lt(#[trigger] names_view(rest@)[a], #[trigger] names_view(rest@)[b]),
            forall|j: int| 0 <= j < rest@.len() ==> exists|m: int| 0 <= m < i && nv[m] == #[trigger] names_view(rest@)[j],
            forall|j: int| 0 <= j < rest@.len() ==> !known_groups().contains(#[trigger] names_view(rest@)[j]),
            forall|m: int| 0 <= m < i && !known_groups().contains(#[trigger] nv[m]) ==> names_view(rest@).contains(nv[m]),
        decreases names@.len() - i,
    {
        let x = names[i].as_str();
        assert(x@ == nv[i as int]);
        if !is_known_group(x) {
            let mut p: usize = 0;
            while p < rest.len() && !text_less(x, rest[p].as_str())
                invariant
                    p <= rest@.len(),
                    forall|q: int| 0 <= q < p ==> !text_lt(x@, #[trigger] names_view(rest@)[q]),
                decreases rest@.len() - p,
            {
                p = p + 1;
            }
            let ghost old_rest = names_view(rest@);
            assert forall|q: int| 0 <= q < old_rest.len() implies old_rest[q] != x@ by {
                let m = choose|m: int| 0 <= m < i && nv[m] == #[trigger] old_rest[q];
                assert(nv[m] != nv[i as int]);
            }
            rest.insert(p, copy_string(x));
            let ghost new_rest = names_view(rest@);
            assert(new_rest =~= old_rest.insert(p as int, x@));
            assert forall|a: int, b: int| 0 <= a < b < new_rest.len() implies text_lt(#[trigger] new_rest[a], #[trigger] new_rest[b]) by {
                if b < p {
                } else if b == p {
                    lemma_text_lt_total(x@, old_rest[a]);
                } else if a < p {
                    assert(new_rest[b] == old_rest[b - 1]);
                } else if a == p {
                    if b - 1 > p {
                        lemma_text_lt_transitive(x@, old_rest[p as int], old_rest[b - 1]);
                    }
                } else {
                    assert(new_rest[a] == old_rest[a - 1] && new_rest[b] == old_rest[b - 1]);
                }
            }
            assert forall|j: int| 0 <= j < new_rest.len() implies exists|m: int| 0 <= m < i + 1 && nv[m] == #[trigger] new_rest[j] by {
                if j < p {
                    assert(new_rest[j] == old_rest[j]);
                    let m = choose|m: int| 0 <= m < i && nv[m] == #[trigger] old_rest[j];
                    assert(nv[m] == new_rest[j]);
                } else if j == p {
                    assert(nv[i as int] == new_rest[j]);
                } else {
                    assert(new_rest[j] == old_rest[j - 1]);
                    let m = choose|m: int| 0 <= m < i && nv[m] == #[trigger] old_rest[j - 1];
                    assert(nv[m] == new_rest[j]);
                }
            }
            assert forall|j: int| 0 <= j < new_rest.len() implies !known_groups().contains(#[trigger] new_rest[j]) by {
                if j < p {
                    assert(new_rest[j] == old_rest[j]);
                } else if j > p {
                    assert(new_rest[j] == old_rest[j - 1]);
                }
            }
            assert forall|m: int| 0 <= m < i + 1 && !known_groups().contains(#[trigger] nv[m]) implies new_rest.contains(nv[m]) by {
                if m < i {
                    let q = choose|q: int| 0 <= q < old_rest.len() && old_rest[q] == nv[m];
                    if q < p {
                        assert(new_rest[q] == nv[m]);
                    } else {
                        assert(new_rest[q + 1] == nv[m]);
                    }
                } else {
                    assert(new_rest[p as int] == nv[m]);
                }
            }
        }
        i = i + 1;
    }
    let ghost rest_names = names_view(rest@);
    let mut j: usize = 0;
    while j < rest.len()
        invariant
            j <= rest@.len(),
            ms == metrics@,
            rest_names == names_view(rest@),
            groups_view(out@).len() == known.len() + j,
            groups_view(out@).take(known.len() as int) == known,
            forall|q: int| 0 <= q < j ==> #[trigger] groups_view(out@)[known.len() + q] == (rest_names[q], group_keys(ms, rest_names[q])),
        decreases rest@.len() - j,
    {
        let ghost before = groups_view(out@);
        let keys = keys_of_group(metrics, rest[j].as_str());
        out.push((copy_string(rest[j].as_str()), keys));
        assert(groups_view(out@) =~= before.push((rest_names[j as int], group_keys(ms, rest_names[j as int]))));
        assert(groups_view(out@).take(known.len() as int) =~= before.take(known.len() as int));
        j = j + 1;
    }
    let ghost rv = groups_view(out@);
    let ghost tail = rv.skip(known.len() as int);
    assert forall|q: int| 0 <= q < tail.len() implies #[trigger] tail[q] == (rest_names[q], group_keys(ms, rest_names[q])) by {
        assert(tail[q] == rv[known.len() + q]);
    }
    assert forall|g: Seq<char>| has_group(ms, g) && !known_groups().contains(g) implies exists|q: int| 0 <= q < tail.len() && #[trigger] tail[q].0 == g by {
        assert(nv.contains(g));
        let m = choose|m: int| 0 <= m < nv.len() && nv[m] == g;
        assert(names_view(rest@).contains(nv[m]));
        let q = choose|q: int| 0 <= q < rest_names.len() && rest_names[q] == g;
        assert(tail[q].0 == g);
    }
    assert forall|q: int| 0 <= q < tail.len() implies has_group(ms, (#[trigger] tail[q]).0) by {
        let m = choose|m: int| 0 <= m < names@.len() && nv[m] == #[trigger] rest_names[q];
    }
    out
}

/// The positions, in order, of the processes last seen on core `selected`.
pub open spec fn on_core(cores: Seq<Option<usize>>, selected: usize) -> Seq<usize>
    decreases cores.len(),
{
    if cores.len() == 0 {
        seq![]
    } else if cores.last() == Some(selected) {
        on_core(cores.drop_last(), selected).push((cores.len() - 1) as usize)
    } else {
        on_core(cores.drop_last(), selected)
    }
}

/// The processes the System tab lists for a core: those last seen on it, or
/// every process when none was.
pub open spec fn focused_of(cores: Seq<Option<usize>>, selected: usize) -> Seq<usize> {
    if on_core(cores, selected).len() > 0 {
        on_core(cores, selected)
    } else {
        Seq::new(cores.len(), |i: int| i as usize)
    }
}

/// Which processes to list for the selected core, given each process's last
/// core.
pub fn focused_processes(cores: &[Option<usize>], selected: usize) -> (r: Vec<usize>)
    ensures
        r@ == focused_of(cores@, selected),
{
    let mut out: Vec<usize> = Vec::new();
    let mut i: usize = 0;
    while i < cores.len()
        invariant
            i <= cores@.len(),
            out@ == on_core(cores@.take(i as int), selected),
        decreases cores@.len() - i,
    {
        assert(cores@.take(i + 1).drop_last() =~= cores@.take(i as int));
        if cores[i] == Some(selected) {
            out.push(i);
        }
        i = i + 1;
    }
    assert(cores@.take(cores@.len() as int) =~= cores@);
    if out.len() > 0 {
        return out;
    }
    let mut all: Vec<usize> = Vec::new();
    let mut k: usize = 0;
    while k < cores.len()
        invariant
            k <= cores@.len(),
            all@ == Seq::new(k as nat, |j: int| j as usize),
        decreases cores@.len() - k,
    {
        all.push(k);
        assert(all@ =~= Seq::new((k + 1) as nat, |j: int| j as usize));
        k = k + 1;
    }
    all
}

} // verus!
