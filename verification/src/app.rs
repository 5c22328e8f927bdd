use vstd::prelude::*;

use crate::herdr::{
    clone_opt, clone_panes, clone_tabs, opt_view, Failure, PaneInfo, PaneView, TabInfo, TabView, Topology,
    TopologyView, WorkspaceInfo, WorkspaceView,
};
use crate::labels::{
    pane_name, pane_name_of, tab_label_by_id, tab_label_by_id_of, tab_name, tab_name_of, workspace_index,
    workspace_label, workspace_label_of, workspace_name, workspace_name_of, workspace_number, workspace_number_of,
    tab_number, tab_number_of,
};
use crate::sort::{key_views, stable_order, stable_sort, KeyView, SortKey};
use crate::layout::SplitDirection;
use crate::move_ops::{contains_string, find_pane_with_id, find_tab_with_id, pane_with_id, tab_with_id, views};
use crate::text::{chars_of, concat, decimal, decimal_text, push_char, string_of};

verus! {

/// What the user moves.
#[derive(Clone, Copy, Debug, PartialEq, Eq, Structural)]
pub enum MoveKind {
    Pane,
    Tab,
    Workspace,
}

/// Where selected panes go.
#[derive(Debug, PartialEq, Eq)]
pub enum PaneDestination {
    ExistingTab { tab_id: String },
    NewTab { workspace_id: String, label: Option<String> },
    NewWorkspace { label: Option<String> },
}

pub ghost enum PaneDestinationView {
    ExistingTab { tab_id: Seq<char> },
    NewTab { workspace_id: Seq<char>, label: Option<Seq<char>> },
    NewWorkspace { label: Option<Seq<char>> },
}

impl View for PaneDestination {
    type V = PaneDestinationView;

    open spec fn view(&self) -> PaneDestinationView {
        match self {
            PaneDestination::ExistingTab { tab_id } => PaneDestinationView::ExistingTab { tab_id: tab_id@ },
            PaneDestination::NewTab { workspace_id, label } => PaneDestinationView::NewTab {
                workspace_id: workspace_id@,
                label: opt_view(*label),
            },
            PaneDestination::NewWorkspace { label } => PaneDestinationView::NewWorkspace { label: opt_view(*label) },
        }
    }
}

impl Clone for PaneDestination {
    fn clone(&self) -> (r: Self)
        ensures
            r == *self,
    {
        match self {
            PaneDestination::ExistingTab { tab_id } => PaneDestination::ExistingTab { tab_id: tab_id.clone() },
            PaneDestination::NewTab { workspace_id, label } => PaneDestination::NewTab {
                workspace_id: workspace_id.clone(),
                label: clone_opt(label),
            },
            PaneDestination::NewWorkspace { label } => PaneDestination::NewWorkspace { label: clone_opt(label) },
        }
    }
}

/// Where selected tabs go.
#[derive(Debug, PartialEq, Eq)]
pub enum TabDestination {
    Workspace { workspace_id: String },
    NewWorkspace { label: Option<String> },
}

pub ghost enum TabDestinationView {
    Workspace { workspace_id: Seq<char> },
    NewWorkspace { label: Option<Seq<char>> },
}

impl View for TabDestination {
    type V = TabDestinationView;

    open spec fn view(&self) -> TabDestinationView {
        match self {
            TabDestination::Workspace { workspace_id } => TabDestinationView::Workspace { workspace_id: workspace_id@ },
            TabDestination::NewWorkspace { label } => TabDestinationView::NewWorkspace { label: opt_view(*label) },
        }
    }
}

impl Clone for TabDestination {
    fn clone(&self) -> (r: Self)
        ensures
            r == *self,
    {
        match self {
            TabDestination::Workspace { workspace_id } => TabDestination::Workspace { workspace_id: workspace_id.clone() },
            TabDestination::NewWorkspace { label } => TabDestination::NewWorkspace { label: clone_opt(label) },
        }
    }
}

/// One selected pane, with the tab it was in when it was selected.
#[derive(Debug, PartialEq, Eq)]
pub struct PaneSource {
    pub pane_id: String,
    pub expected_tab_id: String,
}

pub ghost struct PaneSourceView {
    pub pane_id: Seq<char>,
    pub expected_tab_id: Seq<char>,
}

impl View for PaneSource {
    type V = PaneSourceView;

    open spec fn view(&self) -> PaneSourceView {
        PaneSourceView { pane_id: self.pane_id@, expected_tab_id: self.expected_tab_id@ }
    }
}

impl Clone for PaneSource {
    fn clone(&self) -> (r: Self)
        ensures
            r == *self,
    {
        PaneSource { pane_id: self.pane_id.clone(), expected_tab_id: self.expected_tab_id.clone() }
    }
}

/// A request to move panes, in selection order.
#[derive(Debug, PartialEq, Eq)]
pub struct MovePaneRequest {
    pub sources: Vec<PaneSource>,
    pub direction: SplitDirection,
    pub destination: PaneDestination,
}

pub ghost struct MovePaneView {
    pub sources: Seq<PaneSourceView>,
    pub direction: SplitDirection,
    pub destination: PaneDestinationView,
}

impl View for MovePaneRequest {
    type V = MovePaneView;

    open spec fn view(&self) -> MovePaneView {
        MovePaneView {
            sources: self.sources@.map_values(|s: PaneSource| s@),
            direction: self.direction,
            destination: self.destination@,
        }
    }
}

/// A request to move whole tabs, in selection order.
#[derive(Debug, PartialEq, Eq)]
pub struct MoveTabRequest {
    pub tab_ids: Vec<String>,
    pub destination: TabDestination,
}

pub ghost struct MoveTabView {
    pub tab_ids: Seq<Seq<char>>,
    pub destination: TabDestinationView,
}

impl View for MoveTabRequest {
    type V = MoveTabView;

    open spec fn view(&self) -> MoveTabView {
        MoveTabView { tab_ids: self.tab_ids@.map_values(|t: String| t@), destination: self.destination@ }
    }
}

/// A request to append every tab of one workspace to another.
#[derive(Debug, PartialEq, Eq)]
pub struct MergeWorkspaceRequest {
    pub source_workspace_id: String,
    pub destination_workspace_id: String,
}

pub ghost struct MergeView {
    pub source_workspace_id: Seq<char>,
    pub destination_workspace_id: Seq<char>,
}

impl View for MergeWorkspaceRequest {
    type V = MergeView;

    open spec fn view(&self) -> MergeView {
        MergeView {
            source_workspace_id: self.source_workspace_id@,
            destination_workspace_id: self.destination_workspace_id@,
        }
    }
}

/// What the picker wants after an input: go on, close, or carry out a request.
#[derive(Debug, PartialEq, Eq)]
pub enum InputOutcome {
    Continue,
    Cancel,
    MovePane(MovePaneRequest),
    MoveTab(MoveTabRequest),
    MergeWorkspace(MergeWorkspaceRequest),
}

pub ghost enum OutcomeView {
    Continue,
    Cancel,
    MovePane(MovePaneView),
    MoveTab(MoveTabView),
    MergeWorkspace(MergeView),
}

impl View for InputOutcome {
    type V = OutcomeView;

    open spec fn view(&self) -> OutcomeView {
        match self {
            InputOutcome::Continue => OutcomeView::Continue,
            InputOutcome::Cancel => OutcomeView::Cancel,
            InputOutcome::MovePane(r) => OutcomeView::MovePane(r@),
            InputOutcome::MoveTab(r) => OutcomeView::MoveTab(r@),
            InputOutcome::MergeWorkspace(r) => OutcomeView::MergeWorkspace(r@),
        }
    }
}

/// How a row is marked.
#[derive(Clone, Copy, Debug, PartialEq, Eq, Structural)]
pub enum RowTone {
    Normal,
    Current,
    Create,
}

/// One row of the picker's list.
#[derive(Debug, PartialEq, Eq)]
pub struct DisplayRow {
    pub title: String,
    pub detail: String,
    pub tone: RowTone,
    pub checked: bool,
}

pub ghost struct RowView {
    pub title: Seq<char>,
    pub detail: Seq<char>,
    pub tone: RowTone,
    pub checked: bool,
}

impl View for DisplayRow {
    type V = RowView;

    open spec fn view(&self) -> RowView {
        RowView { title: self.title@, detail: self.detail@, tone: self.tone, checked: self.checked }
    }
}

impl Clone for DisplayRow {
    fn clone(&self) -> (r: Self)
        ensures
            r == *self,
    {
        DisplayRow { title: self.title.clone(), detail: self.detail.clone(), tone: self.tone, checked: self.checked }
    }
}

/// A key, as the picker sees it.
#[derive(Clone, Copy, Debug, PartialEq, Eq, Structural)]
pub enum KeyCode {
    Char(char),
    Enter,
    Esc,
    Up,
    Down,
    PageUp,
    PageDown,
    Home,
    End,
    Backspace,
    Tab,
    BackTab,
    Other,
}

/// Whether a key went down, repeats, or went up.
#[derive(Clone, Copy, Debug, PartialEq, Eq, Structural)]
pub enum KeyEventKind {
    Press,
    Repeat,
    Release,
}

/// The modifier keys the picker reads.
#[derive(Clone, Copy, Debug, PartialEq, Eq, Structural)]
pub struct KeyModifiers {
    pub control: bool,
    pub alt: bool,
}

impl KeyModifiers {
    pub fn none() -> (r: KeyModifiers)
        ensures
            !r.control && !r.alt,
    {
        KeyModifiers { control: false, alt: false }
    }

    pub fn control() -> (r: KeyModifiers)
        ensures
            r.control && !r.alt,
    {
        KeyModifiers { control: true, alt: false }
    }

    pub fn alt() -> (r: KeyModifiers)
        ensures
            !r.control && r.alt,
    {
        KeyModifiers { control: false, alt: true }
    }
}

/// One key input.
#[derive(Clone, Copy, Debug, PartialEq, Eq, Structural)]
pub struct KeyEvent {
    pub code: KeyCode,
    pub modifiers: KeyModifiers,
    pub kind: KeyEventKind,
}

impl KeyEvent {
    /// A key press.
    pub fn new(code: KeyCode, modifiers: KeyModifiers) -> (r: KeyEvent)
        ensures
            r == (KeyEvent { code, modifiers, kind: KeyEventKind::Press }),
    {
        KeyEvent { code, modifiers, kind: KeyEventKind::Press }
    }
}

/// An input to the picker: a key, or anything else (which it ignores).
#[derive(Clone, Copy, Debug, PartialEq, Eq, Structural)]
pub enum InputEvent {
    Key(KeyEvent),
    Other,
}

enum Stage {
    Kind,
    PaneSource,
    TabSource,
    WorkspaceSource,
    PaneDestination(Vec<PaneInfo>),
    TabDestination(Vec<TabInfo>),
    WorkspaceDestination(WorkspaceInfo),
}

pub ghost enum StageView {
    Kind,
    PaneSource,
    TabSource,
    WorkspaceSource,
    PaneDestination(Seq<PaneView>),
    TabDestination(Seq<TabView>),
    WorkspaceDestination(WorkspaceView),
}

pub open spec fn pane_views(v: Seq<PaneInfo>) -> Seq<PaneView> {
    v.map_values(|p: PaneInfo| p@)
}

pub open spec fn tab_views(v: Seq<TabInfo>) -> Seq<TabView> {
    v.map_values(|t: TabInfo| t@)
}

pub open spec fn workspace_views(v: Seq<WorkspaceInfo>) -> Seq<WorkspaceView> {
    v.map_values(|w: WorkspaceInfo| w@)
}

spec fn stage_view(s: Stage) -> StageView {
    match s {
        Stage::Kind => StageView::Kind,
        Stage::PaneSource => StageView::PaneSource,
        Stage::TabSource => StageView::TabSource,
        Stage::WorkspaceSource => StageView::WorkspaceSource,
        Stage::PaneDestination(v) => StageView::PaneDestination(pane_views(v@)),
        Stage::TabDestination(v) => StageView::TabDestination(tab_views(v@)),
        Stage::WorkspaceDestination(w) => StageView::WorkspaceDestination(w@),
    }
}

fn clone_stage(s: &Stage) -> (r: Stage)
    ensures
        stage_view(r) == stage_view(*s),
{
    match s {
        Stage::Kind => Stage::Kind,
        Stage::PaneSource => Stage::PaneSource,
        Stage::TabSource => Stage::TabSource,
        Stage::WorkspaceSource => Stage::WorkspaceSource,
        Stage::PaneDestination(v) => Stage::PaneDestination(clone_panes(v)),
        Stage::TabDestination(v) => Stage::TabDestination(clone_tabs(v)),
        Stage::WorkspaceDestination(w) => Stage::WorkspaceDestination(w.clone()),
    }
}

/// The picker: the topology it was opened on, where it was opened, the screen it shows,
/// the query typed, the highlighted row, the sources checked, and its status.
pub struct App {
    topology: Topology,
    invoked_pane_id: String,
    invoked_tab_id: String,
    invoked_workspace_id: String,
    stage: Stage,
    query: String,
    /// The highlighted row.
    pub selected: usize,
    checked_sources: Vec<String>,
    failure: Option<String>,
    working: Option<String>,
}

pub ghost struct AppView {
    pub topology: TopologyView,
    pub invoked_pane_id: Seq<char>,
    pub invoked_tab_id: Seq<char>,
    pub invoked_workspace_id: Seq<char>,
    pub stage: StageView,
    pub query: Seq<char>,
    pub selected: usize,
    pub checked_sources: Seq<Seq<char>>,
    pub failure: Option<Seq<char>>,
    pub working: Option<Seq<char>>,
}

impl View for App {
    type V = AppView;

    closed spec fn view(&self) -> AppView {
        AppView {
            topology: self.topology@,
            invoked_pane_id: self.invoked_pane_id@,
            invoked_tab_id: self.invoked_tab_id@,
            invoked_workspace_id: self.invoked_workspace_id@,
            stage: stage_view(self.stage),
            query: self.query@,
            selected: self.selected,
            checked_sources: views(self.checked_sources@),
            failure: opt_view(self.failure),
            working: opt_view(self.working),
        }
    }
}

/// The picker as it opens on `topology` from the pane `pane_id`, when that pane is listed.
pub open spec fn opened(topology: TopologyView, pane_id: Seq<char>) -> Option<AppView> {
    match pane_with_id(topology.panes, pane_id, 0) {
        None => None,
        Some(i) => Some(AppView {
            topology,
            invoked_pane_id: pane_id,
            invoked_tab_id: topology.panes[i].tab_id,
            invoked_workspace_id: topology.panes[i].workspace_id,
            stage: StageView::Kind,
            query: Seq::empty(),
            selected: 0,
            checked_sources: Seq::empty(),
            failure: None,
            working: None,
        }),
    }
}

pub open spec fn plural(noun: Seq<char>, count: int) -> Seq<char> {
    if count == 1 { noun } else { noun + "s"@ }
}

pub open spec fn source_heading(noun: Seq<char>, count: int) -> Seq<char> {
    if count == 0 {
        "Choose one or more "@ + noun + "s"@
    } else {
        decimal(count as nat) + " "@ + plural(noun, count) + " selected"@
    }
}

/// The heading of each screen.
pub open spec fn heading_of(a: AppView) -> Seq<char> {
    match a.stage {
        StageView::Kind => "What should cross?"@,
        StageView::PaneSource => source_heading("pane"@, a.checked_sources.len() as int),
        StageView::TabSource => source_heading("tab"@, a.checked_sources.len() as int),
        StageView::WorkspaceSource => "Choose a workspace to merge"@,
        StageView::PaneDestination(s) => "Move "@ + decimal(s.len()) + " "@ + plural("pane"@, s.len() as int) + " to…"@,
        StageView::TabDestination(s) => "Move "@ + decimal(s.len()) + " "@ + plural("tab"@, s.len() as int) + " to…"@,
        StageView::WorkspaceDestination(w) => "Merge "@ + workspace_name(w) + " into…"@,
    }
}

pub open spec fn prompt_of(stage: StageView) -> Seq<char> {
    match stage {
        StageView::Kind => ""@,
        StageView::PaneSource => "search panes"@,
        StageView::TabSource => "search tabs"@,
        StageView::WorkspaceSource => "search source workspaces"@,
        StageView::PaneDestination(_) => "search destinations or name a new one"@,
        StageView::TabDestination(_) => "search workspaces or name a new one"@,
        StageView::WorkspaceDestination(_) => "search destination workspaces"@,
    }
}

pub open spec fn step_of(stage: StageView) -> usize {
    match stage {
        StageView::Kind => 1,
        StageView::PaneSource | StageView::TabSource | StageView::WorkspaceSource => 2,
        _ => 3,
    }
}

pub open spec fn trail_of(stage: StageView) -> Seq<char> {
    match stage {
        StageView::Kind => "move  ›  source  ›  destination"@,
        StageView::PaneSource => "pane  ›  source  ›  destination"@,
        StageView::TabSource => "tab  ›  source  ›  destination"@,
        StageView::WorkspaceSource => "workspace  ›  source  ›  destination"@,
        StageView::PaneDestination(_) => "pane  ›  source  ›  destination"@,
        StageView::TabDestination(_) => "tab  ›  source  ›  destination"@,
        StageView::WorkspaceDestination(_) => "workspace  ›  source  ›  destination"@,
    }
}

pub open spec fn footer_of(stage: StageView) -> Seq<char> {
    match stage {
        StageView::Kind => "↑↓ navigate   enter choose   p/t shortcut   esc close"@,
        StageView::PaneSource | StageView::TabSource => "space/tab select   ctrl+a all   enter continue   esc back"@,
        StageView::WorkspaceSource => "type to filter   ↑↓ navigate   enter choose   esc back"@,
        StageView::PaneDestination(_) => "enter split right   alt+d split down   ↑↓ navigate   esc back"@,
        StageView::TabDestination(_) => "enter move   ↑↓ navigate   esc back"@,
        StageView::WorkspaceDestination(_) => "enter merge   ↑↓ navigate   esc back"@,
    }
}

fn plural_text(noun: &str, count: usize) -> (r: String)
    ensures
        r@ == plural(noun@, count as int),
{
    if count == 1 {
        noun.to_owned()
    } else {
        crate::text::concat(noun, "s")
    }
}

fn source_heading_text(noun: &str, count: usize) -> (r: String)
    ensures
        r@ == source_heading(noun@, count as int),
{
    if count == 0 {
        let mut m = "Choose one or more ".to_owned();
        m.append(noun);
        m.append("s");
        m
    } else {
        let mut m = crate::text::decimal_text(count);
        m.append(" ");
        m.append(plural_text(noun, count).as_str());
        m.append(" selected");
        m
    }
}

impl App {
    /// Opens the picker on `topology` from the pane `invoked_pane_id`; fails when that pane
    /// is not listed.
    pub fn new(topology: Topology, invoked_pane_id: String) -> (r: Result<App, Failure>)
        ensures
            match opened(topology@, invoked_pane_id@) {
                Some(v) => r matches Ok(app) && app@ == v,
                None => r matches Err(e) && e.message@ == "source pane is no longer available: "@ + invoked_pane_id@,
            },
    {
        let mut i: usize = 0;
        let ghost panes = topology@.panes;
        while i < topology.panes.len()
            invariant
                i <= topology.panes@.len(),
                panes == topology@.panes,
                pane_with_id(panes, invoked_pane_id@, 0) == pane_with_id(panes, invoked_pane_id@, i as int),
            decreases topology.panes.len() - i,
        {
            if topology.panes[i].pane_id == invoked_pane_id {
                let invoked_tab_id = topology.panes[i].tab_id.clone();
                let invoked_workspace_id = topology.panes[i].workspace_id.clone();
                let checked_sources: Vec<String> = Vec::new();
                assert(views(checked_sources@) =~= Seq::<Seq<char>>::empty());
                return Ok(App {
                    topology,
                    invoked_pane_id,
                    invoked_tab_id,
                    invoked_workspace_id,
                    stage: Stage::Kind,
                    query: String::new(),
                    selected: 0,
                    checked_sources,
                    failure: None,
                    working: None,
                });
            }
            i += 1;
        }
        Err(Failure::new(crate::text::concat("source pane is no longer available: ", invoked_pane_id.as_str())))
    }

    /// The query typed so far.
    pub fn query(&self) -> (r: &str)
        ensures
            r@ == self@.query,
    {
        self.query.as_str()
    }

    /// Whether typing filters the list: on every screen but the first.
    pub fn is_searchable(&self) -> (r: bool)
        ensures
            r == !(self@.stage is Kind),
    {
        match self.stage {
            Stage::Kind => false,
            _ => true,
        }
    }

    pub fn heading(&self) -> (r: String)
        ensures
            r@ == heading_of(self@),
    {
        match &self.stage {
            Stage::Kind => "What should cross?".to_owned(),
            Stage::PaneSource => source_heading_text("pane", self.checked_sources.len()),
            Stage::TabSource => source_heading_text("tab", self.checked_sources.len()),
            Stage::WorkspaceSource => "Choose a workspace to merge".to_owned(),
            Stage::PaneDestination(sources) => {
                let mut m = "Move ".to_owned();
                m.append(crate::text::decimal_text(sources.len()).as_str());
                m.append(" ");
                m.append(plural_text("pane", sources.len()).as_str());
                m.append(" to…");
                m
            },
            Stage::TabDestination(sources) => {
                let mut m = "Move ".to_owned();
                m.append(crate::text::decimal_text(sources.len()).as_str());
                m.append(" ");
                m.append(plural_text("tab", sources.len()).as_str());
                m.append(" to…");
                m
            },
            Stage::WorkspaceDestination(source) => {
                let mut m = "Merge ".to_owned();
                m.append(crate::labels::workspace_name_of(source).as_str());
                m.append(" into…");
                m
            },
        }
    }

    pub fn prompt(&self) -> (r: &'static str)
        ensures
            r@ == prompt_of(self@.stage),
    {
        match self.stage {
            Stage::Kind => "",
            Stage::PaneSource => "search panes",
            Stage::TabSource => "search tabs",
            Stage::WorkspaceSource => "search source workspaces",
            Stage::PaneDestination(_) => "search destinations or name a new one",
            Stage::TabDestination(_) => "search workspaces or name a new one",
            Stage::WorkspaceDestination(_) => "search destination workspaces",
        }
    }

    /// Which of the three steps the screen is.
    pub fn step(&self) -> (r: usize)
        ensures
            r == step_of(self@.stage),
    {
        match self.stage {
            Stage::Kind => 1,
            Stage::PaneSource | Stage::TabSource | Stage::WorkspaceSource => 2,
            _ => 3,
        }
    }

    pub fn trail(&self) -> (r: &'static str)
        ensures
            r@ == trail_of(self@.stage),
    {
        match self.stage {
            Stage::Kind => "move  ›  source  ›  destination",
            Stage::PaneSource => "pane  ›  source  ›  destination",
            Stage::TabSource => "tab  ›  source  ›  destination",
            Stage::WorkspaceSource => "workspace  ›  source  ›  destination",
            Stage::PaneDestination(_) => "pane  ›  source  ›  destination",
            Stage::TabDestination(_) => "tab  ›  source  ›  destination",
            Stage::WorkspaceDestination(_) => "workspace  ›  source  ›  destination",
        }
    }

    pub fn footer(&self) -> (r: String)
        ensures
            r@ == footer_of(self@.stage),
    {
        match self.stage {
            Stage::Kind => "↑↓ navigate   enter choose   p/t shortcut   esc close".to_owned(),
            Stage::PaneSource | Stage::TabSource => "space/tab select   ctrl+a all   enter continue   esc back".to_owned(),
            Stage::WorkspaceSource => "type to filter   ↑↓ navigate   enter choose   esc back".to_owned(),
            Stage::PaneDestination(_) => "enter split right   alt+d split down   ↑↓ navigate   esc back".to_owned(),
            Stage::TabDestination(_) => "enter move   ↑↓ navigate   esc back".to_owned(),
            Stage::WorkspaceDestination(_) => "enter merge   ↑↓ navigate   esc back".to_owned(),
        }
    }

    /// The failure shown, if any.
    pub fn failure(&self) -> (r: Option<&str>)
        ensures
            match self@.failure {
                Some(f) => r matches Some(s) && s@ == f,
                None => r is None,
            },
    {
        match &self.failure {
            Some(f) => Some(f.as_str()),
            None => None,
        }
    }

    /// The progress note shown, if any.
    pub fn working(&self) -> (r: Option<&str>)
        ensures
            match self@.working {
                Some(w) => r matches Some(s) && s@ == w,
                None => r is None,
            },
    {
        match &self.working {
            Some(w) => Some(w.as_str()),
            None => None,
        }
    }

    /// Shows a failure, ending any progress note.
    pub fn set_failure(&mut self, failure: String)
        ensures
            final(self)@ == (AppView { working: None, failure: Some(failure@), ..old(self)@ }),
    {
        self.working = None;
        self.failure = Some(failure);
    }

    /// Shows a progress note, clearing any failure.
    pub fn set_working(&mut self, working: String)
        ensures
            final(self)@ == (AppView { failure: None, working: Some(working@), ..old(self)@ }),
    {
        self.failure = None;
        self.working = Some(working);
    }
}

// ---------------------------------------------------------------------------
// Candidates: the rows each screen offers, with what choosing them means.

enum Choice {
    Kind(MoveKind),
    Pane(PaneInfo),
    Tab(TabInfo),
    PaneTab(TabInfo),
    PaneNewTab(WorkspaceInfo),
    PaneNewWorkspace,
    TabWorkspace(WorkspaceInfo),
    TabNewWorkspace,
    WorkspaceSource(WorkspaceInfo),
    WorkspaceDestination(WorkspaceInfo),
}

pub ghost enum ChoiceView {
    Kind(MoveKind),
    Pane(PaneView),
    Tab(TabView),
    PaneTab(TabView),
    PaneNewTab(WorkspaceView),
    PaneNewWorkspace,
    TabWorkspace(WorkspaceView),
    TabNewWorkspace,
    WorkspaceSource(WorkspaceView),
    WorkspaceDestination(WorkspaceView),
}

spec fn choice_view(c: Choice) -> ChoiceView {
    match c {
        Choice::Kind(k) => ChoiceView::Kind(k),
        Choice::Pane(p) => ChoiceView::Pane(p@),
        Choice::Tab(t) => ChoiceView::Tab(t@),
        Choice::PaneTab(t) => ChoiceView::PaneTab(t@),
        Choice::PaneNewTab(w) => ChoiceView::PaneNewTab(w@),
        Choice::PaneNewWorkspace => ChoiceView::PaneNewWorkspace,
        Choice::TabWorkspace(w) => ChoiceView::TabWorkspace(w@),
        Choice::TabNewWorkspace => ChoiceView::TabNewWorkspace,
        Choice::WorkspaceSource(w) => ChoiceView::WorkspaceSource(w@),
        Choice::WorkspaceDestination(w) => ChoiceView::WorkspaceDestination(w@),
    }
}

fn clone_choice(c: &Choice) -> (r: Choice)
    ensures
        choice_view(r) == choice_view(*c),
{
    match c {
        Choice::Kind(k) => Choice::Kind(*k),
        Choice::Pane(p) => Choice::Pane(p.clone()),
        Choice::Tab(t) => Choice::Tab(t.clone()),
        Choice::PaneTab(t) => Choice::PaneTab(t.clone()),
        Choice::PaneNewTab(w) => Choice::PaneNewTab(w.clone()),
        Choice::PaneNewWorkspace => Choice::PaneNewWorkspace,
        Choice::TabWorkspace(w) => Choice::TabWorkspace(w.clone()),
        Choice::TabNewWorkspace => Choice::TabNewWorkspace,
        Choice::WorkspaceSource(w) => Choice::WorkspaceSource(w.clone()),
        Choice::WorkspaceDestination(w) => Choice::WorkspaceDestination(w.clone()),
    }
}

struct Candidate {
    choice: Choice,
    row: DisplayRow,
    search: String,
    pinned: bool,
    source_key: Option<String>,
}

/// A row on offer: what choosing it means, how it shows, the text a query is matched
/// against, whether it stays at the bottom whatever the query, and the id it checks.
pub ghost struct CandidateView {
    pub choice: ChoiceView,
    pub row: RowView,
    pub search: Seq<char>,
    pub pinned: bool,
    pub source_key: Option<Seq<char>>,
}

spec fn candidate_view(c: Candidate) -> CandidateView {
    CandidateView {
        choice: choice_view(c.choice),
        row: c.row@,
        search: c.search@,
        pinned: c.pinned,
        source_key: opt_view(c.source_key),
    }
}

spec fn candidate_views(v: Seq<Candidate>) -> Seq<CandidateView> {
    v.map_values(|c: Candidate| candidate_view(c))
}

fn clone_candidate(c: &Candidate) -> (r: Candidate)
    ensures
        candidate_view(r) == candidate_view(*c),
{
    Candidate {
        choice: clone_choice(&c.choice),
        row: c.row.clone(),
        search: c.search.clone(),
        pinned: c.pinned,
        source_key: clone_opt(&c.source_key),
    }
}

/// A row with no key and no search text.
pub open spec fn plain_candidate(choice: ChoiceView, title: Seq<char>, detail: Seq<char>, tone: RowTone, pinned: bool) -> CandidateView {
    CandidateView {
        choice,
        row: RowView { title, detail, tone, checked: false },
        search: Seq::empty(),
        pinned,
        source_key: None,
    }
}

/// A row found by its title and detail.
pub open spec fn searchable_candidate(choice: ChoiceView, title: Seq<char>, detail: Seq<char>, tone: RowTone) -> CandidateView {
    CandidateView {
        choice,
        row: RowView { title, detail, tone, checked: false },
        search: title + " "@ + detail,
        pinned: false,
        source_key: None,
    }
}

/// The three rows of the first screen, with what they would move from where the picker
/// was opened.
pub open spec fn kind_candidates(a: AppView) -> Seq<CandidateView> {
    let t = a.topology;
    let pane_detail = match pane_with_id(t.panes, a.invoked_pane_id, 0) {
        Some(i) => "focused · "@ + pane_name(t.panes[i]),
        None => "choose any live pane"@,
    };
    let tab_detail = match tab_with_id(t.tabs, a.invoked_tab_id, 0) {
        Some(i) => "current · "@ + workspace_label(t, t.tabs[i].workspace_id) + " / "@ + tab_name(t.tabs[i]) + " · "@
            + decimal(t.tabs[i].pane_count as nat) + " panes"@,
        None => "preserve its live split layout"@,
    };
    let workspace_detail = match workspace_index(t.workspaces, a.invoked_workspace_id, 0) {
        Some(i) => "current · "@ + workspace_name(t.workspaces[i]) + " · "@ + decimal(t.workspaces[i].tab_count as nat)
            + " tabs · "@ + decimal(t.workspaces[i].pane_count as nat) + " panes"@,
        None => "append all of its tabs to another workspace"@,
    };
    seq![
        plain_candidate(ChoiceView::Kind(MoveKind::Pane), "Move a pane"@, pane_detail, RowTone::Normal, false),
        plain_candidate(ChoiceView::Kind(MoveKind::Tab), "Move a whole tab"@, tab_detail, RowTone::Normal, false),
        plain_candidate(ChoiceView::Kind(MoveKind::Workspace), "Merge a workspace"@, workspace_detail, RowTone::Normal, false),
    ]
}

/// `s` with `o` appended when present.
pub open spec fn or_empty(o: Option<Seq<char>>) -> Seq<char> {
    match o {
        Some(v) => v,
        None => Seq::empty(),
    }
}

/// The workspace of the pane the picker was opened from ("" when it is gone).
pub open spec fn invoked_pane_workspace(a: AppView) -> Seq<char> {
    match pane_with_id(a.topology.panes, a.invoked_pane_id, 0) {
        Some(i) => a.topology.panes[i].workspace_id,
        None => Seq::empty(),
    }
}

/// How close a pane is to where the picker was opened: the pane itself, its tab, its
/// workspace, or elsewhere.
pub open spec fn pane_scope(a: AppView, p: PaneView) -> int {
    if p.pane_id == a.invoked_pane_id {
        0
    } else if p.tab_id == a.invoked_tab_id {
        1
    } else if p.workspace_id == invoked_pane_workspace(a) {
        2
    } else {
        3
    }
}

pub open spec fn pane_key(a: AppView, p: PaneView) -> KeyView {
    KeyView {
        rank: pane_scope(a, p),
        first: workspace_number(a.topology, p.workspace_id) as int,
        second: tab_number(a.topology, p.tab_id) as int,
        text: pane_name(p),
    }
}

pub open spec fn pane_source_detail(t: TopologyView, p: PaneView) -> Seq<char> {
    workspace_label(t, p.workspace_id) + " / "@ + tab_label_by_id(t, p.tab_id) + match p.agent {
        Some(agent) => " · "@ + agent + " "@ + p.agent_status,
        None => Seq::empty(),
    }
}

pub open spec fn pane_source_candidate(a: AppView, p: PaneView) -> CandidateView {
    let title = pane_name(p);
    let detail = pane_source_detail(a.topology, p);
    CandidateView {
        choice: ChoiceView::Pane(p),
        row: RowView {
            title,
            detail,
            tone: if p.pane_id == a.invoked_pane_id { RowTone::Current } else { RowTone::Normal },
            checked: a.checked_sources.contains(p.pane_id),
        },
        search: title + " "@ + detail + " "@ + p.pane_id + " "@ + or_empty(p.cwd) + " "@ + or_empty(p.terminal_title_stripped),
        pinned: false,
        source_key: Some(p.pane_id),
    }
}

/// Every pane, nearest to where the picker was opened first, then by workspace number,
/// tab number and name.
pub open spec fn pane_keys(a: AppView, panes: Seq<PaneView>) -> Seq<KeyView> {
    panes.map_values(|p: PaneView| pane_key(a, p))
}

pub open spec fn pane_source_candidates(a: AppView) -> Seq<CandidateView> {
    let panes = a.topology.panes;
    let order = stable_order(pane_keys(a, panes));
    Seq::new(order.len(), |k: int| pane_source_candidate(a, panes[order[k]]))
}

/// The workspace of the tab the picker was opened from ("" when it is gone).
pub open spec fn invoked_tab_workspace(a: AppView) -> Seq<char> {
    match tab_with_id(a.topology.tabs, a.invoked_tab_id, 0) {
        Some(i) => a.topology.tabs[i].workspace_id,
        None => Seq::empty(),
    }
}

pub open spec fn tab_key(a: AppView, t: TabView) -> KeyView {
    KeyView {
        rank: if t.tab_id == a.invoked_tab_id { 0 } else if t.workspace_id == invoked_tab_workspace(a) { 1 } else { 2 },
        first: workspace_number(a.topology, t.workspace_id) as int,
        second: t.number as int,
        text: Seq::empty(),
    }
}

pub open spec fn tab_title(top: TopologyView, t: TabView) -> Seq<char> {
    workspace_label(top, t.workspace_id) + " / "@ + tab_name(t)
}

pub open spec fn tab_source_candidate(a: AppView, t: TabView) -> CandidateView {
    let title = tab_title(a.topology, t);
    let detail = decimal(t.pane_count as nat) + " panes · "@ + t.tab_id;
    CandidateView {
        choice: ChoiceView::Tab(t),
        row: RowView {
            title,
            detail,
            tone: if t.tab_id == a.invoked_tab_id { RowTone::Current } else { RowTone::Normal },
            checked: a.checked_sources.contains(t.tab_id),
        },
        search: title + " "@ + detail,
        pinned: false,
        source_key: Some(t.tab_id),
    }
}

/// Every tab: the current one, then those of its workspace, then the rest, each by
/// workspace number and tab number.
pub open spec fn tab_keys(a: AppView, tabs: Seq<TabView>) -> Seq<KeyView> {
    tabs.map_values(|t: TabView| tab_key(a, t))
}

pub open spec fn tab_source_candidates(a: AppView) -> Seq<CandidateView> {
    let tabs = a.topology.tabs;
    let order = stable_order(tab_keys(a, tabs));
    Seq::new(order.len(), |k: int| tab_source_candidate(a, tabs[order[k]]))
}

pub open spec fn number_key(rank: int, number: usize) -> KeyView {
    KeyView { rank, first: number as int, second: 0, text: Seq::empty() }
}

pub open spec fn workspace_counts(w: WorkspaceView) -> Seq<char> {
    decimal(w.tab_count as nat) + " tabs · "@ + decimal(w.pane_count as nat) + " panes · "@ + w.workspace_id
}

pub open spec fn workspace_source_keys(a: AppView, ws: Seq<WorkspaceView>) -> Seq<KeyView> {
    ws.map_values(|w: WorkspaceView| number_key(if w.workspace_id != a.invoked_workspace_id { 1 } else { 0 }, w.number))
}

/// Every workspace, the current one first, then by number.
pub open spec fn workspace_source_candidates(a: AppView) -> Seq<CandidateView> {
    let ws = a.topology.workspaces;
    let order = stable_order(workspace_source_keys(a, ws));
    Seq::new(order.len(), |k: int| {
        let w = ws[order[k]];
        searchable_candidate(
            ChoiceView::WorkspaceSource(w),
            workspace_name(w),
            workspace_counts(w),
            if w.workspace_id == a.invoked_workspace_id { RowTone::Current } else { RowTone::Normal },
        )
    })
}

/// The query, trimmed, when it is not blank: the name for a new tab or workspace.
pub open spec fn query_name_of(a: AppView) -> Option<Seq<char>> {
    if crate::text::trimmed(a.query).len() == 0 { None } else { Some(crate::text::trimmed(a.query)) }
}

pub open spec fn creation_preview(a: AppView) -> Seq<char> {
    match query_name_of(a) {
        Some(name) => "create “"@ + name + "”"@,
        None => "type to name it"@,
    }
}

pub open spec fn source_pane_tabs(sources: Seq<PaneView>) -> Seq<Seq<char>> {
    sources.map_values(|p: PaneView| p.tab_id)
}

pub open spec fn source_pane_workspaces(sources: Seq<PaneView>) -> Seq<Seq<char>> {
    sources.map_values(|p: PaneView| p.workspace_id)
}

pub open spec fn source_tab_workspaces(sources: Seq<TabView>) -> Seq<Seq<char>> {
    sources.map_values(|t: TabView| t.workspace_id)
}

/// The tabs whose ids are not among `ids`.
pub open spec fn tabs_outside(tabs: Seq<TabView>, ids: Seq<Seq<char>>) -> Seq<TabView> {
    tabs.filter(|t: TabView| !ids.contains(t.tab_id))
}

/// The workspaces whose ids are not among `ids`.
pub open spec fn workspaces_outside(ws: Seq<WorkspaceView>, ids: Seq<Seq<char>>) -> Seq<WorkspaceView> {
    ws.filter(|w: WorkspaceView| !ids.contains(w.workspace_id))
}

pub open spec fn destination_tab_keys(top: TopologyView, tabs: Seq<TabView>, near: Seq<Seq<char>>) -> Seq<KeyView> {
    tabs.map_values(|t: TabView| KeyView {
        rank: if near.contains(t.workspace_id) { 0 } else { 1 },
        first: workspace_number(top, t.workspace_id) as int,
        second: t.number as int,
        text: Seq::empty(),
    })
}

pub open spec fn new_tab_keys(ws: Seq<WorkspaceView>, near: Seq<Seq<char>>) -> Seq<KeyView> {
    ws.map_values(|w: WorkspaceView| number_key(if near.contains(w.workspace_id) { 0 } else { 1 }, w.number))
}

pub open spec fn number_keys(ws: Seq<WorkspaceView>) -> Seq<KeyView> {
    ws.map_values(|w: WorkspaceView| number_key(0, w.number))
}

/// The tabs that hold none of the selected panes, those in the panes' workspaces first,
/// then a "new tab" row for each workspace (the panes' workspaces first) and a "new
/// workspace" row.
pub open spec fn pane_destination_candidates(a: AppView, sources: Seq<PaneView>) -> Seq<CandidateView> {
    let source_workspaces = source_pane_workspaces(sources);
    let tabs = tabs_outside(a.topology.tabs, source_pane_tabs(sources));
    let order = stable_order(destination_tab_keys(a.topology, tabs, source_workspaces));
    let existing = Seq::new(order.len(), |k: int| {
        let t = tabs[order[k]];
        searchable_candidate(ChoiceView::PaneTab(t), tab_title(a.topology, t), decimal(t.pane_count as nat) + " panes · existing tab"@, RowTone::Normal)
    });
    let ws = a.topology.workspaces;
    let ws_order = stable_order(new_tab_keys(ws, source_workspaces));
    let new_tabs = Seq::new(ws_order.len(), |k: int| {
        let w = ws[ws_order[k]];
        plain_candidate(ChoiceView::PaneNewTab(w), "New tab in "@ + workspace_name(w), creation_preview(a), RowTone::Create, true)
    });
    existing + new_tabs + seq![
        plain_candidate(ChoiceView::PaneNewWorkspace, "New workspace"@, creation_preview(a), RowTone::Create, true),
    ]
}

/// The workspaces that hold none of the selected tabs, by number, then a "new
/// workspace" row.
pub open spec fn tab_destination_candidates(a: AppView, sources: Seq<TabView>) -> Seq<CandidateView> {
    let ws = workspaces_outside(a.topology.workspaces, source_tab_workspaces(sources));
    let order = stable_order(number_keys(ws));
    Seq::new(order.len(), |k: int| {
        let w = ws[order[k]];
        searchable_candidate(ChoiceView::TabWorkspace(w), workspace_name(w), workspace_counts(w), RowTone::Normal)
    }) + seq![plain_candidate(ChoiceView::TabNewWorkspace, "New workspace"@, creation_preview(a), RowTone::Create, true)]
}

/// The other workspaces, by number.
pub open spec fn workspace_destination_candidates(a: AppView, source: WorkspaceView) -> Seq<CandidateView> {
    let ws = workspaces_outside(a.topology.workspaces, seq![source.workspace_id]);
    let order = stable_order(number_keys(ws));
    Seq::new(order.len(), |k: int| {
        let w = ws[order[k]];
        searchable_candidate(ChoiceView::WorkspaceDestination(w), workspace_name(w), "append after "@ + workspace_counts(w), RowTone::Normal)
    })
}

/// Every row the current screen offers, before any query filters it.
pub open spec fn candidates_of(a: AppView) -> Seq<CandidateView> {
    match a.stage {
        StageView::Kind => kind_candidates(a),
        StageView::PaneSource => pane_source_candidates(a),
        StageView::TabSource => tab_source_candidates(a),
        StageView::WorkspaceSource => workspace_source_candidates(a),
        StageView::PaneDestination(s) => pane_destination_candidates(a, s),
        StageView::TabDestination(s) => tab_destination_candidates(a, s),
        StageView::WorkspaceDestination(w) => workspace_destination_candidates(a, w),
    }
}

fn plain(choice: Choice, title: String, detail: String, tone: RowTone, pinned: bool) -> (r: Candidate)
    ensures
        candidate_view(r) == plain_candidate(choice_view(choice), title@, detail@, tone, pinned),
{
    Candidate { choice, row: DisplayRow { title, detail, tone, checked: false }, search: String::new(), pinned, source_key: None }
}

fn searchable(choice: Choice, title: String, detail: String, tone: RowTone) -> (r: Candidate)
    ensures
        candidate_view(r) == searchable_candidate(choice_view(choice), title@, detail@, tone),
{
    let mut search = title.clone();
    search.append(" ");
    search.append(detail.as_str());
    Candidate { choice, row: DisplayRow { title, detail, tone, checked: false }, search, pinned: false, source_key: None }
}

fn workspace_counts_text(w: &WorkspaceInfo) -> (r: String)
    ensures
        r@ == workspace_counts(w@),
{
    let mut m = decimal_text(w.tab_count);
    m.append(" tabs · ");
    m.append(decimal_text(w.pane_count).as_str());
    m.append(" panes · ");
    m.append(w.workspace_id.as_str());
    m
}

fn opt_text(o: &Option<String>) -> (r: &str)
    ensures
        r@ == or_empty(opt_view(*o)),
{
    proof {
        reveal_strlit("");
    }
    match o {
        Some(v) => v.as_str(),
        None => "",
    }
}

impl App {
    fn kind_candidates_exec(&self) -> (r: Vec<Candidate>)
        ensures
            candidate_views(r@) == kind_candidates(self@),
    {
        let t = &self.topology;
        let pane_detail = match find_pane_with_id(&t.panes, &self.invoked_pane_id) {
            Some(i) => concat("focused · ", pane_name_of(&t.panes[i]).as_str()),
            None => "choose any live pane".to_owned(),
        };
        let tab_detail = match find_tab_with_id(&t.tabs, &self.invoked_tab_id) {
            Some(i) => {
                let tab = &t.tabs[i];
                let mut m = "current · ".to_owned();
                m.append(workspace_label_of(t, tab.workspace_id.as_str()).as_str());
                m.append(" / ");
                m.append(tab_name_of(tab).as_str());
                m.append(" · ");
                m.append(decimal_text(tab.pane_count).as_str());
                m.append(" panes");
                m
            },
            None => "preserve its live split layout".to_owned(),
        };
        let workspace_detail = match crate::labels::find_workspace(&t.workspaces, self.invoked_workspace_id.as_str()) {
            Some(i) => {
                let w = &t.workspaces[i];
                let mut m = "current · ".to_owned();
                m.append(workspace_name_of(w).as_str());
                m.append(" · ");
                m.append(decimal_text(w.tab_count).as_str());
                m.append(" tabs · ");
                m.append(decimal_text(w.pane_count).as_str());
                m.append(" panes");
                m
            },
            None => "append all of its tabs to another workspace".to_owned(),
        };
        let mut r: Vec<Candidate> = Vec::new();
        r.push(plain(Choice::Kind(MoveKind::Pane), "Move a pane".to_owned(), pane_detail, RowTone::Normal, false));
        r.push(plain(Choice::Kind(MoveKind::Tab), "Move a whole tab".to_owned(), tab_detail, RowTone::Normal, false));
        r.push(plain(Choice::Kind(MoveKind::Workspace), "Merge a workspace".to_owned(), workspace_detail, RowTone::Normal, false));
        assert(candidate_views(r@) =~= kind_candidates(self@));
        r
    }

    fn invoked_pane_workspace_exec(&self) -> (r: String)
        ensures
            r@ == invoked_pane_workspace(self@),
    {
        match find_pane_with_id(&self.topology.panes, &self.invoked_pane_id) {
            Some(i) => self.topology.panes[i].workspace_id.clone(),
            None => String::new(),
        }
    }

    fn pane_key_exec(&self, p: &PaneInfo, invoked_workspace: &String) -> (r: SortKey)
        requires
            invoked_workspace@ == invoked_pane_workspace(self@),
        ensures
            r@ == pane_key(self@, p@),
    {
        let rank: i128 = if p.pane_id == self.invoked_pane_id {
            0
        } else if p.tab_id == self.invoked_tab_id {
            1
        } else if p.workspace_id == *invoked_workspace {
            2
        } else {
            3
        };
        SortKey {
            rank,
            first: workspace_number_of(&self.topology, p.workspace_id.as_str()),
            second: tab_number_of(&self.topology, p.tab_id.as_str()),
            text: chars_of(pane_name_of(p).as_str()),
        }
    }

    fn pane_source_candidate_exec(&self, p: &PaneInfo) -> (r: Candidate)
        ensures
            candidate_view(r) == pane_source_candidate(self@, p@),
    {
        let title = pane_name_of(p);
        let mut detail = workspace_label_of(&self.topology, p.workspace_id.as_str());
        detail.append(" / ");
        detail.append(tab_label_by_id_of(&self.topology, p.tab_id.as_str()).as_str());
        let ghost base = detail@;
        match &p.agent {
            Some(agent) => {
                detail.append(" · ");
                detail.append(agent.as_str());
                detail.append(" ");
                detail.append(p.agent_status.as_str());
                assert(detail@ =~= base + (" · "@ + agent@ + " "@ + p.agent_status@));
            },
            None => {
                assert(detail@ =~= base + Seq::<char>::empty());
            },
        }
        assert(detail@ == pane_source_detail(self@.topology, p@));
        let mut search = title.clone();
        search.append(" ");
        search.append(detail.as_str());
        search.append(" ");
        search.append(p.pane_id.as_str());
        search.append(" ");
        search.append(opt_text(&p.cwd));
        search.append(" ");
        search.append(opt_text(&p.terminal_title_stripped));
        let current = p.pane_id == self.invoked_pane_id;
        let checked = contains_string(&self.checked_sources, &p.pane_id);
        Candidate {
            choice: Choice::Pane(p.clone()),
            row: DisplayRow { title, detail, tone: if current { RowTone::Current } else { RowTone::Normal }, checked },
            search,
            pinned: false,
            source_key: Some(p.pane_id.clone()),
        }
    }

    fn pane_source_candidates_exec(&self) -> (r: Vec<Candidate>)
        ensures
            candidate_views(r@) == pane_source_candidates(self@),
    {
        let panes = &self.topology.panes;
        let ghost a = self@;
        let ghost pv = a.topology.panes;
        assert(pv == self.topology@.panes);
        assert(pv =~= panes@.map_values(|p: PaneInfo| p@));
        let invoked_workspace = self.invoked_pane_workspace_exec();
        let mut keys: Vec<SortKey> = Vec::new();
        let mut i: usize = 0;
        while i < panes.len()
            invariant
                i <= panes@.len(),
                a == self@,
                pv == a.topology.panes,
                pv == panes@.map_values(|p: PaneInfo| p@),
                invoked_workspace@ == invoked_pane_workspace(a),
                key_views(keys@) == pane_keys(a, pv).take(i as int),
            decreases panes.len() - i,
        {
            let ghost before = keys@;
            let key = self.pane_key_exec(&panes[i], &invoked_workspace);
            assert(pv[i as int] == panes@[i as int]@);
            assert(key@ == pane_keys(a, pv)[i as int]);
            keys.push(key);
            assert(key_views(keys@) =~= key_views(before).push(key@));
            assert(pane_keys(a, pv).take(i + 1) =~= pane_keys(a, pv).take(i as int).push(pane_keys(a, pv)[i as int]));
            assert(key_views(keys@) =~= pane_keys(a, pv).take(i + 1));
            i += 1;
        }
        assert(pane_keys(a, pv).take(i as int) =~= pane_keys(a, pv));
        let order = stable_sort(&keys);
        let ghost ov = crate::sort::index_views(order@);
        let mut r: Vec<Candidate> = Vec::new();
        let mut k: usize = 0;
        while k < order.len()
            invariant
                k <= order@.len(),
                a == self@,
                pv == a.topology.panes,
                pv == panes@.map_values(|p: PaneInfo| p@),
                ov == crate::sort::index_views(order@),
                ov == stable_order(pane_keys(a, pv)),
                crate::sort::is_stable_order(pane_keys(a, pv), ov),
                panes@.len() == pv.len(),
                r@.len() == k,
                forall|j: int| 0 <= j < k ==> candidate_view(#[trigger] r@[j]) == pane_source_candidate(a, pv[ov[j]]),
            decreases order.len() - k,
        {
            assert(0 <= ov[k as int] < pv.len());
            let c = self.pane_source_candidate_exec(&panes[order[k]]);
            assert(pv[ov[k as int]] == panes@[order@[k as int] as int]@);
            r.push(c);
            k += 1;
        }
        assert(candidate_views(r@) =~= pane_source_candidates(self@));
        r
    }
}

fn pane_tab_ids(sources: &Vec<PaneInfo>) -> (r: Vec<String>)
    ensures
        views(r@) == source_pane_tabs(pane_views(sources@)),
{
    let ghost sv = pane_views(sources@);
    let mut r: Vec<String> = Vec::new();
    let mut i: usize = 0;
    while i < sources.len()
        invariant
            i <= sources@.len(),
            sv == pane_views(sources@),
            views(r@) == source_pane_tabs(sv).take(i as int),
        decreases sources.len() - i,
    {
        let ghost before = r@;
        r.push(sources[i].tab_id.clone());
        assert(views(r@) =~= views(before).push(sources@[i as int].tab_id@));
        assert(source_pane_tabs(sv).take(i + 1) =~= source_pane_tabs(sv).take(i as int).push(source_pane_tabs(sv)[i as int]));
        assert(views(r@) =~= source_pane_tabs(sv).take(i + 1));
        i += 1;
    }
    assert(source_pane_tabs(sv).take(i as int) =~= source_pane_tabs(sv));
    r
}

fn pane_workspace_ids(sources: &Vec<PaneInfo>) -> (r: Vec<String>)
    ensures
        views(r@) == source_pane_workspaces(pane_views(sources@)),
{
    let ghost sv = pane_views(sources@);
    let mut r: Vec<String> = Vec::new();
    let mut i: usize = 0;
    while i < sources.len()
        invariant
            i <= sources@.len(),
            sv == pane_views(sources@),
            views(r@) == source_pane_workspaces(sv).take(i as int),
        decreases sources.len() - i,
    {
        let ghost before = r@;
        r.push(sources[i].workspace_id.clone());
        assert(views(r@) =~= views(before).push(sources@[i as int].workspace_id@));
        assert(source_pane_workspaces(sv).take(i + 1) =~= source_pane_workspaces(sv).take(i as int).push(source_pane_workspaces(sv)[i as int]));
        assert(views(r@) =~= source_pane_workspaces(sv).take(i + 1));
        i += 1;
    }
    assert(source_pane_workspaces(sv).take(i as int) =~= source_pane_workspaces(sv));
    r
}

fn tab_workspace_ids(sources: &Vec<TabInfo>) -> (r: Vec<String>)
    ensures
        views(r@) == source_tab_workspaces(tab_views(sources@)),
{
    let ghost sv = tab_views(sources@);
    let mut r: Vec<String> = Vec::new();
    let mut i: usize = 0;
    while i < sources.len()
        invariant
            i <= sources@.len(),
            sv == tab_views(sources@),
            views(r@) == source_tab_workspaces(sv).take(i as int),
        decreases sources.len() - i,
    {
        let ghost before = r@;
        r.push(sources[i].workspace_id.clone());
        assert(views(r@) =~= views(before).push(sources@[i as int].workspace_id@));
        assert(source_tab_workspaces(sv).take(i + 1) =~= source_tab_workspaces(sv).take(i as int).push(source_tab_workspaces(sv)[i as int]));
        assert(views(r@) =~= source_tab_workspaces(sv).take(i + 1));
        i += 1;
    }
    assert(source_tab_workspaces(sv).take(i as int) =~= source_tab_workspaces(sv));
    r
}

fn tabs_outside_exec(tabs: &Vec<TabInfo>, ids: &Vec<String>) -> (r: Vec<TabInfo>)
    ensures
        tab_views(r@) == tabs_outside(tab_views(tabs@), views(ids@)),
{
    let ghost tv = tab_views(tabs@);
    let mut r: Vec<TabInfo> = Vec::new();
    let mut i: usize = 0;
    while i < tabs.len()
        invariant
            i <= tabs@.len(),
            tv == tab_views(tabs@),
            tab_views(r@) == tabs_outside(tv.take(i as int), views(ids@)),
        decreases tabs.len() - i,
    {
        let ghost before = r@;
        assert(tv.take(i + 1).drop_last() =~= tv.take(i as int));
        assert(tv.take(i + 1).last() == tabs@[i as int]@);
        proof {
            reveal(Seq::filter);
        }
        assert(tabs_outside(tv.take(i + 1), views(ids@)) == if !views(ids@).contains(tabs@[i as int]@.tab_id) {
            tabs_outside(tv.take(i as int), views(ids@)).push(tabs@[i as int]@)
        } else {
            tabs_outside(tv.take(i as int), views(ids@))
        });
        if !contains_string(ids, &tabs[i].tab_id) {
            r.push(tabs[i].clone());
            assert(tab_views(r@) =~= tab_views(before).push(tabs@[i as int]@));
        }
        i += 1;
    }
    assert(tv.take(i as int) =~= tv);
    r
}

fn workspaces_outside_exec(ws: &Vec<WorkspaceInfo>, ids: &Vec<String>) -> (r: Vec<WorkspaceInfo>)
    ensures
        workspace_views(r@) == workspaces_outside(workspace_views(ws@), views(ids@)),
{
    let ghost wv = workspace_views(ws@);
    let mut r: Vec<WorkspaceInfo> = Vec::new();
    let mut i: usize = 0;
    while i < ws.len()
        invariant
            i <= ws@.len(),
            wv == workspace_views(ws@),
            workspace_views(r@) == workspaces_outside(wv.take(i as int), views(ids@)),
        decreases ws.len() - i,
    {
        let ghost before = r@;
        assert(wv.take(i + 1).drop_last() =~= wv.take(i as int));
        assert(wv.take(i + 1).last() == ws@[i as int]@);
        proof {
            reveal(Seq::filter);
        }
        assert(workspaces_outside(wv.take(i + 1), views(ids@)) == if !views(ids@).contains(ws@[i as int]@.workspace_id) {
            workspaces_outside(wv.take(i as int), views(ids@)).push(ws@[i as int]@)
        } else {
            workspaces_outside(wv.take(i as int), views(ids@))
        });
        if !contains_string(ids, &ws[i].workspace_id) {
            r.push(ws[i].clone());
            assert(workspace_views(r@) =~= workspace_views(before).push(ws@[i as int]@));
        }
        i += 1;
    }
    assert(wv.take(i as int) =~= wv);
    r
}

fn number_sort_key(rank: i128, number: usize) -> (r: SortKey)
    ensures
        r@ == number_key(rank as int, number),
{
    let text: Vec<char> = Vec::new();
    assert(text@ =~= Seq::<char>::empty());
    SortKey { rank, first: number, second: 0, text }
}

/// The stable order of the workspaces by number.
fn workspace_order(ws: &Vec<WorkspaceInfo>) -> (r: Vec<usize>)
    ensures
        crate::sort::index_views(r@) == stable_order(number_keys(workspace_views(ws@))),
        crate::sort::is_stable_order(number_keys(workspace_views(ws@)), crate::sort::index_views(r@)),
{
    let ghost wv = workspace_views(ws@);
    let mut keys: Vec<SortKey> = Vec::new();
    let mut i: usize = 0;
    while i < ws.len()
        invariant
            i <= ws@.len(),
            wv == workspace_views(ws@),
            key_views(keys@) == number_keys(wv).take(i as int),
        decreases ws.len() - i,
    {
        let ghost before = keys@;
        let key = number_sort_key(0, ws[i].number);
        assert(key@ == number_keys(wv)[i as int]);
        keys.push(key);
        assert(key_views(keys@) =~= key_views(before).push(key@));
        assert(number_keys(wv).take(i + 1) =~= number_keys(wv).take(i as int).push(number_keys(wv)[i as int]));
        assert(key_views(keys@) =~= number_keys(wv).take(i + 1));
        i += 1;
    }
    assert(number_keys(wv).take(i as int) =~= number_keys(wv));
    stable_sort(&keys)
}

impl App {
    fn tab_key_exec(&self, t: &TabInfo, invoked_workspace: &String) -> (r: SortKey)
        requires
            invoked_workspace@ == invoked_tab_workspace(self@),
        ensures
            r@ == tab_key(self@, t@),
    {
        let rank: i128 = if t.tab_id == self.invoked_tab_id {
            0
        } else if t.workspace_id == *invoked_workspace {
            1
        } else {
            2
        };
        let text: Vec<char> = Vec::new();
        assert(text@ =~= Seq::<char>::empty());
        SortKey { rank, first: workspace_number_of(&self.topology, t.workspace_id.as_str()), second: t.number, text }
    }

    fn tab_title_exec(&self, t: &TabInfo) -> (r: String)
        ensures
            r@ == tab_title(self@.topology, t@),
    {
        let mut title = workspace_label_of(&self.topology, t.workspace_id.as_str());
        title.append(" / ");
        title.append(tab_name_of(t).as_str());
        title
    }

    fn tab_source_candidate_exec(&self, t: &TabInfo) -> (r: Candidate)
        ensures
            candidate_view(r) == tab_source_candidate(self@, t@),
    {
        let title = self.tab_title_exec(t);
        let mut detail = decimal_text(t.pane_count);
        detail.append(" panes · ");
        detail.append(t.tab_id.as_str());
        let mut search = title.clone();
        search.append(" ");
        search.append(detail.as_str());
        let current = t.tab_id == self.invoked_tab_id;
        let checked = contains_string(&self.checked_sources, &t.tab_id);
        Candidate {
            choice: Choice::Tab(t.clone()),
            row: DisplayRow { title, detail, tone: if current { RowTone::Current } else { RowTone::Normal }, checked },
            search,
            pinned: false,
            source_key: Some(t.tab_id.clone()),
        }
    }

    fn tab_source_candidates_exec(&self) -> (r: Vec<Candidate>)
        ensures
            candidate_views(r@) == tab_source_candidates(self@),
    {
        let tabs = &self.topology.tabs;
        let ghost a = self@;
        let ghost tv = a.topology.tabs;
        assert(tv =~= tabs@.map_values(|t: TabInfo| t@));
        let invoked_workspace = match find_tab_with_id(tabs, &self.invoked_tab_id) {
            Some(i) => tabs[i].workspace_id.clone(),
            None => String::new(),
        };
        let mut keys: Vec<SortKey> = Vec::new();
        let mut i: usize = 0;
        while i < tabs.len()
            invariant
                i <= tabs@.len(),
                a == self@,
                tv == a.topology.tabs,
                tv == tabs@.map_values(|t: TabInfo| t@),
                invoked_workspace@ == invoked_tab_workspace(a),
                key_views(keys@) == tab_keys(a, tv).take(i as int),
            decreases tabs.len() - i,
        {
            let ghost before = keys@;
            let key = self.tab_key_exec(&tabs[i], &invoked_workspace);
            assert(tv[i as int] == tabs@[i as int]@);
            assert(key@ == tab_keys(a, tv)[i as int]);
            keys.push(key);
            assert(key_views(keys@) =~= key_views(before).push(key@));
            assert(tab_keys(a, tv).take(i + 1) =~= tab_keys(a, tv).take(i as int).push(tab_keys(a, tv)[i as int]));
            assert(key_views(keys@) =~= tab_keys(a, tv).take(i + 1));
            i += 1;
        }
        assert(tab_keys(a, tv).take(i as int) =~= tab_keys(a, tv));
        let order = stable_sort(&keys);
        let ghost ov = crate::sort::index_views(order@);
        let mut r: Vec<Candidate> = Vec::new();
        let mut k: usize = 0;
        while k < order.len()
            invariant
                k <= order@.len(),
                a == self@,
                tv == a.topology.tabs,
                tv == tabs@.map_values(|t: TabInfo| t@),
                ov == crate::sort::index_views(order@),
                ov == stable_order(tab_keys(a, tv)),
                crate::sort::is_stable_order(tab_keys(a, tv), ov),
                r@.len() == k,
                forall|j: int| 0 <= j < k ==> candidate_view(#[trigger] r@[j]) == tab_source_candidate(a, tv[ov[j]]),
            decreases order.len() - k,
        {
            assert(0 <= ov[k as int] < tv.len());
            let c = self.tab_source_candidate_exec(&tabs[order[k]]);
            r.push(c);
            k += 1;
        }
        assert(candidate_views(r@) =~= tab_source_candidates(self@));
        r
    }

    fn workspace_source_candidates_exec(&self) -> (r: Vec<Candidate>)
        ensures
            candidate_views(r@) == workspace_source_candidates(self@),
    {
        let ws = &self.topology.workspaces;
        let ghost a = self@;
        let ghost wv = a.topology.workspaces;
        assert(wv =~= workspace_views(ws@));
        let mut keys: Vec<SortKey> = Vec::new();
        let mut i: usize = 0;
        while i < ws.len()
            invariant
                i <= ws@.len(),
                a == self@,
                wv == workspace_views(ws@),
                key_views(keys@) == workspace_source_keys(a, wv).take(i as int),
            decreases ws.len() - i,
        {
            let ghost before = keys@;
            let rank: i128 = if ws[i].workspace_id != self.invoked_workspace_id { 1 } else { 0 };
            let key = number_sort_key(rank, ws[i].number);
            assert(key@ == workspace_source_keys(a, wv)[i as int]);
            keys.push(key);
            assert(key_views(keys@) =~= key_views(before).push(key@));
            assert(workspace_source_keys(a, wv).take(i + 1) =~= workspace_source_keys(a, wv).take(i as int).push(workspace_source_keys(a, wv)[i as int]));
            assert(key_views(keys@) =~= workspace_source_keys(a, wv).take(i + 1));
            i += 1;
        }
        assert(workspace_source_keys(a, wv).take(i as int) =~= workspace_source_keys(a, wv));
        let order = stable_sort(&keys);
        let ghost ov = crate::sort::index_views(order@);
        let mut r: Vec<Candidate> = Vec::new();
        let mut k: usize = 0;
        while k < order.len()
            invariant
                k <= order@.len(),
                a == self@,
                wv == workspace_views(ws@),
                ov == crate::sort::index_views(order@),
                crate::sort::is_stable_order(workspace_source_keys(a, wv), ov),
                r@.len() == k,
                forall|j: int| 0 <= j < k ==> candidate_view(#[trigger] r@[j]) == searchable_candidate(
                    ChoiceView::WorkspaceSource(wv[ov[j]]),
                    workspace_name(wv[ov[j]]),
                    workspace_counts(wv[ov[j]]),
                    if wv[ov[j]].workspace_id == a.invoked_workspace_id { RowTone::Current } else { RowTone::Normal },
                ),
            decreases order.len() - k,
        {
            assert(0 <= ov[k as int] < wv.len());
            let w = &ws[order[k]];
            let current = w.workspace_id == self.invoked_workspace_id;
            let c = searchable(
                Choice::WorkspaceSource(w.clone()),
                workspace_name_of(w),
                workspace_counts_text(w),
                if current { RowTone::Current } else { RowTone::Normal },
            );
            r.push(c);
            k += 1;
        }
        assert(candidate_views(r@) =~= workspace_source_candidates(self@));
        r
    }
}

impl App {
    fn query_name(&self) -> (r: Option<String>)
        ensures
            opt_view(r) == query_name_of(self@),
    {
        let name = crate::text::trim(self.query.as_str());
        if name.is_empty() {
            None
        } else {
            Some(name.to_owned())
        }
    }

    fn creation_preview_exec(&self) -> (r: String)
        ensures
            r@ == creation_preview(self@),
    {
        match self.query_name() {
            Some(name) => {
                let mut m = "create “".to_owned();
                m.append(name.as_str());
                m.append("”");
                m
            },
            None => "type to name it".to_owned(),
        }
    }

    fn pane_destination_candidates_exec(&self, sources: &Vec<PaneInfo>) -> (r: Vec<Candidate>)
        ensures
            candidate_views(r@) == pane_destination_candidates(self@, pane_views(sources@)),
    {
        let ghost a = self@;
        let ghost sv = pane_views(sources@);
        let source_tabs = pane_tab_ids(sources);
        let source_workspaces = pane_workspace_ids(sources);
        let ghost near = source_pane_workspaces(sv);
        let tabs = tabs_outside_exec(&self.topology.tabs, &source_tabs);
        let ghost tv = tab_views(tabs@);
        assert(tv == tabs_outside(a.topology.tabs, source_pane_tabs(sv)));
        // keys of the existing tabs
        let mut keys: Vec<SortKey> = Vec::new();
        let mut i: usize = 0;
        while i < tabs.len()
            invariant
                i <= tabs@.len(),
                a == self@,
                tv == tab_views(tabs@),
                views(source_workspaces@) == near,
                key_views(keys@) == destination_tab_keys(a.topology, tv, near).take(i as int),
            decreases tabs.len() - i,
        {
            let ghost before = keys@;
            let rank: i128 = if contains_string(&source_workspaces, &tabs[i].workspace_id) { 0 } else { 1 };
            let text: Vec<char> = Vec::new();
            assert(text@ =~= Seq::<char>::empty());
            let key = SortKey {
                rank,
                first: workspace_number_of(&self.topology, tabs[i].workspace_id.as_str()),
                second: tabs[i].number,
                text,
            };
            assert(key@ == destination_tab_keys(a.topology, tv, near)[i as int]);
            keys.push(key);
            assert(key_views(keys@) =~= key_views(before).push(key@));
            assert(destination_tab_keys(a.topology, tv, near).take(i + 1) =~= destination_tab_keys(a.topology, tv, near).take(
                i as int,
            ).push(destination_tab_keys(a.topology, tv, near)[i as int]));
            i += 1;
        }
        assert(destination_tab_keys(a.topology, tv, near).take(i as int) =~= destination_tab_keys(a.topology, tv, near));
        let order = stable_sort(&keys);
        let ghost ov = crate::sort::index_views(order@);
        let mut r: Vec<Candidate> = Vec::new();
        let mut k: usize = 0;
        while k < order.len()
            invariant
                k <= order@.len(),
                a == self@,
                tv == tab_views(tabs@),
                ov == crate::sort::index_views(order@),
                crate::sort::is_stable_order(destination_tab_keys(a.topology, tv, near), ov),
                r@.len() == k,
                forall|j: int| 0 <= j < k ==> candidate_view(#[trigger] r@[j]) == searchable_candidate(
                    ChoiceView::PaneTab(tv[ov[j]]),
                    tab_title(a.topology, tv[ov[j]]),
                    decimal(tv[ov[j]].pane_count as nat) + " panes · existing tab"@,
                    RowTone::Normal,
                ),
            decreases order.len() - k,
        {
            assert(0 <= ov[k as int] < tv.len());
            let t = &tabs[order[k]];
            let mut detail = decimal_text(t.pane_count);
            detail.append(" panes · existing tab");
            let c = searchable(Choice::PaneTab(t.clone()), self.tab_title_exec(t), detail, RowTone::Normal);
            r.push(c);
            k += 1;
        }
        let ghost existing = candidate_views(r@);
        assert(existing =~= Seq::new(ov.len(), |k: int| {
            let t = tv[ov[k]];
            searchable_candidate(ChoiceView::PaneTab(t), tab_title(a.topology, t), decimal(t.pane_count as nat) + " panes · existing tab"@, RowTone::Normal)
        }));
        // new-tab rows
        let ws = &self.topology.workspaces;
        let ghost wv = a.topology.workspaces;
        assert(wv =~= workspace_views(ws@));
        let mut ws_keys: Vec<SortKey> = Vec::new();
        let mut i: usize = 0;
        while i < ws.len()
            invariant
                i <= ws@.len(),
                a == self@,
                wv == workspace_views(ws@),
                views(source_workspaces@) == near,
                key_views(ws_keys@) == new_tab_keys(wv, near).take(i as int),
            decreases ws.len() - i,
        {
            let ghost before = ws_keys@;
            let rank: i128 = if contains_string(&source_workspaces, &ws[i].workspace_id) { 0 } else { 1 };
            let key = number_sort_key(rank, ws[i].number);
            assert(key@ == new_tab_keys(wv, near)[i as int]);
            ws_keys.push(key);
            assert(key_views(ws_keys@) =~= key_views(before).push(key@));
            assert(new_tab_keys(wv, near).take(i + 1) =~= new_tab_keys(wv, near).take(i as int).push(new_tab_keys(wv, near)[i as int]));
            i += 1;
        }
        assert(new_tab_keys(wv, near).take(i as int) =~= new_tab_keys(wv, near));
        let ws_order = stable_sort(&ws_keys);
        let ghost wo = crate::sort::index_views(ws_order@);
        let preview = self.creation_preview_exec();
        let mut k: usize = 0;
        while k < ws_order.len()
            invariant
                k <= ws_order@.len(),
                a == self@,
                wv == workspace_views(ws@),
                wo == crate::sort::index_views(ws_order@),
                crate::sort::is_stable_order(new_tab_keys(wv, near), wo),
                preview@ == creation_preview(a),
                r@.len() == existing.len() + k,
                forall|j: int| 0 <= j < existing.len() ==> candidate_view(#[trigger] r@[j]) == existing[j],
                forall|j: int| existing.len() <= j < existing.len() + k ==> candidate_view(#[trigger] r@[j]) == plain_candidate(
                    ChoiceView::PaneNewTab(wv[wo[j - existing.len()]]),
                    "New tab in "@ + workspace_name(wv[wo[j - existing.len()]]),
                    creation_preview(a),
                    RowTone::Create,
                    true,
                ),
            decreases ws_order.len() - k,
        {
            assert(0 <= wo[k as int] < wv.len());
            let w = &ws[ws_order[k]];
            let c = plain(
                Choice::PaneNewTab(w.clone()),
                concat("New tab in ", workspace_name_of(w).as_str()),
                preview.clone(),
                RowTone::Create,
                true,
            );
            r.push(c);
            k += 1;
        }
        let ghost with_new_tabs = candidate_views(r@);
        assert(with_new_tabs =~= existing + Seq::new(wo.len(), |k: int| {
            let w = wv[wo[k]];
            plain_candidate(ChoiceView::PaneNewTab(w), "New tab in "@ + workspace_name(w), creation_preview(a), RowTone::Create, true)
        }));
        r.push(plain(Choice::PaneNewWorkspace, "New workspace".to_owned(), preview, RowTone::Create, true));
        assert(candidate_views(r@) =~= pane_destination_candidates(self@, pane_views(sources@)));
        r
    }

    fn tab_destination_candidates_exec(&self, sources: &Vec<TabInfo>) -> (r: Vec<Candidate>)
        ensures
            candidate_views(r@) == tab_destination_candidates(self@, tab_views(sources@)),
    {
        let ghost a = self@;
        let source_workspaces = tab_workspace_ids(sources);
        let ws = workspaces_outside_exec(&self.topology.workspaces, &source_workspaces);
        let ghost wv = workspace_views(ws@);
        let order = workspace_order(&ws);
        let ghost ov = crate::sort::index_views(order@);
        let mut r: Vec<Candidate> = Vec::new();
        let mut k: usize = 0;
        while k < order.len()
            invariant
                k <= order@.len(),
                a == self@,
                wv == workspace_views(ws@),
                ov == crate::sort::index_views(order@),
                crate::sort::is_stable_order(number_keys(wv), ov),
                r@.len() == k,
                forall|j: int| 0 <= j < k ==> candidate_view(#[trigger] r@[j]) == searchable_candidate(
                    ChoiceView::TabWorkspace(wv[ov[j]]),
                    workspace_name(wv[ov[j]]),
                    workspace_counts(wv[ov[j]]),
                    RowTone::Normal,
                ),
            decreases order.len() - k,
        {
            assert(0 <= ov[k as int] < wv.len());
            let w = &ws[order[k]];
            r.push(searchable(Choice::TabWorkspace(w.clone()), workspace_name_of(w), workspace_counts_text(w), RowTone::Normal));
            k += 1;
        }
        let preview = self.creation_preview_exec();
        r.push(plain(Choice::TabNewWorkspace, "New workspace".to_owned(), preview, RowTone::Create, true));
        assert(candidate_views(r@) =~= tab_destination_candidates(self@, tab_views(sources@)));
        r
    }

    fn workspace_destination_candidates_exec(&self, source: &WorkspaceInfo) -> (r: Vec<Candidate>)
        ensures
            candidate_views(r@) == workspace_destination_candidates(self@, source@),
    {
        let ghost a = self@;
        let mut ids: Vec<String> = Vec::new();
        ids.push(source.workspace_id.clone());
        assert(views(ids@) =~= seq![source@.workspace_id]);
        let ws = workspaces_outside_exec(&self.topology.workspaces, &ids);
        let ghost wv = workspace_views(ws@);
        let order = workspace_order(&ws);
        let ghost ov = crate::sort::index_views(order@);
        let mut r: Vec<Candidate> = Vec::new();
        let mut k: usize = 0;
        while k < order.len()
            invariant
                k <= order@.len(),
                a == self@,
                wv == workspace_views(ws@),
                ov == crate::sort::index_views(order@),
                crate::sort::is_stable_order(number_keys(wv), ov),
                r@.len() == k,
                forall|j: int| 0 <= j < k ==> candidate_view(#[trigger] r@[j]) == searchable_candidate(
                    ChoiceView::WorkspaceDestination(wv[ov[j]]),
                    workspace_name(wv[ov[j]]),
                    "append after "@ + workspace_counts(wv[ov[j]]),
                    RowTone::Normal,
                ),
            decreases order.len() - k,
        {
            assert(0 <= ov[k as int] < wv.len());
            let w = &ws[order[k]];
            let detail = concat("append after ", workspace_counts_text(w).as_str());
            r.push(searchable(Choice::WorkspaceDestination(w.clone()), workspace_name_of(w), detail, RowTone::Normal));
            k += 1;
        }
        assert(candidate_views(r@) =~= workspace_destination_candidates(self@, source@));
        r
    }

    fn candidates(&self) -> (r: Vec<Candidate>)
        ensures
            candidate_views(r@) == candidates_of(self@),
    {
        match &self.stage {
            Stage::Kind => self.kind_candidates_exec(),
            Stage::PaneSource => self.pane_source_candidates_exec(),
            Stage::TabSource => self.tab_source_candidates_exec(),
            Stage::WorkspaceSource => self.workspace_source_candidates_exec(),
            Stage::PaneDestination(sources) => self.pane_destination_candidates_exec(sources),
            Stage::TabDestination(sources) => self.tab_destination_candidates_exec(sources),
            Stage::WorkspaceDestination(source) => self.workspace_destination_candidates_exec(source),
        }
    }
}

// ---------------------------------------------------------------------------
// What the query leaves visible.

/// First candidate at or after `i` whose key is `key`.
pub open spec fn candidate_with_key(cands: Seq<CandidateView>, key: Seq<char>, i: int) -> Option<int>
    decreases cands.len() - i,
{
    if i < 0 || i >= cands.len() {
        None
    } else if cands[i].source_key == Some(key) {
        Some(i)
    } else {
        candidate_with_key(cands, key, i + 1)
    }
}

/// The candidates of the checked ids, in the order they were checked.
pub open spec fn checked_candidates(cands: Seq<CandidateView>, keys: Seq<Seq<char>>) -> Seq<CandidateView>
    decreases keys.len(),
{
    if keys.len() == 0 {
        Seq::empty()
    } else {
        let before = checked_candidates(cands, keys.drop_last());
        match candidate_with_key(cands, keys.last(), 0) {
            Some(i) => before.push(cands[i]),
            None => before,
        }
    }
}

/// The (score, index) of each of the first `n` candidates that is neither pinned nor
/// checked and that the query matches, in candidate order.
pub open spec fn scored_candidates(cands: Seq<CandidateView>, query: Seq<char>, n: int) -> Seq<(i64, int)>
    decreases n,
{
    if n <= 0 {
        Seq::empty()
    } else {
        let before = scored_candidates(cands, query, n - 1);
        let c = cands[n - 1];
        if !c.pinned && !c.row.checked {
            match crate::fuzzy::score_spec(query, c.search) {
                Some(score) => before.push((score, n - 1)),
                None => before,
            }
        } else {
            before
        }
    }
}

pub open spec fn score_keys(scored: Seq<(i64, int)>) -> Seq<KeyView> {
    scored.map_values(|e: (i64, int)| KeyView { rank: -(e.0 as int), first: 0, second: 0, text: Seq::empty() })
}

/// The pinned candidates, in order.
pub open spec fn pinned_candidates(cands: Seq<CandidateView>) -> Seq<CandidateView> {
    cands.filter(|c: CandidateView| c.pinned)
}

/// What the list shows: every candidate while the query is blank; otherwise the checked
/// ones, then the matching ones best score first (ties in candidate order), then the
/// pinned ones.
pub open spec fn visible_of(a: AppView) -> Seq<CandidateView> {
    let cands = candidates_of(a);
    if crate::text::trimmed(a.query).len() == 0 {
        cands
    } else {
        let scored = scored_candidates(cands, a.query, cands.len() as int);
        let order = stable_order(score_keys(scored));
        checked_candidates(cands, a.checked_sources) + Seq::new(order.len(), |k: int| cands[scored[order[k]].1])
            + pinned_candidates(cands)
    }
}

/// The rows shown.
pub open spec fn rows_of(a: AppView) -> Seq<RowView> {
    candidate_rows(visible_of(a))
}

pub open spec fn candidate_rows(v: Seq<CandidateView>) -> Seq<RowView> {
    v.map_values(|c: CandidateView| c.row)
}

pub open spec fn row_views(v: Seq<DisplayRow>) -> Seq<RowView> {
    v.map_values(|d: DisplayRow| d@)
}

fn find_candidate_with_key(cands: &Vec<Candidate>, key: &String) -> (r: Option<usize>)
    ensures
        r is None ==> candidate_with_key(candidate_views(cands@), key@, 0) is None,
        r matches Some(i) ==> i < cands@.len() && candidate_with_key(candidate_views(cands@), key@, 0) == Some(i as int),
{
    let ghost cv = candidate_views(cands@);
    let mut i: usize = 0;
    while i < cands.len()
        invariant
            i <= cands@.len(),
            cv == candidate_views(cands@),
            candidate_with_key(cv, key@, 0) == candidate_with_key(cv, key@, i as int),
        decreases cands.len() - i,
    {
        assert(cv[i as int].source_key == opt_view(cands@[i as int].source_key));
        match &cands[i].source_key {
            Some(k) => {
                if *k == *key {
                    return Some(i);
                }
            },
            None => {},
        }
        i += 1;
    }
    None
}

impl App {
    fn visible_candidates(&self) -> (r: Vec<Candidate>)
        ensures
            candidate_views(r@) == visible_of(self@),
    {
        let cands = self.candidates();
        let ghost a = self@;
        let ghost cv = candidate_views(cands@);
        if crate::text::is_blank(self.query.as_str()) {
            return cands;
        }
        // checked
        let mut r: Vec<Candidate> = Vec::new();
        let ghost keys = a.checked_sources;
        let mut i: usize = 0;
        while i < self.checked_sources.len()
            invariant
                i <= self.checked_sources@.len(),
                a == self@,
                keys == views(self.checked_sources@),
                cv == candidate_views(cands@),
                candidate_views(r@) == checked_candidates(cv, keys.take(i as int)),
            decreases self.checked_sources.len() - i,
        {
            let ghost before = r@;
            assert(keys.take(i + 1).drop_last() =~= keys.take(i as int));
            assert(keys.take(i + 1).last() == self.checked_sources@[i as int]@);
            match find_candidate_with_key(&cands, &self.checked_sources[i]) {
                Some(j) => {
                    r.push(clone_candidate(&cands[j]));
                    assert(candidate_views(r@) =~= candidate_views(before).push(cv[j as int]));
                },
                None => {},
            }
            i += 1;
        }
        assert(keys.take(i as int) =~= keys);
        let ghost checked = candidate_views(r@);
        // scored
        let mut scored: Vec<(i64, usize)> = Vec::new();
        let mut j: usize = 0;
        while j < cands.len()
            invariant
                j <= cands@.len(),
                a == self@,
                cv == candidate_views(cands@),
                scored@.map_values(|e: (i64, usize)| (e.0, e.1 as int)) == scored_candidates(cv, a.query, j as int),
                forall|t: int| 0 <= t < scored@.len() ==> (#[trigger] scored@[t]).1 < j,
            decreases cands.len() - j,
        {
            let ghost before = scored@;
            let c = &cands[j];
            assert(cv[j as int] == candidate_view(*c));
            if !c.pinned && !c.row.checked {
                match crate::fuzzy::score(self.query.as_str(), c.search.as_str()) {
                    Some(value) => {
                        scored.push((value, j));
                        assert(scored@.map_values(|e: (i64, usize)| (e.0, e.1 as int)) =~= before.map_values(
                            |e: (i64, usize)| (e.0, e.1 as int),
                        ).push((value, j as int)));
                    },
                    None => {},
                }
            }
            j += 1;
        }
        let ghost sv = scored_candidates(cv, a.query, cv.len() as int);
        let mut keys_vec: Vec<SortKey> = Vec::new();
        let mut t: usize = 0;
        while t < scored.len()
            invariant
                t <= scored@.len(),
                scored@.map_values(|e: (i64, usize)| (e.0, e.1 as int)) == sv,
                key_views(keys_vec@) == score_keys(sv).take(t as int),
            decreases scored.len() - t,
        {
            let ghost before = keys_vec@;
            let text: Vec<char> = Vec::new();
            assert(text@ =~= Seq::<char>::empty());
            let key = SortKey { rank: -(scored[t].0 as i128), first: 0, second: 0, text };
            assert(sv[t as int] == (scored@[t as int].0, scored@[t as int].1 as int));
            assert(key@ == score_keys(sv)[t as int]);
            keys_vec.push(key);
            assert(key_views(keys_vec@) =~= key_views(before).push(key@));
            assert(score_keys(sv).take(t + 1) =~= score_keys(sv).take(t as int).push(score_keys(sv)[t as int]));
            t += 1;
        }
        assert(score_keys(sv).take(t as int) =~= score_keys(sv));
        let order = stable_sort(&keys_vec);
        let ghost ov = crate::sort::index_views(order@);
        let mut k: usize = 0;
        while k < order.len()
            invariant
                k <= order@.len(),
                cv == candidate_views(cands@),
                scored@.map_values(|e: (i64, usize)| (e.0, e.1 as int)) == sv,
                forall|q: int| 0 <= q < scored@.len() ==> (#[trigger] scored@[q]).1 < cands@.len(),
                ov == crate::sort::index_views(order@),
                crate::sort::is_stable_order(score_keys(sv), ov),
                r@.len() == checked.len() + k,
                forall|q: int| 0 <= q < checked.len() ==> candidate_view(#[trigger] r@[q]) == checked[q],
                forall|q: int| checked.len() <= q < checked.len() + k ==> candidate_view(#[trigger] r@[q])
                    == cv[sv[ov[q - checked.len()]].1],
            decreases order.len() - k,
        {
            assert(0 <= ov[k as int] < sv.len());
            let idx = scored[order[k]].1;
            assert(sv[ov[k as int]].1 == idx as int);
            r.push(clone_candidate(&cands[idx]));
            k += 1;
        }
        let ghost ranked = candidate_views(r@);
        assert(ranked =~= checked + Seq::new(ov.len(), |q: int| cv[sv[ov[q]].1]));
        // pinned
        let mut p: usize = 0;
        while p < cands.len()
            invariant
                p <= cands@.len(),
                cv == candidate_views(cands@),
                candidate_views(r@) == ranked + pinned_candidates(cv.take(p as int)),
            decreases cands.len() - p,
        {
            let ghost before = r@;
            assert(cv.take(p + 1).drop_last() =~= cv.take(p as int));
            assert(cv.take(p + 1).last() == cv[p as int]);
            proof {
                reveal(Seq::filter);
            }
            assert(pinned_candidates(cv.take(p + 1)) == if cv[p as int].pinned {
                pinned_candidates(cv.take(p as int)).push(cv[p as int])
            } else {
                pinned_candidates(cv.take(p as int))
            });
            if cands[p].pinned {
                r.push(clone_candidate(&cands[p]));
                assert(candidate_views(r@) =~= candidate_views(before).push(cv[p as int]));
            }
            p += 1;
        }
        assert(cv.take(p as int) =~= cv);
        r
    }

    /// The rows the list shows.
    pub fn rows(&self) -> (r: Vec<DisplayRow>)
        ensures
            row_views(r@) == rows_of(self@),
    {
        let visible = self.visible_candidates();
        let ghost vv = candidate_views(visible@);
        let mut r: Vec<DisplayRow> = Vec::new();
        let mut i: usize = 0;
        while i < visible.len()
            invariant
                i <= visible@.len(),
                vv == candidate_views(visible@),
                row_views(r@) == candidate_rows(vv.take(i as int)),
            decreases visible.len() - i,
        {
            let ghost before = r@;
            r.push(visible[i].row.clone());
            assert(row_views(r@) =~= row_views(before).push(vv[i as int].row));
            assert(candidate_rows(vv.take(i + 1)) =~= candidate_rows(vv.take(i as int)).push(vv[i as int].row));
            i += 1;
        }
        assert(vv.take(i as int) =~= vv);
        r
    }

    /// The highlighted row, when any row is shown.
    pub fn selected(&self) -> (r: Option<usize>)
        ensures
            r == (if visible_of(self@).len() == 0 { None } else { Some(self@.selected) }),
    {
        if self.visible_candidates().len() == 0 {
            None
        } else {
            Some(self.selected)
        }
    }
}

// ---------------------------------------------------------------------------
// How the picker reacts to input.

/// First position at or after `i` of `x` in `s`.
pub open spec fn index_of(s: Seq<Seq<char>>, x: Seq<char>, i: int) -> Option<int>
    decreases s.len() - i,
{
    if i < 0 || i >= s.len() {
        None
    } else if s[i] == x {
        Some(i)
    } else {
        index_of(s, x, i + 1)
    }
}

/// `checked` with `key` removed when it is there, appended otherwise.
pub open spec fn toggled(checked: Seq<Seq<char>>, key: Seq<char>) -> Seq<Seq<char>> {
    match index_of(checked, key, 0) {
        Some(i) => checked.remove(i),
        None => checked.push(key),
    }
}

pub open spec fn with_checked(a: AppView, checked: Seq<Seq<char>>) -> AppView {
    AppView { checked_sources: checked, ..a }
}

pub open spec fn with_selected(a: AppView, selected: usize) -> AppView {
    AppView { selected, ..a }
}

/// The screen that lists the sources of `kind`, with nothing typed or checked.
pub open spec fn entered_source(a: AppView, kind: MoveKind) -> AppView {
    AppView {
        stage: match kind {
            MoveKind::Pane => StageView::PaneSource,
            MoveKind::Tab => StageView::TabSource,
            MoveKind::Workspace => StageView::WorkspaceSource,
        },
        query: Seq::empty(),
        selected: 0,
        checked_sources: Seq::empty(),
        failure: None,
        ..a
    }
}

pub open spec fn is_source_stage(stage: StageView) -> bool {
    stage is PaneSource || stage is TabSource
}

/// Checks or unchecks the highlighted row's source.
pub open spec fn toggle_current(a: AppView) -> AppView {
    let v = visible_of(a);
    if a.selected < v.len() && v[a.selected as int].source_key is Some {
        with_checked(a, toggled(a.checked_sources, v[a.selected as int].source_key->0))
    } else {
        a
    }
}

/// `(i + delta)` wrapped into `0..len`.
pub open spec fn wrapped(i: int, delta: int, len: int) -> int {
    (i + delta) % len
}

/// Position of the first candidate at or after `i` whose key is `key`, or 0.
pub open spec fn position_of_key(v: Seq<CandidateView>, key: Seq<char>) -> usize {
    match candidate_with_key(v, key, 0) {
        Some(i) => i as usize,
        None => 0,
    }
}

/// Checks or unchecks the highlighted source and highlights the row `delta` away from
/// it in the list as it was, wherever that row lands once the list reorders.
pub open spec fn toggle_and_move(a: AppView, delta: int) -> AppView {
    let v = visible_of(a);
    if v.len() == 0 || a.selected >= v.len() || v[a.selected as int].source_key is None {
        a
    } else {
        let next = wrapped(a.selected as int, delta, v.len() as int);
        let b = with_checked(a, toggled(a.checked_sources, v[a.selected as int].source_key->0));
        match v[next].source_key {
            Some(k) => with_selected(b, position_of_key(visible_of(b), k)),
            None => b,
        }
    }
}

/// The keys of the visible rows that have one, in order.
pub open spec fn visible_keys(v: Seq<CandidateView>) -> Seq<Seq<char>>
    decreases v.len(),
{
    if v.len() == 0 {
        Seq::empty()
    } else {
        match v.last().source_key {
            Some(k) => visible_keys(v.drop_last()).push(k),
            None => visible_keys(v.drop_last()),
        }
    }
}

/// `checked` with each of `keys` that it lacks appended, in order, once.
pub open spec fn add_missing(checked: Seq<Seq<char>>, keys: Seq<Seq<char>>) -> Seq<Seq<char>>
    decreases keys.len(),
{
    if keys.len() == 0 {
        checked
    } else {
        let before = add_missing(checked, keys.drop_last());
        if before.contains(keys.last()) { before } else { before.push(keys.last()) }
    }
}

/// `checked` without any of `keys`.
pub open spec fn remove_all(checked: Seq<Seq<char>>, keys: Seq<Seq<char>>) -> Seq<Seq<char>> {
    checked.filter(|c: Seq<char>| !keys.contains(c))
}

/// Unchecks every visible source when all are checked; otherwise checks them all.
pub open spec fn toggle_all(a: AppView) -> AppView {
    let keys = visible_keys(visible_of(a));
    if keys.len() == 0 {
        a
    } else if forall|i: int| 0 <= i < keys.len() ==> a.checked_sources.contains(#[trigger] keys[i]) {
        with_checked(a, remove_all(a.checked_sources, keys))
    } else {
        with_checked(a, add_missing(a.checked_sources, keys))
    }
}

/// Moves the highlight `delta` rows, wrapping around; to the top when nothing shows.
pub open spec fn moved_selection(a: AppView, delta: int) -> AppView {
    let len = visible_of(a).len();
    if len == 0 {
        with_selected(a, 0)
    } else {
        with_selected(a, wrapped(a.selected as int, delta, len as int) as usize)
    }
}

/// The panes of the checked ids that are still listed, in checking order.
pub open spec fn panes_of_ids(panes: Seq<PaneView>, ids: Seq<Seq<char>>) -> Seq<PaneView>
    decreases ids.len(),
{
    if ids.len() == 0 {
        Seq::empty()
    } else {
        let before = panes_of_ids(panes, ids.drop_last());
        match pane_with_id(panes, ids.last(), 0) {
            Some(i) => before.push(panes[i]),
            None => before,
        }
    }
}

/// The tabs of the checked ids that are still listed, in checking order.
pub open spec fn tabs_of_ids(tabs: Seq<TabView>, ids: Seq<Seq<char>>) -> Seq<TabView>
    decreases ids.len(),
{
    if ids.len() == 0 {
        Seq::empty()
    } else {
        let before = tabs_of_ids(tabs, ids.drop_last());
        match tab_with_id(tabs, ids.last(), 0) {
            Some(i) => before.push(tabs[i]),
            None => before,
        }
    }
}

/// The panes to move: the checked ones, or the chosen one when none is checked.
pub open spec fn chosen_panes(a: AppView, fallback: PaneView) -> Seq<PaneView> {
    if a.checked_sources.len() == 0 { seq![fallback] } else { panes_of_ids(a.topology.panes, a.checked_sources) }
}

/// The tabs to move: the checked ones, or the chosen one when none is checked.
pub open spec fn chosen_tabs(a: AppView, fallback: TabView) -> Seq<TabView> {
    if a.checked_sources.len() == 0 { seq![fallback] } else { tabs_of_ids(a.topology.tabs, a.checked_sources) }
}

pub open spec fn sources_of(panes: Seq<PaneView>) -> Seq<PaneSourceView> {
    panes.map_values(|p: PaneView| PaneSourceView { pane_id: p.pane_id, expected_tab_id: p.tab_id })
}

pub open spec fn tab_ids_of(tabs: Seq<TabView>) -> Seq<Seq<char>> {
    tabs.map_values(|t: TabView| t.tab_id)
}

pub open spec fn fresh_stage(a: AppView, stage: StageView) -> AppView {
    AppView { stage, query: Seq::empty(), selected: 0, ..a }
}

/// What choosing the highlighted row does.
pub open spec fn activated(a: AppView, direction: SplitDirection) -> (AppView, OutcomeView) {
    let v = visible_of(a);
    if a.selected >= v.len() {
        (a, OutcomeView::Continue)
    } else {
        match v[a.selected as int].choice {
            ChoiceView::Kind(k) => (entered_source(a, k), OutcomeView::Continue),
            ChoiceView::Pane(p) => (fresh_stage(a, StageView::PaneDestination(chosen_panes(a, p))), OutcomeView::Continue),
            ChoiceView::Tab(t) => (fresh_stage(a, StageView::TabDestination(chosen_tabs(a, t))), OutcomeView::Continue),
            ChoiceView::WorkspaceSource(w) => (fresh_stage(a, StageView::WorkspaceDestination(w)), OutcomeView::Continue),
            ChoiceView::PaneTab(t) => match a.stage {
                StageView::PaneDestination(s) => (a, OutcomeView::MovePane(MovePaneView {
                    sources: sources_of(s),
                    direction,
                    destination: PaneDestinationView::ExistingTab { tab_id: t.tab_id },
                })),
                _ => (a, OutcomeView::Continue),
            },
            ChoiceView::PaneNewTab(w) => match a.stage {
                StageView::PaneDestination(s) => (a, OutcomeView::MovePane(MovePaneView {
                    sources: sources_of(s),
                    direction,
                    destination: PaneDestinationView::NewTab { workspace_id: w.workspace_id, label: query_name_of(a) },
                })),
                _ => (a, OutcomeView::Continue),
            },
            ChoiceView::PaneNewWorkspace => match a.stage {
                StageView::PaneDestination(s) => (a, OutcomeView::MovePane(MovePaneView {
                    sources: sources_of(s),
                    direction,
                    destination: PaneDestinationView::NewWorkspace { label: query_name_of(a) },
                })),
                _ => (a, OutcomeView::Continue),
            },
            ChoiceView::TabWorkspace(w) => match a.stage {
                StageView::TabDestination(s) => (a, OutcomeView::MoveTab(MoveTabView {
                    tab_ids: tab_ids_of(s),
                    destination: TabDestinationView::Workspace { workspace_id: w.workspace_id },
                })),
                _ => (a, OutcomeView::Continue),
            },
            ChoiceView::TabNewWorkspace => match a.stage {
                StageView::TabDestination(s) => (a, OutcomeView::MoveTab(MoveTabView {
                    tab_ids: tab_ids_of(s),
                    destination: TabDestinationView::NewWorkspace { label: query_name_of(a) },
                })),
                _ => (a, OutcomeView::Continue),
            },
            ChoiceView::WorkspaceDestination(d) => match a.stage {
                StageView::WorkspaceDestination(src) => (a, OutcomeView::MergeWorkspace(MergeView {
                    source_workspace_id: src.workspace_id,
                    destination_workspace_id: d.workspace_id,
                })),
                _ => (a, OutcomeView::Continue),
            },
        }
    }
}

/// First candidate at or after `i` that offers the pane `id`.
pub open spec fn pane_choice_at(v: Seq<CandidateView>, id: Seq<char>, i: int) -> Option<int>
    decreases v.len() - i,
{
    if i < 0 || i >= v.len() {
        None
    } else if v[i].choice matches ChoiceView::Pane(p) && p.pane_id == id {
        Some(i)
    } else {
        pane_choice_at(v, id, i + 1)
    }
}

/// First candidate at or after `i` that offers the tab `id`.
pub open spec fn tab_choice_at(v: Seq<CandidateView>, id: Seq<char>, i: int) -> Option<int>
    decreases v.len() - i,
{
    if i < 0 || i >= v.len() {
        None
    } else if v[i].choice matches ChoiceView::Tab(t) && t.tab_id == id {
        Some(i)
    } else {
        tab_choice_at(v, id, i + 1)
    }
}

/// First candidate at or after `i` that offers the source workspace `id`.
pub open spec fn workspace_choice_at(v: Seq<CandidateView>, id: Seq<char>, i: int) -> Option<int>
    decreases v.len() - i,
{
    if i < 0 || i >= v.len() {
        None
    } else if v[i].choice matches ChoiceView::WorkspaceSource(w) && w.workspace_id == id {
        Some(i)
    } else {
        workspace_choice_at(v, id, i + 1)
    }
}

pub open spec fn or_zero(o: Option<int>) -> usize {
    match o {
        Some(i) => i as usize,
        None => 0,
    }
}

/// Escape: one screen back, highlighting what was chosen there; closes on the first screen.
pub open spec fn went_back(a: AppView) -> (AppView, OutcomeView) {
    match a.stage {
        StageView::Kind => (a, OutcomeView::Cancel),
        StageView::PaneSource => (
            AppView { stage: StageView::Kind, selected: 0, checked_sources: Seq::empty(), query: Seq::empty(), failure: None, ..a },
            OutcomeView::Continue,
        ),
        StageView::TabSource => (
            AppView { stage: StageView::Kind, selected: 1, checked_sources: Seq::empty(), query: Seq::empty(), failure: None, ..a },
            OutcomeView::Continue,
        ),
        StageView::WorkspaceSource => (
            AppView { stage: StageView::Kind, selected: 2, query: Seq::empty(), failure: None, ..a },
            OutcomeView::Continue,
        ),
        StageView::PaneDestination(s) => {
            let b = AppView { stage: StageView::PaneSource, query: Seq::empty(), ..a };
            let selected = if s.len() == 0 { 0 } else { or_zero(pane_choice_at(candidates_of(b), s[0].pane_id, 0)) };
            (with_selected(b, selected), OutcomeView::Continue)
        },
        StageView::TabDestination(s) => {
            let b = AppView { stage: StageView::TabSource, query: Seq::empty(), ..a };
            let selected = if s.len() == 0 { 0 } else { or_zero(tab_choice_at(candidates_of(b), s[0].tab_id, 0)) };
            (with_selected(b, selected), OutcomeView::Continue)
        },
        StageView::WorkspaceDestination(w) => {
            let b = AppView { stage: StageView::WorkspaceSource, query: Seq::empty(), ..a };
            (with_selected(b, or_zero(workspace_choice_at(candidates_of(b), w.workspace_id, 0))), OutcomeView::Continue)
        },
    }
}

pub open spec fn is_char_key(code: KeyCode, lower: char, upper: char) -> bool {
    code == KeyCode::Char(lower) || code == KeyCode::Char(upper)
}

/// The picker's state and wish after the key `key`.
pub open spec fn after_key(a0: AppView, key: KeyEvent) -> (AppView, OutcomeView) {
    if key.kind is Release {
        (a0, OutcomeView::Continue)
    } else if key.modifiers.control && is_char_key(key.code, 'c', 'C') {
        (a0, OutcomeView::Cancel)
    } else if a0.working is Some {
        (a0, OutcomeView::Continue)
    } else if key.code == KeyCode::Esc {
        went_back(a0)
    } else {
        let a = AppView { failure: None, ..a0 };
        if a.stage is Kind && is_char_key(key.code, 'p', 'P') {
            (entered_source(a, MoveKind::Pane), OutcomeView::Continue)
        } else if a.stage is Kind && is_char_key(key.code, 't', 'T') {
            (entered_source(a, MoveKind::Tab), OutcomeView::Continue)
        } else if a.stage is Kind && is_char_key(key.code, 'w', 'W') {
            (entered_source(a, MoveKind::Workspace), OutcomeView::Continue)
        } else if is_source_stage(a.stage) && key.modifiers.control && is_char_key(key.code, 'a', 'A') {
            (toggle_all(a), OutcomeView::Continue)
        } else if is_source_stage(a.stage) && key.code == KeyCode::Char(' ') {
            (toggle_current(a), OutcomeView::Continue)
        } else if is_source_stage(a.stage) && key.code == KeyCode::Tab {
            (toggle_and_move(a, 1), OutcomeView::Continue)
        } else if is_source_stage(a.stage) && key.code == KeyCode::BackTab {
            (toggle_and_move(a, -1), OutcomeView::Continue)
        } else if a.stage is PaneDestination && key.modifiers.alt && is_char_key(key.code, 'd', 'D') {
            activated(a, SplitDirection::Down)
        } else {
            match key.code {
                KeyCode::Up => (moved_selection(a, -1), OutcomeView::Continue),
                KeyCode::Down => (moved_selection(a, 1), OutcomeView::Continue),
                KeyCode::PageUp => (moved_selection(a, -8), OutcomeView::Continue),
                KeyCode::PageDown => (moved_selection(a, 8), OutcomeView::Continue),
                KeyCode::Home => (with_selected(a, 0), OutcomeView::Continue),
                KeyCode::End => (
                    with_selected(a, if visible_of(a).len() == 0 { 0 } else { (visible_of(a).len() - 1) as usize }),
                    OutcomeView::Continue,
                ),
                KeyCode::Enter => activated(a, SplitDirection::Right),
                KeyCode::Backspace if !(a.stage is Kind) => (
                    AppView { query: if a.query.len() == 0 { a.query } else { a.query.drop_last() }, selected: 0, ..a },
                    OutcomeView::Continue,
                ),
                KeyCode::Char(c) if !(a.stage is Kind) && !key.modifiers.control && !key.modifiers.alt => (
                    AppView { query: a.query.push(c), selected: 0, ..a },
                    OutcomeView::Continue,
                ),
                _ => (a, OutcomeView::Continue),
            }
        }
    }
}

// ---------------------------------------------------------------------------
// Input handling.

fn char_key(code: KeyCode, lower: char, upper: char) -> (r: bool)
    ensures
        r == is_char_key(code, lower, upper),
{
    match code {
        KeyCode::Char(c) => c == lower || c == upper,
        _ => false,
    }
}

/// `(i + delta)` wrapped into `0..len`.
fn wrap_index(i: usize, delta: isize, len: usize) -> (r: usize)
    requires
        len > 0,
    ensures
        r as int == wrapped(i as int, delta as int, len as int),
        r < len,
{
    let m = len as u128;
    let b = (i as u128) % m;
    if delta >= 0 {
        let d = (delta as u128) % m;
        let r = (b + d) % m;
        proof {
            vstd::arithmetic::div_mod::lemma_add_mod_noop(i as int, delta as int, len as int);
        }
        r as usize
    } else {
        let e = (0i128 - delta as i128) as u128;
        let back = e % m;
        let r = (b + m - back) % m;
        proof {
            vstd::arithmetic::div_mod::lemma_sub_mod_noop(i as int, e as int, len as int);
            vstd::arithmetic::div_mod::lemma_mod_add_multiples_vanish(b - back, len as int);
        }
        r as usize
    }
}

/// Position of the first string of `v` with the characters of `x`.
fn position_of_string(v: &Vec<String>, x: &String) -> (r: Option<usize>)
    ensures
        r is None ==> index_of(views(v@), x@, 0) is None,
        r matches Some(i) ==> i < v@.len() && index_of(views(v@), x@, 0) == Some(i as int),
{
    let ghost s = views(v@);
    let mut i: usize = 0;
    while i < v.len()
        invariant
            i <= v@.len(),
            s == views(v@),
            index_of(s, x@, 0) == index_of(s, x@, i as int),
        decreases v.len() - i,
    {
        if v[i] == *x {
            return Some(i);
        }
        i += 1;
    }
    None
}

/// The keys of the candidates that have one, in order.
fn candidate_keys(v: &Vec<Candidate>) -> (r: Vec<String>)
    ensures
        views(r@) == visible_keys(candidate_views(v@)),
{
    let ghost cv = candidate_views(v@);
    let mut r: Vec<String> = Vec::new();
    let mut i: usize = 0;
    while i < v.len()
        invariant
            i <= v@.len(),
            cv == candidate_views(v@),
            views(r@) == visible_keys(cv.take(i as int)),
        decreases v.len() - i,
    {
        let ghost before = r@;
        assert(cv.take(i + 1).drop_last() =~= cv.take(i as int));
        assert(cv.take(i + 1).last() == cv[i as int]);
        assert(cv[i as int].source_key == opt_view(v@[i as int].source_key));
        match &v[i].source_key {
            Some(k) => {
                r.push(k.clone());
                assert(views(r@) =~= views(before).push(k@));
            },
            None => {},
        }
        i += 1;
    }
    assert(cv.take(i as int) =~= cv);
    r
}

/// `checked` without any of `keys`.
fn remove_all_exec(checked: &Vec<String>, keys: &Vec<String>) -> (r: Vec<String>)
    ensures
        views(r@) == remove_all(views(checked@), views(keys@)),
{
    let ghost c = views(checked@);
    let ghost ks = views(keys@);
    let mut r: Vec<String> = Vec::new();
    let mut i: usize = 0;
    while i < checked.len()
        invariant
            i <= checked@.len(),
            c == views(checked@),
            ks == views(keys@),
            views(r@) == remove_all(c.take(i as int), ks),
        decreases checked.len() - i,
    {
        let ghost before = r@;
        assert(c.take(i + 1).drop_last() =~= c.take(i as int));
        assert(c.take(i + 1).last() == c[i as int]);
        proof {
            reveal(Seq::filter);
        }
        let present = contains_string(keys, &checked[i]);
        if !present {
            r.push(checked[i].clone());
            assert(views(r@) =~= views(before).push(c[i as int]));
        }
        i += 1;
    }
    assert(c.take(i as int) =~= c);
    r
}

/// `checked` with each of `keys` it lacks appended, in order, once.
fn add_missing_exec(checked: &Vec<String>, keys: &Vec<String>) -> (r: Vec<String>)
    ensures
        views(r@) == add_missing(views(checked@), views(keys@)),
{
    let ghost ks = views(keys@);
    let mut r: Vec<String> = checked.clone();
    assert(r@ =~= checked@);
    let mut i: usize = 0;
    while i < keys.len()
        invariant
            i <= keys@.len(),
            ks == views(keys@),
            views(r@) == add_missing(views(checked@), ks.take(i as int)),
        decreases keys.len() - i,
    {
        let ghost before = r@;
        assert(ks.take(i + 1).drop_last() =~= ks.take(i as int));
        assert(ks.take(i + 1).last() == ks[i as int]);
        if !contains_string(&r, &keys[i]) {
            r.push(keys[i].clone());
            assert(views(r@) =~= views(before).push(ks[i as int]));
        }
        i += 1;
    }
    assert(ks.take(i as int) =~= ks);
    r
}

impl App {
    fn is_kind_stage(&self) -> (r: bool)
        ensures
            r == self@.stage is Kind,
    {
        match self.stage {
            Stage::Kind => true,
            _ => false,
        }
    }

    fn is_source_stage_exec(&self) -> (r: bool)
        ensures
            r == is_source_stage(self@.stage),
    {
        match self.stage {
            Stage::PaneSource | Stage::TabSource => true,
            _ => false,
        }
    }

    fn is_pane_destination_stage(&self) -> (r: bool)
        ensures
            r == self@.stage is PaneDestination,
    {
        match self.stage {
            Stage::PaneDestination(_) => true,
            _ => false,
        }
    }

    fn enter_source(&mut self, kind: MoveKind)
        ensures
            final(self)@ == entered_source(old(self)@, kind),
    {
        self.stage = match kind {
            MoveKind::Pane => Stage::PaneSource,
            MoveKind::Tab => Stage::TabSource,
            MoveKind::Workspace => Stage::WorkspaceSource,
        };
        self.query = String::new();
        self.selected = 0;
        self.checked_sources = Vec::new();
        self.failure = None;
        assert(views(self.checked_sources@) =~= Seq::<Seq<char>>::empty());
    }

    fn toggle_source(&mut self, key: &String)
        ensures
            final(self)@ == with_checked(old(self)@, toggled(old(self)@.checked_sources, key@)),
    {
        let ghost s = views(self.checked_sources@);
        match position_of_string(&self.checked_sources, key) {
            Some(i) => {
                self.checked_sources.remove(i);
                assert(views(self.checked_sources@) =~= s.remove(i as int));
            },
            None => {
                self.checked_sources.push(key.clone());
                assert(views(self.checked_sources@) =~= s.push(key@));
            },
        }
    }

    fn toggle_current_source(&mut self)
        ensures
            final(self)@ == toggle_current(old(self)@),
    {
        let visible = self.visible_candidates();
        if self.selected < visible.len() {
            assert(candidate_views(visible@)[self.selected as int].source_key == opt_view(
                visible@[self.selected as int].source_key,
            ));
            match &visible[self.selected].source_key {
                Some(k) => self.toggle_source(k),
                None => {},
            }
        }
    }

    fn toggle_source_and_move(&mut self, delta: isize)
        ensures
            final(self)@ == toggle_and_move(old(self)@, delta as int),
    {
        let visible = self.visible_candidates();
        if visible.len() == 0 || self.selected >= visible.len() {
            return;
        }
        let ghost cv = candidate_views(visible@);
        assert(cv[self.selected as int].source_key == opt_view(visible@[self.selected as int].source_key));
        let current = match &visible[self.selected].source_key {
            Some(k) => k.clone(),
            None => {
                return;
            },
        };
        let next = wrap_index(self.selected, delta, visible.len());
        assert(cv[next as int].source_key == opt_view(visible@[next as int].source_key));
        let next_key = clone_opt(&visible[next].source_key);
        self.toggle_source(&current);
        match next_key {
            Some(k) => {
                let after = self.visible_candidates();
                self.selected = match find_candidate_with_key(&after, &k) {
                    Some(j) => j,
                    None => 0,
                };
            },
            None => {},
        }
    }

    fn toggle_all_visible(&mut self)
        ensures
            final(self)@ == toggle_all(old(self)@),
    {
        let visible = self.visible_candidates();
        let keys = candidate_keys(&visible);
        let ghost ks = views(keys@);
        if keys.len() == 0 {
            return;
        }
        let mut all = true;
        let mut i: usize = 0;
        while i < keys.len()
            invariant
                i <= keys@.len(),
                ks == views(keys@),
                all == (forall|t: int| 0 <= t < i ==> views(self.checked_sources@).contains(#[trigger] ks[t])),
            decreases keys.len() - i,
        {
            assert(ks[i as int] == keys@[i as int]@);
            if !contains_string(&self.checked_sources, &keys[i]) {
                all = false;
            }
            assert(all == (forall|t: int| 0 <= t < i + 1 ==> views(self.checked_sources@).contains(#[trigger] ks[t])));
            i += 1;
        }
        if all {
            self.checked_sources = remove_all_exec(&self.checked_sources, &keys);
        } else {
            self.checked_sources = add_missing_exec(&self.checked_sources, &keys);
        }
    }

    fn move_selection(&mut self, delta: isize)
        ensures
            final(self)@ == moved_selection(old(self)@, delta as int),
    {
        let length = self.visible_candidates().len();
        if length == 0 {
            self.selected = 0;
        } else {
            self.selected = wrap_index(self.selected, delta, length);
        }
    }
}

fn find_pane_choice(cands: &Vec<Candidate>, id: &String) -> (r: Option<usize>)
    ensures
        or_zero(pane_choice_at(candidate_views(cands@), id@, 0)) == match r {
            Some(i) => i,
            None => 0usize,
        },
{
    let ghost cv = candidate_views(cands@);
    let mut i: usize = 0;
    while i < cands.len()
        invariant
            i <= cands@.len(),
            cv == candidate_views(cands@),
            pane_choice_at(cv, id@, 0) == pane_choice_at(cv, id@, i as int),
        decreases cands.len() - i,
    {
        assert(cv[i as int].choice == choice_view(cands@[i as int].choice));
        match &cands[i].choice {
            Choice::Pane(p) => {
                if p.pane_id == *id {
                    return Some(i);
                }
            },
            _ => {},
        }
        i += 1;
    }
    None
}

fn find_tab_choice(cands: &Vec<Candidate>, id: &String) -> (r: Option<usize>)
    ensures
        or_zero(tab_choice_at(candidate_views(cands@), id@, 0)) == match r {
            Some(i) => i,
            None => 0usize,
        },
{
    let ghost cv = candidate_views(cands@);
    let mut i: usize = 0;
    while i < cands.len()
        invariant
            i <= cands@.len(),
            cv == candidate_views(cands@),
            tab_choice_at(cv, id@, 0) == tab_choice_at(cv, id@, i as int),
        decreases cands.len() - i,
    {
        assert(cv[i as int].choice == choice_view(cands@[i as int].choice));
        match &cands[i].choice {
            Choice::Tab(t) => {
                if t.tab_id == *id {
                    return Some(i);
                }
            },
            _ => {},
        }
        i += 1;
    }
    None
}

fn find_workspace_choice(cands: &Vec<Candidate>, id: &String) -> (r: Option<usize>)
    ensures
        or_zero(workspace_choice_at(candidate_views(cands@), id@, 0)) == match r {
            Some(i) => i,
            None => 0usize,
        },
{
    let ghost cv = candidate_views(cands@);
    let mut i: usize = 0;
    while i < cands.len()
        invariant
            i <= cands@.len(),
            cv == candidate_views(cands@),
            workspace_choice_at(cv, id@, 0) == workspace_choice_at(cv, id@, i as int),
        decreases cands.len() - i,
    {
        assert(cv[i as int].choice == choice_view(cands@[i as int].choice));
        match &cands[i].choice {
            Choice::WorkspaceSource(w) => {
                if w.workspace_id == *id {
                    return Some(i);
                }
            },
            _ => {},
        }
        i += 1;
    }
    None
}

/// The request entries for the chosen panes, each with the tab it is in.
fn pane_sources(sources: &Vec<PaneInfo>) -> (r: Vec<PaneSource>)
    ensures
        r@.map_values(|s: PaneSource| s@) == sources_of(pane_views(sources@)),
{
    let ghost target = sources_of(pane_views(sources@));
    let mut r: Vec<PaneSource> = Vec::new();
    let mut i: usize = 0;
    while i < sources.len()
        invariant
            i <= sources@.len(),
            target == sources_of(pane_views(sources@)),
            r@.map_values(|s: PaneSource| s@) == target.take(i as int),
        decreases sources.len() - i,
    {
        let ghost before = r@;
        let entry = PaneSource { pane_id: sources[i].pane_id.clone(), expected_tab_id: sources[i].tab_id.clone() };
        assert(pane_views(sources@)[i as int] == sources@[i as int]@);
        assert(target[i as int] == entry@);
        r.push(entry);
        assert(r@.map_values(|s: PaneSource| s@) =~= before.map_values(|s: PaneSource| s@).push(entry@));
        assert(target.take(i + 1) =~= target.take(i as int).push(target[i as int]));
        i += 1;
    }
    assert(target.take(i as int) =~= target);
    r
}

/// The ids of the chosen tabs, in order.
fn tab_ids(sources: &Vec<TabInfo>) -> (r: Vec<String>)
    ensures
        r@.map_values(|t: String| t@) == tab_ids_of(tab_views(sources@)),
{
    let ghost target = tab_ids_of(tab_views(sources@));
    let mut r: Vec<String> = Vec::new();
    let mut i: usize = 0;
    while i < sources.len()
        invariant
            i <= sources@.len(),
            target == tab_ids_of(tab_views(sources@)),
            r@.map_values(|t: String| t@) == target.take(i as int),
        decreases sources.len() - i,
    {
        let ghost before = r@;
        let id = sources[i].tab_id.clone();
        assert(tab_views(sources@)[i as int] == sources@[i as int]@);
        assert(target[i as int] == id@);
        r.push(id);
        assert(r@.map_values(|t: String| t@) =~= before.map_values(|t: String| t@).push(id@));
        assert(target.take(i + 1) =~= target.take(i as int).push(target[i as int]));
        i += 1;
    }
    assert(target.take(i as int) =~= target);
    r
}

impl App {
    fn chosen_panes_exec(&self, fallback: &PaneInfo) -> (r: Vec<PaneInfo>)
        ensures
            pane_views(r@) == chosen_panes(self@, fallback@),
    {
        let mut r: Vec<PaneInfo> = Vec::new();
        if self.checked_sources.len() == 0 {
            r.push(fallback.clone());
            assert(pane_views(r@) =~= seq![fallback@]);
            return r;
        }
        let ghost ids = views(self.checked_sources@);
        let ghost panes = self@.topology.panes;
        let mut i: usize = 0;
        while i < self.checked_sources.len()
            invariant
                i <= self.checked_sources@.len(),
                ids == views(self.checked_sources@),
                panes == self.topology.panes@.map_values(|p: PaneInfo| p@),
                pane_views(r@) == panes_of_ids(panes, ids.take(i as int)),
            decreases self.checked_sources.len() - i,
        {
            let ghost before = r@;
            assert(ids.take(i + 1).drop_last() =~= ids.take(i as int));
            assert(ids.take(i + 1).last() == ids[i as int]);
            match find_pane_with_id(&self.topology.panes, &self.checked_sources[i]) {
                Some(j) => {
                    r.push(self.topology.panes[j].clone());
                    assert(pane_views(r@) =~= pane_views(before).push(panes[j as int]));
                },
                None => {},
            }
            i += 1;
        }
        assert(ids.take(i as int) =~= ids);
        r
    }

    fn chosen_tabs_exec(&self, fallback: &TabInfo) -> (r: Vec<TabInfo>)
        ensures
            tab_views(r@) == chosen_tabs(self@, fallback@),
    {
        let mut r: Vec<TabInfo> = Vec::new();
        if self.checked_sources.len() == 0 {
            r.push(fallback.clone());
            assert(tab_views(r@) =~= seq![fallback@]);
            return r;
        }
        let ghost ids = views(self.checked_sources@);
        let ghost tabs = self@.topology.tabs;
        let mut i: usize = 0;
        while i < self.checked_sources.len()
            invariant
                i <= self.checked_sources@.len(),
                ids == views(self.checked_sources@),
                tabs == self.topology.tabs@.map_values(|t: TabInfo| t@),
                tab_views(r@) == tabs_of_ids(tabs, ids.take(i as int)),
            decreases self.checked_sources.len() - i,
        {
            let ghost before = r@;
            assert(ids.take(i + 1).drop_last() =~= ids.take(i as int));
            assert(ids.take(i + 1).last() == ids[i as int]);
            match find_tab_with_id(&self.topology.tabs, &self.checked_sources[i]) {
                Some(j) => {
                    r.push(self.topology.tabs[j].clone());
                    assert(tab_views(r@) =~= tab_views(before).push(tabs[j as int]));
                },
                None => {},
            }
            i += 1;
        }
        assert(ids.take(i as int) =~= ids);
        r
    }

    /// The tab move request for the tabs being moved, or nothing off that screen.
    fn tab_move_outcome(&self, destination: TabDestination) -> (r: InputOutcome)
        ensures
            r@ == match self@.stage {
                StageView::TabDestination(s) => OutcomeView::MoveTab(
                    MoveTabView { tab_ids: tab_ids_of(s), destination: destination@ },
                ),
                _ => OutcomeView::Continue,
            },
    {
        match &self.stage {
            Stage::TabDestination(sources) => InputOutcome::MoveTab(
                MoveTabRequest { tab_ids: tab_ids(sources), destination },
            ),
            _ => InputOutcome::Continue,
        }
    }

    fn activate(&mut self, direction: SplitDirection) -> (r: InputOutcome)
        ensures
            (final(self)@, r@) == activated(old(self)@, direction),
    {
        let visible = self.visible_candidates();
        if self.selected >= visible.len() {
            return InputOutcome::Continue;
        }
        assert(candidate_views(visible@)[self.selected as int].choice == choice_view(
            visible@[self.selected as int].choice,
        ));
        match &visible[self.selected].choice {
            Choice::Kind(k) => {
                self.enter_source(*k);
                InputOutcome::Continue
            },
            Choice::Pane(p) => {
                let chosen = self.chosen_panes_exec(p);
                self.stage = Stage::PaneDestination(chosen);
                self.query = String::new();
                self.selected = 0;
                InputOutcome::Continue
            },
            Choice::Tab(t) => {
                let chosen = self.chosen_tabs_exec(t);
                self.stage = Stage::TabDestination(chosen);
                self.query = String::new();
                self.selected = 0;
                InputOutcome::Continue
            },
            Choice::WorkspaceSource(w) => {
                self.stage = Stage::WorkspaceDestination(w.clone());
                self.query = String::new();
                self.selected = 0;
                InputOutcome::Continue
            },
            Choice::PaneTab(t) => match &self.stage {
                Stage::PaneDestination(sources) => InputOutcome::MovePane(
                    MovePaneRequest {
                        sources: pane_sources(sources),
                        direction,
                        destination: PaneDestination::ExistingTab { tab_id: t.tab_id.clone() },
                    },
                ),
                _ => InputOutcome::Continue,
            },
            Choice::PaneNewTab(w) => match &self.stage {
                Stage::PaneDestination(sources) => InputOutcome::MovePane(
                    MovePaneRequest {
                        sources: pane_sources(sources),
                        direction,
                        destination: PaneDestination::NewTab {
                            workspace_id: w.workspace_id.clone(),
                            label: self.query_name(),
                        },
                    },
                ),
                _ => InputOutcome::Continue,
            },
            Choice::PaneNewWorkspace => match &self.stage {
                Stage::PaneDestination(sources) => InputOutcome::MovePane(
                    MovePaneRequest {
                        sources: pane_sources(sources),
                        direction,
                        destination: PaneDestination::NewWorkspace { label: self.query_name() },
                    },
                ),
                _ => InputOutcome::Continue,
            },
            Choice::TabWorkspace(w) => self.tab_move_outcome(
                TabDestination::Workspace { workspace_id: w.workspace_id.clone() },
            ),
            Choice::TabNewWorkspace => self.tab_move_outcome(TabDestination::NewWorkspace { label: self.query_name() }),
            Choice::WorkspaceDestination(d) => match &self.stage {
                Stage::WorkspaceDestination(source) => InputOutcome::MergeWorkspace(
                    MergeWorkspaceRequest {
                        source_workspace_id: source.workspace_id.clone(),
                        destination_workspace_id: d.workspace_id.clone(),
                    },
                ),
                _ => InputOutcome::Continue,
            },
        }
    }

    fn back(&mut self) -> (r: InputOutcome)
        ensures
            (final(self)@, r@) == went_back(old(self)@),
    {
        let previous = clone_stage(&self.stage);
        match previous {
            Stage::Kind => InputOutcome::Cancel,
            Stage::PaneSource => {
                self.stage = Stage::Kind;
                self.selected = 0;
                self.checked_sources = Vec::new();
                assert(views(self.checked_sources@) =~= Seq::<Seq<char>>::empty());
                self.query = String::new();
                self.failure = None;
                InputOutcome::Continue
            },
            Stage::TabSource => {
                self.stage = Stage::Kind;
                self.selected = 1;
                self.checked_sources = Vec::new();
                assert(views(self.checked_sources@) =~= Seq::<Seq<char>>::empty());
                self.query = String::new();
                self.failure = None;
                InputOutcome::Continue
            },
            Stage::WorkspaceSource => {
                self.stage = Stage::Kind;
                self.selected = 2;
                self.query = String::new();
                self.failure = None;
                InputOutcome::Continue
            },
            Stage::PaneDestination(sources) => {
                self.stage = Stage::PaneSource;
                self.query = String::new();
                let cands = self.candidates();
                self.selected = if sources.len() == 0 {
                    0
                } else {
                    match find_pane_choice(&cands, &sources[0].pane_id) {
                        Some(i) => i,
                        None => 0,
                    }
                };
                InputOutcome::Continue
            },
            Stage::TabDestination(sources) => {
                self.stage = Stage::TabSource;
                self.query = String::new();
                let cands = self.candidates();
                self.selected = if sources.len() == 0 {
                    0
                } else {
                    match find_tab_choice(&cands, &sources[0].tab_id) {
                        Some(i) => i,
                        None => 0,
                    }
                };
                InputOutcome::Continue
            },
            Stage::WorkspaceDestination(source) => {
                self.stage = Stage::WorkspaceSource;
                self.query = String::new();
                let cands = self.candidates();
                self.selected = match find_workspace_choice(&cands, &source.workspace_id) {
                    Some(i) => i,
                    None => 0,
                };
                InputOutcome::Continue
            },
        }
    }
}

impl App {
    /// Reacts to one key: moves the highlight, edits the query, checks sources, steps
    /// between screens, or asks for a move; Ctrl-C always asks to close, and nothing but
    /// Ctrl-C acts while a move is under way.
    pub fn handle_key(&mut self, key: KeyEvent) -> (r: InputOutcome)
        ensures
            (final(self)@, r@) == after_key(old(self)@, key),
    {
        match key.kind {
            KeyEventKind::Release => {
                return InputOutcome::Continue;
            },
            _ => {},
        }
        if key.modifiers.control && char_key(key.code, 'c', 'C') {
            return InputOutcome::Cancel;
        }
        if self.working.is_some() {
            return InputOutcome::Continue;
        }
        if key.code == KeyCode::Esc {
            return self.back();
        }
        self.failure = None;
        let kind_stage = self.is_kind_stage();
        if kind_stage && char_key(key.code, 'p', 'P') {
            self.enter_source(MoveKind::Pane);
            return InputOutcome::Continue;
        }
        if kind_stage && char_key(key.code, 't', 'T') {
            self.enter_source(MoveKind::Tab);
            return InputOutcome::Continue;
        }
        if kind_stage && char_key(key.code, 'w', 'W') {
            self.enter_source(MoveKind::Workspace);
            return InputOutcome::Continue;
        }
        let source_stage = self.is_source_stage_exec();
        if source_stage && key.modifiers.control && char_key(key.code, 'a', 'A') {
            self.toggle_all_visible();
            return InputOutcome::Continue;
        }
        if source_stage && key.code == KeyCode::Char(' ') {
            self.toggle_current_source();
            return InputOutcome::Continue;
        }
        if source_stage && key.code == KeyCode::Tab {
            self.toggle_source_and_move(1);
            return InputOutcome::Continue;
        }
        if source_stage && key.code == KeyCode::BackTab {
            self.toggle_source_and_move(-1);
            return InputOutcome::Continue;
        }
        if self.is_pane_destination_stage() && key.modifiers.alt && char_key(key.code, 'd', 'D') {
            return self.activate(SplitDirection::Down);
        }
        match key.code {
            KeyCode::Up => self.move_selection(-1),
            KeyCode::Down => self.move_selection(1),
            KeyCode::PageUp => self.move_selection(-8),
            KeyCode::PageDown => self.move_selection(8),
            KeyCode::Home => self.selected = 0,
            KeyCode::End => {
                let length = self.visible_candidates().len();
                self.selected = if length == 0 {
                    0
                } else {
                    length - 1
                };
            },
            KeyCode::Enter => {
                return self.activate(SplitDirection::Right);
            },
            KeyCode::Backspace => {
                if !kind_stage {
                    let mut chars = chars_of(self.query.as_str());
                    let ghost q = chars@;
                    if chars.len() > 0 {
                        chars.pop();
                        assert(chars@ =~= q.drop_last());
                    }
                    self.query = string_of(&chars);
                    self.selected = 0;
                }
            },
            KeyCode::Char(c) => {
                if !kind_stage && !key.modifiers.control && !key.modifiers.alt {
                    push_char(&mut self.query, c);
                    self.selected = 0;
                }
            },
            _ => {},
        }
        InputOutcome::Continue
    }

    /// Reacts to one input: keys as `handle_key` does; anything else changes nothing.
    pub fn handle_event(&mut self, event: InputEvent) -> (r: InputOutcome)
        ensures
            match event {
                InputEvent::Key(key) => (final(self)@, r@) == after_key(old(self)@, key),
                InputEvent::Other => final(self)@ == old(self)@ && r@ == OutcomeView::Continue,
            },
    {
        match event {
            InputEvent::Key(key) => self.handle_key(key),
            InputEvent::Other => InputOutcome::Continue,
        }
    }
}

// ---------------------------------------------------------------------------
// Laws of the picker.

/// Whether `key` is Ctrl-C going down or repeating.
pub open spec fn is_ctrl_c(key: KeyEvent) -> bool {
    !(key.kind is Release) && key.modifiers.control && is_char_key(key.code, 'c', 'C')
}

proof fn lemma_index_of(s: Seq<Seq<char>>, x: Seq<char>, i: int)
    requires
        0 <= i,
    ensures
        index_of(s, x, i) matches Some(j) ==> i <= j < s.len() && s[j] == x,
        index_of(s, x, i) is None ==> forall|j: int| i <= j < s.len() ==> s[j] != x,
    decreases s.len() - i,
{
    if i < s.len() && s[i] != x {
        lemma_index_of(s, x, i + 1);
    }
}

/// Checking a source flips whether that source is checked and leaves every other source
/// as it was; the checked sources stay distinct.
pub proof fn lemma_toggle_flips_one_source(checked: Seq<Seq<char>>, key: Seq<char>, other: Seq<char>)
    requires
        checked.no_duplicates(),
    ensures
        toggled(checked, key).no_duplicates(),
        toggled(checked, key).contains(key) == !checked.contains(key),
        other != key ==> toggled(checked, key).contains(other) == checked.contains(other),
{
    lemma_index_of(checked, key, 0);
    match index_of(checked, key, 0) {
        Some(i) => {
            let r = checked.remove(i);
            assert forall|a: int, b: int| 0 <= a < b < r.len() implies r[a] != r[b] by {
                let oa = if a < i { a } else { a + 1 };
                let ob = if b < i { b } else { b + 1 };
                assert(r[a] == checked[oa]);
                assert(r[b] == checked[ob]);
            }
            if r.contains(key) {
                let j = choose|j: int| 0 <= j < r.len() && r[j] == key;
                let oj = if j < i { j } else { j + 1 };
                assert(r[j] == checked[oj]);
            }
            if other != key {
                if checked.contains(other) {
                    let j = choose|j: int| 0 <= j < checked.len() && checked[j] == other;
                    let rj = if j < i { j } else { j - 1 };
                    assert(r[rj] == other);
                }
                if r.contains(other) {
                    let j = choose|j: int| 0 <= j < r.len() && r[j] == other;
                    let oj = if j < i { j } else { j + 1 };
                    assert(r[j] == checked[oj]);
                }
            }
        },
        None => {
            let r = checked.push(key);
            assert(r[checked.len() as int] == key);
            assert forall|a: int, b: int| 0 <= a < b < r.len() implies r[a] != r[b] by {
                if b == checked.len() {
                    assert(r[a] == checked[a]);
                }
            }
            if other != key && r.contains(other) {
                let j = choose|j: int| 0 <= j < r.len() && r[j] == other;
                assert(checked[j] == other);
            }
            if other != key && checked.contains(other) {
                let j = choose|j: int| 0 <= j < checked.len() && checked[j] == other;
                assert(r[j] == other);
            }
        },
    }
}

proof fn lemma_add_missing(checked: Seq<Seq<char>>, keys: Seq<Seq<char>>)
    requires
        checked.no_duplicates(),
    ensures
        add_missing(checked, keys).no_duplicates(),
        forall|i: int| 0 <= i < keys.len() ==> add_missing(checked, keys).contains(#[trigger] keys[i]),
        forall|x: Seq<char>| #[trigger] add_missing(checked, keys).contains(x) ==> checked.contains(x) || keys.contains(x),
    decreases keys.len(),
{
    if keys.len() > 0 {
        let before = add_missing(checked, keys.drop_last());
        lemma_add_missing(checked, keys.drop_last());
        let r = add_missing(checked, keys);
        assert forall|i: int| 0 <= i < keys.len() implies r.contains(#[trigger] keys[i]) by {
            if i < keys.len() - 1 {
                assert(keys.drop_last()[i] == keys[i]);
                assert(before.contains(keys[i]));
                if !before.contains(keys.last()) {
                    let j = choose|j: int| 0 <= j < before.len() && before[j] == keys[i];
                    assert(r[j] == keys[i]);
                }
            } else {
                if !before.contains(keys.last()) {
                    assert(r[before.len() as int] == keys.last());
                }
            }
        }
        assert forall|x: Seq<char>| #[trigger] r.contains(x) implies checked.contains(x) || keys.contains(x) by {
            if before.contains(x) {
                if keys.drop_last().contains(x) {
                    let j = choose|j: int| 0 <= j < keys.drop_last().len() && keys.drop_last()[j] == x;
                    assert(keys[j] == x);
                }
            } else {
                let j = choose|j: int| 0 <= j < r.len() && r[j] == x;
                assert(j == before.len());
                assert(keys[keys.len() - 1] == x);
            }
        }
        if !before.contains(keys.last()) {
            assert forall|a: int, b: int| 0 <= a < b < r.len() implies r[a] != r[b] by {
                if b == before.len() {
                    assert(r[a] == before[a]);
                }
            }
        }
    }
}

proof fn lemma_remove_all(checked: Seq<Seq<char>>, keys: Seq<Seq<char>>)
    requires
        checked.no_duplicates(),
    ensures
        remove_all(checked, keys).no_duplicates(),
        forall|x: Seq<char>| #[trigger] remove_all(checked, keys).contains(x) ==> checked.contains(x) && !keys.contains(x),
    decreases checked.len(),
{
    let pred = |c: Seq<char>| !keys.contains(c);
    assert forall|x: Seq<char>| #[trigger] remove_all(checked, keys).contains(x) implies checked.contains(x)
        && !keys.contains(x) by {
        checked.lemma_filter_contains_rev(pred, x);
        let j = choose|j: int| 0 <= j < checked.filter(pred).len() && checked.filter(pred)[j] == x;
        checked.lemma_filter_pred(pred, j);
    }
    if checked.len() > 0 {
        let rest = checked.drop_last();
        assert(rest.no_duplicates());
        lemma_remove_all(rest, keys);
        assert(rest.push(checked.last()) =~= checked);
        rest.lemma_filter_push(checked.last(), pred);
        let before = rest.filter(pred);
        if pred(checked.last()) {
            assert(!before.contains(checked.last())) by {
                if before.contains(checked.last()) {
                    assert(rest.contains(checked.last()));
                    let j = choose|j: int| 0 <= j < rest.len() && rest[j] == checked.last();
                    assert(checked[j] == checked[checked.len() - 1]);
                }
            }
            let r = before.push(checked.last());
            assert forall|a: int, b: int| 0 <= a < b < r.len() implies r[a] != r[b] by {
                if b == before.len() {
                    assert(r[a] == before[a]);
                }
            }
        }
    }
}

/// Every key keeps the checked sources distinct.
pub proof fn lemma_checked_sources_stay_distinct(a: AppView, key: KeyEvent)
    requires
        a.checked_sources.no_duplicates(),
    ensures
        after_key(a, key).0.checked_sources.no_duplicates(),
{
    let b = AppView { failure: None, ..a };
    let v = visible_of(b);
    if b.selected < v.len() && v[b.selected as int].source_key is Some {
        lemma_toggle_flips_one_source(a.checked_sources, v[b.selected as int].source_key->0, Seq::empty());
    }
    let keys = visible_keys(v);
    lemma_add_missing(a.checked_sources, keys);
    lemma_remove_all(a.checked_sources, keys);
    assert(Seq::<Seq<char>>::empty().no_duplicates());
}

/// Ctrl-C closes the picker from any screen, even while a move is under way, and changes
/// nothing.
pub proof fn lemma_ctrl_c_always_closes(a: AppView, key: KeyEvent)
    requires
        is_ctrl_c(key),
    ensures
        after_key(a, key) == (a, OutcomeView::Cancel),
{
}

/// A key going up changes nothing.
pub proof fn lemma_released_keys_are_ignored(a: AppView, key: KeyEvent)
    requires
        key.kind is Release,
    ensures
        after_key(a, key) == (a, OutcomeView::Continue),
{
}

/// While a move is under way, every key but Ctrl-C is ignored.
pub proof fn lemma_busy_picker_ignores_keys(a: AppView, key: KeyEvent)
    requires
        a.working is Some,
        !is_ctrl_c(key),
    ensures
        after_key(a, key) == (a, OutcomeView::Continue),
{
}

/// Escape goes back one screen; on the first screen it closes the picker.
pub proof fn lemma_escape_steps_back(a: AppView, key: KeyEvent)
    requires
        key.code == KeyCode::Esc,
        !(key.kind is Release),
        a.working is None,
    ensures
        a.stage is Kind ==> after_key(a, key) == (a, OutcomeView::Cancel),
        !(a.stage is Kind) ==> after_key(a, key).1 == OutcomeView::Continue
            && step_of(after_key(a, key).0.stage) + 1 == step_of(a.stage),
{
}

/// The picker asks to close only on Ctrl-C, or on Escape from the first screen.
pub proof fn lemma_closes_only_on_ctrl_c_or_first_escape(a: AppView, key: KeyEvent)
    ensures
        after_key(a, key).1 == OutcomeView::Cancel ==> is_ctrl_c(key) || (key.code == KeyCode::Esc
            && a.stage is Kind),
{
    let b = AppView { failure: None, ..a };
    if !(key.kind is Release) && !is_ctrl_c(key) && a.working is None && key.code != KeyCode::Esc {
        let v = visible_of(b);
        if b.selected < v.len() {
            let c = v[b.selected as int].choice;
            assert(activated(b, SplitDirection::Right).1 != OutcomeView::Cancel);
            assert(activated(b, SplitDirection::Down).1 != OutcomeView::Cancel);
        }
    }
}

/// Moving the highlight keeps it on a shown row.
pub proof fn lemma_navigation_stays_on_a_row(a: AppView, delta: int)
    requires
        visible_of(a).len() > 0,
    ensures
        moved_selection(a, delta).selected < visible_of(a).len(),
{
}

/// Ctrl-A on a list with keys checks every shown source when some is unchecked, and
/// otherwise unchecks them all; other checked sources stay checked.
pub proof fn lemma_select_all_toggles_every_shown_source(a: AppView, x: Seq<char>)
    requires
        a.checked_sources.no_duplicates(),
        visible_keys(visible_of(a)).len() > 0,
    ensures
        ({
            let keys = visible_keys(visible_of(a));
            let all_checked = forall|i: int| 0 <= i < keys.len() ==> a.checked_sources.contains(#[trigger] keys[i]);
            let after = toggle_all(a).checked_sources;
            &&& all_checked ==> (keys.contains(x) ==> !after.contains(x))
            &&& !all_checked ==> (keys.contains(x) ==> after.contains(x))
            &&& !keys.contains(x) ==> (after.contains(x) == a.checked_sources.contains(x))
        }),
{
    let keys = visible_keys(visible_of(a));
    lemma_add_missing(a.checked_sources, keys);
    lemma_remove_all(a.checked_sources, keys);
    let pred = |c: Seq<char>| !keys.contains(c);
    if a.checked_sources.contains(x) && !keys.contains(x) {
        let j = choose|j: int| 0 <= j < a.checked_sources.len() && a.checked_sources[j] == x;
        a.checked_sources.lemma_filter_contains(pred, j);
        let added = add_missing(a.checked_sources, keys);
        assert(added.contains(x)) by {
            lemma_add_missing_keeps(a.checked_sources, keys, x);
        }
    }
    if keys.contains(x) {
        let i = choose|i: int| 0 <= i < keys.len() && keys[i] == x;
        assert(add_missing(a.checked_sources, keys).contains(keys[i]));
    }
}

proof fn lemma_add_missing_keeps(checked: Seq<Seq<char>>, keys: Seq<Seq<char>>, x: Seq<char>)
    requires
        checked.contains(x),
    ensures
        add_missing(checked, keys).contains(x),
    decreases keys.len(),
{
    if keys.len() > 0 {
        lemma_add_missing_keeps(checked, keys.drop_last(), x);
        let before = add_missing(checked, keys.drop_last());
        if !before.contains(keys.last()) {
            let j = choose|j: int| 0 <= j < before.len() && before[j] == x;
            assert(before.push(keys.last())[j] == x);
        }
    }
}

/// Whether no row that stays at the bottom comes before one that does not.
pub open spec fn pinned_last(v: Seq<CandidateView>) -> bool {
    forall|i: int, j: int| 0 <= i < j < v.len() && (#[trigger] v[i]).pinned ==> (#[trigger] v[j]).pinned
}

/// Whether every row that checks a source is one that moves with the query.
pub open spec fn keyed_rows_unpinned(v: Seq<CandidateView>) -> bool {
    forall|i: int| 0 <= i < v.len() && (#[trigger] v[i]).source_key is Some ==> !v[i].pinned
}

proof fn lemma_candidates_shape(a: AppView)
    ensures
        pinned_last(candidates_of(a)),
        keyed_rows_unpinned(candidates_of(a)),
{
    let c = candidates_of(a);
    match a.stage {
        StageView::PaneDestination(sources) => {
            let source_workspaces = source_pane_workspaces(sources);
            let tabs = tabs_outside(a.topology.tabs, source_pane_tabs(sources));
            let order = stable_order(destination_tab_keys(a.topology, tabs, source_workspaces));
            let n = order.len() as int;
            assert forall|i: int, j: int| 0 <= i < j < c.len() && (#[trigger] c[i]).pinned implies (#[trigger] c[j]).pinned by {
                if i < n {
                    assert(!c[i].pinned);
                }
            }
            assert forall|i: int| 0 <= i < c.len() && (#[trigger] c[i]).source_key is Some implies !c[i].pinned by {
                if i >= n {
                    assert(c[i].source_key is None);
                }
            }
        },
        StageView::TabDestination(sources) => {
            let ws = workspaces_outside(a.topology.workspaces, source_tab_workspaces(sources));
            let order = stable_order(number_keys(ws));
            let n = order.len() as int;
            assert forall|i: int, j: int| 0 <= i < j < c.len() && (#[trigger] c[i]).pinned implies (#[trigger] c[j]).pinned by {
                if i < n {
                    assert(!c[i].pinned);
                }
            }
            assert forall|i: int| 0 <= i < c.len() && (#[trigger] c[i]).source_key is Some implies !c[i].pinned by {
                if i >= n {
                    assert(c[i].source_key is None);
                }
            }
        },
        StageView::Kind => {
            assert forall|i: int| 0 <= i < c.len() implies !(#[trigger] c[i]).pinned by {
                assert(c[0].pinned == false && c[1].pinned == false && c[2].pinned == false);
            }
        },
        _ => {
            assert forall|i: int| 0 <= i < c.len() implies !(#[trigger] c[i]).pinned by {}
        },
    }
}

proof fn lemma_candidate_with_key(cands: Seq<CandidateView>, key: Seq<char>, i: int)
    requires
        0 <= i,
    ensures
        candidate_with_key(cands, key, i) matches Some(j) ==> i <= j < cands.len() && cands[j].source_key == Some(key),
    decreases cands.len() - i,
{
    if i < cands.len() && cands[i].source_key != Some(key) {
        lemma_candidate_with_key(cands, key, i + 1);
    }
}

proof fn lemma_checked_candidates_keyed(cands: Seq<CandidateView>, keys: Seq<Seq<char>>)
    ensures
        forall|i: int| 0 <= i < checked_candidates(cands, keys).len() ==> (#[trigger] checked_candidates(cands, keys)[i]).source_key is Some,
    decreases keys.len(),
{
    if keys.len() > 0 {
        lemma_checked_candidates_keyed(cands, keys.drop_last());
        lemma_candidate_with_key(cands, keys.last(), 0);
        let before = checked_candidates(cands, keys.drop_last());
        let after = checked_candidates(cands, keys);
        assert forall|i: int| 0 <= i < after.len() implies (#[trigger] after[i]).source_key is Some by {
            if i < before.len() {
                assert(after[i] == before[i]);
            }
        }
    }
}

proof fn lemma_scored_unpinned(cands: Seq<CandidateView>, query: Seq<char>, n: int)
    requires
        n <= cands.len(),
    ensures
        forall|k: int| 0 <= k < scored_candidates(cands, query, n).len() ==> {
            let idx = (#[trigger] scored_candidates(cands, query, n)[k]).1;
            0 <= idx < n && !cands[idx].pinned
        },
    decreases n,
{
    if n > 0 {
        lemma_scored_unpinned(cands, query, n - 1);
        let before = scored_candidates(cands, query, n - 1);
        let after = scored_candidates(cands, query, n);
        assert forall|k: int| 0 <= k < after.len() implies {
            let idx = (#[trigger] after[k]).1;
            0 <= idx < n && !cands[idx].pinned
        } by {
            if k < before.len() {
                assert(after[k] == before[k]);
            }
        }
    }
}

/// Rows that create a new tab or workspace always come after the existing matches,
/// whatever is typed and checked.
pub proof fn lemma_creation_rows_stay_last(a: AppView)
    ensures
        pinned_last(visible_of(a)),
{
    let cands = candidates_of(a);
    lemma_candidates_shape(a);
    if crate::text::trimmed(a.query).len() != 0 {
        let checked = checked_candidates(cands, a.checked_sources);
        let scored = scored_candidates(cands, a.query, cands.len() as int);
        let order = stable_order(score_keys(scored));
        let ranked = Seq::new(order.len(), |k: int| cands[scored[order[k]].1]);
        let pinned = pinned_candidates(cands);
        let v = visible_of(a);
        assert(v == checked + ranked + pinned);
        lemma_checked_candidates_keyed(cands, a.checked_sources);
        lemma_scored_unpinned(cands, a.query, cands.len() as int);
        crate::sort::lemma_stable_order_is_order(score_keys(scored));
        let pred = |c: CandidateView| c.pinned;
        assert forall|i: int| 0 <= i < checked.len() implies !(#[trigger] checked[i]).pinned by {
            lemma_checked_candidates_in(cands, a.checked_sources, i);
        }
        assert forall|k: int| 0 <= k < ranked.len() implies !(#[trigger] ranked[k]).pinned by {
            assert(0 <= order[k] < scored.len());
            let idx = scored[order[k]].1;
            assert(!cands[idx].pinned);
        }
        assert forall|k: int| 0 <= k < pinned.len() implies (#[trigger] pinned[k]).pinned by {
            cands.lemma_filter_pred(pred, k);
        }
        assert forall|i: int, j: int| 0 <= i < j < v.len() && (#[trigger] v[i]).pinned implies (#[trigger] v[j]).pinned by {
            if i < checked.len() {
                assert(v[i] == checked[i]);
            } else if i < checked.len() + ranked.len() {
                assert(v[i] == ranked[i - checked.len()]);
            } else {
                assert(v[j] == pinned[j - checked.len() - ranked.len()]);
            }
        }
    }
}

proof fn lemma_checked_candidates_in(cands: Seq<CandidateView>, keys: Seq<Seq<char>>, i: int)
    requires
        keyed_rows_unpinned(cands),
        0 <= i < checked_candidates(cands, keys).len(),
    ensures
        !checked_candidates(cands, keys)[i].pinned,
    decreases keys.len(),
{
    let before = checked_candidates(cands, keys.drop_last());
    lemma_candidate_with_key(cands, keys.last(), 0);
    if i < before.len() {
        lemma_checked_candidates_in(cands, keys.drop_last(), i);
        assert(checked_candidates(cands, keys)[i] == before[i]);
    } else {
        let j = candidate_with_key(cands, keys.last(), 0)->0;
        assert(cands[j].source_key is Some);
    }
}

/// With nothing typed, the pane list starts with the pane the picker was opened from, while
/// that pane is listed.
pub proof fn lemma_invoked_pane_listed_first(a: AppView)
    requires
        a.stage is PaneSource,
        crate::text::trimmed(a.query).len() == 0,
        pane_with_id(a.topology.panes, a.invoked_pane_id, 0) is Some,
    ensures
        visible_of(a).len() > 0,
        visible_of(a)[0].choice matches ChoiceView::Pane(p) && p.pane_id == a.invoked_pane_id,
        visible_of(a)[0].row.tone == RowTone::Current,
{
    let panes = a.topology.panes;
    let keys = pane_keys(a, panes);
    let x = pane_with_id(panes, a.invoked_pane_id, 0)->0;
    crate::move_ops::lemma_pane_with_id(panes, a.invoked_pane_id, 0);
    assert(keys[x].rank == 0);
    assert forall|y: int| 0 <= y < keys.len() implies (#[trigger] keys[y]).rank >= 0 by {}
    crate::sort::lemma_rank_zero_first(keys, x);
}

/// With nothing typed, the tab list starts with the tab the picker was opened from, while
/// that tab is listed.
pub proof fn lemma_invoked_tab_listed_first(a: AppView)
    requires
        a.stage is TabSource,
        crate::text::trimmed(a.query).len() == 0,
        tab_with_id(a.topology.tabs, a.invoked_tab_id, 0) is Some,
    ensures
        visible_of(a).len() > 0,
        visible_of(a)[0].choice matches ChoiceView::Tab(t) && t.tab_id == a.invoked_tab_id,
        visible_of(a)[0].row.tone == RowTone::Current,
{
    let tabs = a.topology.tabs;
    let keys = tab_keys(a, tabs);
    let x = tab_with_id(tabs, a.invoked_tab_id, 0)->0;
    crate::move_ops::lemma_tab_with_id(tabs, a.invoked_tab_id, 0);
    assert(keys[x].rank == 0);
    assert forall|y: int| 0 <= y < keys.len() implies (#[trigger] keys[y]).rank >= 0 by {}
    crate::sort::lemma_rank_zero_first(keys, x);
}

/// With nothing typed, the list of workspaces to merge starts with the workspace the picker
/// was opened from, while that workspace is listed.
pub proof fn lemma_invoked_workspace_listed_first(a: AppView)
    requires
        a.stage is WorkspaceSource,
        crate::text::trimmed(a.query).len() == 0,
        workspace_index(a.topology.workspaces, a.invoked_workspace_id, 0) is Some,
    ensures
        visible_of(a).len() > 0,
        visible_of(a)[0].choice matches ChoiceView::WorkspaceSource(w) && w.workspace_id == a.invoked_workspace_id,
        visible_of(a)[0].row.tone == RowTone::Current,
{
    let ws = a.topology.workspaces;
    let keys = workspace_source_keys(a, ws);
    let x = workspace_index(ws, a.invoked_workspace_id, 0)->0;
    crate::labels::lemma_workspace_index(ws, a.invoked_workspace_id, 0);
    assert(keys[x].rank == 0);
    assert forall|y: int| 0 <= y < keys.len() implies (#[trigger] keys[y]).rank >= 0 by {}
    crate::sort::lemma_rank_zero_first(keys, x);
}

/// Whether the candidate at `i` is matched by the query: it neither stays at the bottom nor
/// is checked, and it scores.
pub open spec fn query_matches(cands: Seq<CandidateView>, query: Seq<char>, i: int) -> bool {
    !cands[i].pinned && !cands[i].row.checked && crate::fuzzy::score_spec(query, cands[i].search) is Some
}

proof fn lemma_scored_entries(cands: Seq<CandidateView>, query: Seq<char>, n: int)
    requires
        0 <= n <= cands.len(),
    ensures
        ({
            let sc = scored_candidates(cands, query, n);
            &&& forall|k: int| 0 <= k < sc.len() ==> {
                let e = #[trigger] sc[k];
                &&& 0 <= e.1 < n
                &&& query_matches(cands, query, e.1)
                &&& crate::fuzzy::score_spec(query, cands[e.1].search) == Some(e.0)
            }
            &&& forall|k: int, l: int| 0 <= k < l < sc.len() ==> (#[trigger] sc[k]).1 < (#[trigger] sc[l]).1
            &&& forall|i: int| 0 <= i < n && #[trigger] query_matches(cands, query, i) ==> exists|k: int|
                0 <= k < sc.len() && (#[trigger] sc[k]).1 == i
        }),
    decreases n,
{
    if n > 0 {
        lemma_scored_entries(cands, query, n - 1);
        let before = scored_candidates(cands, query, n - 1);
        let sc = scored_candidates(cands, query, n);
        assert forall|k: int| 0 <= k < sc.len() implies {
            let e = #[trigger] sc[k];
            &&& 0 <= e.1 < n
            &&& query_matches(cands, query, e.1)
            &&& crate::fuzzy::score_spec(query, cands[e.1].search) == Some(e.0)
        } by {
            if k < before.len() {
                assert(sc[k] == before[k]);
            }
        }
        assert forall|k: int, l: int| 0 <= k < l < sc.len() implies (#[trigger] sc[k]).1 < (#[trigger] sc[l]).1 by {
            assert(sc[k] == before[k]);
            if l < before.len() {
                assert(sc[l] == before[l]);
            }
        }
        assert forall|i: int| 0 <= i < n && #[trigger] query_matches(cands, query, i) implies exists|k: int|
            0 <= k < sc.len() && (#[trigger] sc[k]).1 == i by {
            if i < n - 1 {
                let k = choose|k: int| 0 <= k < before.len() && (#[trigger] before[k]).1 == i;
                assert(sc[k] == before[k]);
            } else {
                assert(sc[before.len() as int].1 == i);
            }
        }
    }
}

/// Whether entry `x` of `sc` (score, candidate index) ranks before entry `y`: a higher
/// score, or the same score and an earlier candidate.
pub open spec fn ranks_before(sc: Seq<(i64, int)>, x: int, y: int) -> bool {
    sc[x].0 > sc[y].0 || (sc[x].0 == sc[y].0 && sc[x].1 < sc[y].1)
}

/// What the list shows: with nothing typed, every candidate in order; otherwise the checked
/// sources first, in checking order, then each candidate the query matches exactly once,
/// best score first and equal scores in candidate order, then every row that stays at the
/// bottom (the creation rows), in order.
pub proof fn lemma_visible_order(a: AppView)
    ensures
        crate::text::trimmed(a.query).len() == 0 ==> visible_of(a) == candidates_of(a),
        crate::text::trimmed(a.query).len() != 0 ==> ({
            let c = candidates_of(a);
            let sc = scored_candidates(c, a.query, c.len() as int);
            let o = stable_order(score_keys(sc));
            &&& visible_of(a) == checked_candidates(c, a.checked_sources) + Seq::new(o.len(), |k: int| c[sc[o[k]].1])
                + pinned_candidates(c)
            &&& o.len() == sc.len()
            &&& forall|k: int| 0 <= k < o.len() ==> 0 <= #[trigger] o[k] < sc.len()
            &&& forall|x: int| 0 <= x < sc.len() ==> #[trigger] o.contains(x)
            &&& forall|k: int, l: int| 0 <= k < l < o.len() ==> ranks_before(sc, #[trigger] o[k], #[trigger] o[l])
            &&& forall|k: int| 0 <= k < sc.len() ==> query_matches(c, a.query, (#[trigger] sc[k]).1)
                && crate::fuzzy::score_spec(a.query, c[sc[k].1].search) == Some(sc[k].0)
            &&& forall|i: int| 0 <= i < c.len() && #[trigger] query_matches(c, a.query, i) ==> exists|k: int|
                0 <= k < sc.len() && (#[trigger] sc[k]).1 == i
            &&& forall|k: int| 0 <= k < pinned_candidates(c).len() ==> (#[trigger] pinned_candidates(c)[k]).pinned
        }),
{
    if crate::text::trimmed(a.query).len() != 0 {
        let c = candidates_of(a);
        let sc = scored_candidates(c, a.query, c.len() as int);
        let keys = score_keys(sc);
        let o = stable_order(keys);
        lemma_scored_entries(c, a.query, c.len() as int);
        crate::sort::lemma_stable_order_is_order(keys);
        assert forall|k: int, l: int| 0 <= k < l < o.len() implies ranks_before(sc, #[trigger] o[k], #[trigger] o[l]) by {
            let x = o[k];
            let y = o[l];
            assert(crate::sort::sorts_before(keys, x, y));
            crate::sort::lemma_key_less_order(keys[x], keys[y], keys[y]);
            if keys[x] == keys[y] {
                assert(sc[x].0 == sc[y].0);
                if x < y {
                    assert(sc[x].1 < sc[y].1);
                }
            }
        }
        let pred = |x: CandidateView| x.pinned;
        assert forall|k: int| 0 <= k < pinned_candidates(c).len() implies (#[trigger] pinned_candidates(c)[k]).pinned by {
            c.lemma_filter_pred(pred, k);
        }
    }
}


/// Whether `sources` are the panes `panes`, in order, each expected in its own tab.
pub open spec fn sources_are(sources: Seq<PaneSourceView>, panes: Seq<PaneView>) -> bool {
    sources.len() == panes.len() && forall|i: int|
        0 <= i < panes.len() ==> (#[trigger] sources[i]).pane_id == panes[i].pane_id && sources[i].expected_tab_id
            == panes[i].tab_id
}

/// Whether `ids` are the ids of the tabs `tabs`, in order.
pub open spec fn tab_ids_are(ids: Seq<Seq<char>>, tabs: Seq<TabView>) -> bool {
    ids.len() == tabs.len() && forall|i: int| 0 <= i < tabs.len() ==> #[trigger] ids[i] == tabs[i].tab_id
}

/// Choosing a destination row asks for the move it shows, of the panes or tabs chosen
/// on the screen before, in the order chosen: an existing tab row moves the panes into
/// that tab; a "new tab in W" row into a new tab of W, a "new workspace" row into a new
/// workspace, each named after what was typed (the query without surrounding
/// whitespace, or no name when nothing but whitespace was typed); a workspace row moves
/// the tabs into that workspace, a "new workspace" row into a new one named after what
/// was typed; a workspace row on the merge screen merges the chosen workspace into it.
pub proof fn lemma_destination_rows_ask_for_their_move(a: AppView, direction: SplitDirection)
    requires
        a.selected < visible_of(a).len(),
    ensures
        ({
            let choice = visible_of(a)[a.selected as int].choice;
            let typed = crate::text::trimmed(a.query);
            let name = if typed.len() == 0 { None } else { Some(typed) };
            let outcome = activated(a, direction).1;
            &&& a.stage is PaneDestination && (choice is PaneTab || choice is PaneNewTab || choice is PaneNewWorkspace)
                ==> {
                &&& outcome is MovePane
                &&& sources_are(outcome->MovePane_0.sources, a.stage->PaneDestination_0)
                &&& outcome->MovePane_0.direction == direction
                &&& choice is PaneTab ==> outcome->MovePane_0.destination == PaneDestinationView::ExistingTab {
                    tab_id: choice->PaneTab_0.tab_id,
                }
                &&& choice is PaneNewTab ==> outcome->MovePane_0.destination == PaneDestinationView::NewTab {
                    workspace_id: choice->PaneNewTab_0.workspace_id,
                    label: name,
                }
                &&& choice is PaneNewWorkspace ==> outcome->MovePane_0.destination
                    == PaneDestinationView::NewWorkspace { label: name }
            }
            &&& a.stage is TabDestination && (choice is TabWorkspace || choice is TabNewWorkspace) ==> {
                &&& outcome is MoveTab
                &&& tab_ids_are(outcome->MoveTab_0.tab_ids, a.stage->TabDestination_0)
                &&& choice is TabWorkspace ==> outcome->MoveTab_0.destination == TabDestinationView::Workspace {
                    workspace_id: choice->TabWorkspace_0.workspace_id,
                }
                &&& choice is TabNewWorkspace ==> outcome->MoveTab_0.destination
                    == TabDestinationView::NewWorkspace { label: name }
            }
            &&& a.stage is WorkspaceDestination && choice is WorkspaceDestination ==> outcome
                == OutcomeView::MergeWorkspace(
                MergeView {
                    source_workspace_id: a.stage->WorkspaceDestination_0.workspace_id,
                    destination_workspace_id: choice->WorkspaceDestination_0.workspace_id,
                },
            )
        }),
{
}

} // verus!
