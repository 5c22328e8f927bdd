use vstd::prelude::*;

use crate::app::{
    MovePaneRequest, MovePaneView, MoveTabRequest, MoveTabView, PaneDestination, PaneDestinationView, PaneSource,
    PaneSourceView, TabDestination, TabDestinationView,
};
use crate::herdr::{
    CallView, Failure, HerdrCall, HerdrReply, MovedPane, MovedView, PaneInfo, PaneView, ReplyView, TabInfo,
    TabView, Topology, TopologyView, WorkspaceInfo, WorkspaceView,
};
use crate::layout::{all_rects, anchor_of, leaf_ids, tree_at, LayoutError, LayoutNode, LayoutSnapshot, SplitDirection};
use crate::text::{concat, decimal, decimal_text, trimmed};

verus! {

/// What a finished move reports.
#[derive(Debug, PartialEq, Eq)]
pub struct MoveSummary {
    pub message: String,
    pub moved_panes: usize,
    pub moved_tabs: usize,
    pub destination_workspace_id: String,
    pub destination_tab_id: String,
}

pub ghost struct SummaryView {
    pub message: Seq<char>,
    pub moved_panes: usize,
    pub moved_tabs: usize,
    pub destination_workspace_id: Seq<char>,
    pub destination_tab_id: Seq<char>,
}

impl View for MoveSummary {
    type V = SummaryView;

    open spec fn view(&self) -> SummaryView {
        SummaryView {
            message: self.message@,
            moved_panes: self.moved_panes,
            moved_tabs: self.moved_tabs,
            destination_workspace_id: self.destination_workspace_id@,
            destination_tab_id: self.destination_tab_id@,
        }
    }
}

/// What a move asks next: a call to Herdr, or its end.
pub enum Step {
    Call(HerdrCall),
    Finish(Result<MoveSummary, Failure>),
}

pub ghost enum StepView {
    Call(CallView),
    Finish(Result<SummaryView, Seq<char>>),
}

impl View for Step {
    type V = StepView;

    open spec fn view(&self) -> StepView {
        match self {
            Step::Call(c) => StepView::Call(c@),
            Step::Finish(Ok(s)) => StepView::Finish(Ok(s@)),
            Step::Finish(Err(e)) => StepView::Finish(Err(e.message@)),
        }
    }
}

pub open spec fn fail(message: Seq<char>) -> StepView {
    StepView::Finish(Err(message))
}

// ---------------------------------------------------------------------------
// Lookups in a topology.

/// First pane at or after `i` with id `id`.
pub open spec fn pane_with_id(panes: Seq<PaneView>, id: Seq<char>, i: int) -> Option<int>
    decreases panes.len() - i,
{
    if i < 0 || i >= panes.len() {
        None
    } else if panes[i].pane_id == id {
        Some(i)
    } else {
        pane_with_id(panes, id, i + 1)
    }
}

/// First pane at or after `i` in tab `tab`.
pub open spec fn pane_in_tab(panes: Seq<PaneView>, tab: Seq<char>, i: int) -> Option<int>
    decreases panes.len() - i,
{
    if i < 0 || i >= panes.len() {
        None
    } else if panes[i].tab_id == tab {
        Some(i)
    } else {
        pane_in_tab(panes, tab, i + 1)
    }
}

/// First focused pane at or after `i` in tab `tab`.
pub open spec fn focused_pane_in_tab(panes: Seq<PaneView>, tab: Seq<char>, i: int) -> Option<int>
    decreases panes.len() - i,
{
    if i < 0 || i >= panes.len() {
        None
    } else if panes[i].tab_id == tab && panes[i].focused {
        Some(i)
    } else {
        focused_pane_in_tab(panes, tab, i + 1)
    }
}

/// First tab at or after `i` with id `id`.
pub open spec fn tab_with_id(tabs: Seq<TabView>, id: Seq<char>, i: int) -> Option<int>
    decreases tabs.len() - i,
{
    if i < 0 || i >= tabs.len() {
        None
    } else if tabs[i].tab_id == id {
        Some(i)
    } else {
        tab_with_id(tabs, id, i + 1)
    }
}

pub proof fn lemma_pane_with_id(panes: Seq<PaneView>, id: Seq<char>, i: int)
    requires
        0 <= i,
    ensures
        pane_with_id(panes, id, i) matches Some(j) ==> i <= j < panes.len() && panes[j].pane_id == id,
    decreases panes.len() - i,
{
    if i < panes.len() && panes[i].pane_id != id {
        lemma_pane_with_id(panes, id, i + 1);
    }
}

pub proof fn lemma_tab_with_id(tabs: Seq<TabView>, id: Seq<char>, i: int)
    requires
        0 <= i,
    ensures
        tab_with_id(tabs, id, i) matches Some(j) ==> i <= j < tabs.len() && tabs[j].tab_id == id,
    decreases tabs.len() - i,
{
    if i < tabs.len() && tabs[i].tab_id != id {
        lemma_tab_with_id(tabs, id, i + 1);
    }
}

pub open spec fn has_workspace(workspaces: Seq<WorkspaceView>, id: Seq<char>) -> bool {
    exists|i: int| 0 <= i < workspaces.len() && (#[trigger] workspaces[i]).workspace_id == id
}

pub open spec fn has_tab(tabs: Seq<TabView>, id: Seq<char>) -> bool {
    exists|i: int| 0 <= i < tabs.len() && (#[trigger] tabs[i]).tab_id == id
}

pub fn find_pane_with_id(panes: &Vec<PaneInfo>, id: &String) -> (r: Option<usize>)
    ensures
        r is None ==> pane_with_id(panes@.map_values(|p: PaneInfo| p@), id@, 0) is None,
        r matches Some(i) ==> i < panes@.len() && pane_with_id(panes@.map_values(|p: PaneInfo| p@), id@, 0)
            == Some(i as int),
{
    let ghost v = panes@.map_values(|p: PaneInfo| p@);
    let mut i: usize = 0;
    while i < panes.len()
        invariant
            i <= panes@.len(),
            v == panes@.map_values(|p: PaneInfo| p@),
            pane_with_id(v, id@, 0) == pane_with_id(v, id@, i as int),
        decreases panes.len() - i,
    {
        if panes[i].pane_id == *id {
            return Some(i);
        }
        i += 1;
    }
    None
}

pub fn find_pane_in_tab(panes: &Vec<PaneInfo>, tab: &String) -> (r: Option<usize>)
    ensures
        r is None ==> pane_in_tab(panes@.map_values(|p: PaneInfo| p@), tab@, 0) is None,
        r matches Some(i) ==> i < panes@.len() && pane_in_tab(panes@.map_values(|p: PaneInfo| p@), tab@, 0)
            == Some(i as int),
{
    let ghost v = panes@.map_values(|p: PaneInfo| p@);
    let mut i: usize = 0;
    while i < panes.len()
        invariant
            i <= panes@.len(),
            v == panes@.map_values(|p: PaneInfo| p@),
            pane_in_tab(v, tab@, 0) == pane_in_tab(v, tab@, i as int),
        decreases panes.len() - i,
    {
        if panes[i].tab_id == *tab {
            return Some(i);
        }
        i += 1;
    }
    None
}

fn find_focused_pane_in_tab(panes: &Vec<PaneInfo>, tab: &String) -> (r: Option<usize>)
    ensures
        r is None ==> focused_pane_in_tab(panes@.map_values(|p: PaneInfo| p@), tab@, 0) is None,
        r matches Some(i) ==> i < panes@.len() && focused_pane_in_tab(panes@.map_values(|p: PaneInfo| p@), tab@, 0)
            == Some(i as int),
{
    let ghost v = panes@.map_values(|p: PaneInfo| p@);
    let mut i: usize = 0;
    while i < panes.len()
        invariant
            i <= panes@.len(),
            v == panes@.map_values(|p: PaneInfo| p@),
            focused_pane_in_tab(v, tab@, 0) == focused_pane_in_tab(v, tab@, i as int),
        decreases panes.len() - i,
    {
        if panes[i].tab_id == *tab && panes[i].focused {
            return Some(i);
        }
        i += 1;
    }
    None
}

pub fn find_tab_with_id(tabs: &Vec<TabInfo>, id: &String) -> (r: Option<usize>)
    ensures
        r is None ==> tab_with_id(tabs@.map_values(|t: TabInfo| t@), id@, 0) is None,
        r matches Some(i) ==> i < tabs@.len() && tab_with_id(tabs@.map_values(|t: TabInfo| t@), id@, 0)
            == Some(i as int),
{
    let ghost v = tabs@.map_values(|t: TabInfo| t@);
    let mut i: usize = 0;
    while i < tabs.len()
        invariant
            i <= tabs@.len(),
            v == tabs@.map_values(|t: TabInfo| t@),
            tab_with_id(v, id@, 0) == tab_with_id(v, id@, i as int),
        decreases tabs.len() - i,
    {
        if tabs[i].tab_id == *id {
            return Some(i);
        }
        i += 1;
    }
    None
}

fn workspace_exists(workspaces: &Vec<WorkspaceInfo>, id: &String) -> (r: bool)
    ensures
        r == has_workspace(workspaces@.map_values(|w: WorkspaceInfo| w@), id@),
{
    let ghost v = workspaces@.map_values(|w: WorkspaceInfo| w@);
    let mut i: usize = 0;
    while i < workspaces.len()
        invariant
            i <= workspaces@.len(),
            v == workspaces@.map_values(|w: WorkspaceInfo| w@),
            forall|k: int| 0 <= k < i ==> (#[trigger] v[k]).workspace_id != id@,
        decreases workspaces.len() - i,
    {
        if workspaces[i].workspace_id == *id {
            assert(v[i as int].workspace_id == id@);
            return true;
        }
        i += 1;
    }
    false
}

fn tab_exists(tabs: &Vec<TabInfo>, id: &String) -> (r: bool)
    ensures
        r == has_tab(tabs@.map_values(|t: TabInfo| t@), id@),
{
    let ghost v = tabs@.map_values(|t: TabInfo| t@);
    let mut i: usize = 0;
    while i < tabs.len()
        invariant
            i <= tabs@.len(),
            v == tabs@.map_values(|t: TabInfo| t@),
            forall|k: int| 0 <= k < i ==> (#[trigger] v[k]).tab_id != id@,
        decreases tabs.len() - i,
    {
        if tabs[i].tab_id == *id {
            assert(v[i as int].tab_id == id@);
            return true;
        }
        i += 1;
    }
    false
}

/// Concatenation of three strings.
fn concat3(a: &str, b: &str, c: &str) -> (r: String)
    ensures
        r@ == a@ + b@ + c@,
{
    let mut r = a.to_owned();
    r.append(b);
    r.append(c);
    r
}

/// The characters of each string.
pub open spec fn views(v: Seq<String>) -> Seq<Seq<char>> {
    v.map_values(|a: String| a@)
}

/// Whether `v` holds a string with the characters of `x`.
pub fn contains_string(v: &Vec<String>, x: &String) -> (r: bool)
    ensures
        r == views(v@).contains(x@),
{
    let mut i: usize = 0;
    while i < v.len()
        invariant
            i <= v@.len(),
            forall|k: int| 0 <= k < i ==> (#[trigger] views(v@)[k]) != x@,
        decreases v.len() - i,
    {
        if v[i] == *x {
            assert(views(v@)[i as int] == x@);
            return true;
        }
        i += 1;
    }
    false
}

// ---------------------------------------------------------------------------
// Moving panes.

/// Whether one of the first `n` selected panes has id `id`.
pub open spec fn selected_before(srcs: Seq<PaneSourceView>, id: Seq<char>, n: int) -> bool
    decreases n,
{
    n > 0 && (srcs[n - 1].pane_id == id || selected_before(srcs, id, n - 1))
}

/// Checks the first `k` selected panes against the topology, in selection order: each
/// pane is selected once, still exists, and is still in the tab it was selected in. On
/// success, the tabs that hold them, in first-seen order.
pub open spec fn check_sources(t: TopologyView, srcs: Seq<PaneSourceView>, k: int) -> Result<Seq<Seq<char>>, Seq<char>>
    decreases k,
{
    if k <= 0 {
        Ok(Seq::empty())
    } else {
        match check_sources(t, srcs, k - 1) {
            Err(m) => Err(m),
            Ok(tabs) => {
                let s = srcs[k - 1];
                if selected_before(srcs, s.pane_id, k - 1) {
                    Err("pane "@ + s.pane_id + " was selected more than once"@)
                } else {
                    match pane_with_id(t.panes, s.pane_id, 0) {
                        None => Err("selected pane no longer exists: "@ + s.pane_id),
                        Some(i) => if t.panes[i].tab_id != s.expected_tab_id {
                            Err("pane "@ + s.pane_id + " changed tabs while Ferry was open"@)
                        } else if tabs.contains(t.panes[i].tab_id) {
                            Ok(tabs)
                        } else {
                            Ok(tabs.push(t.panes[i].tab_id))
                        },
                    }
                }
            },
        }
    }
}

/// Why the destination cannot take panes from the tabs `source_tabs`, if it cannot.
pub open spec fn destination_problem(t: TopologyView, source_tabs: Seq<Seq<char>>, dest: PaneDestinationView) -> Option<Seq<char>> {
    match dest {
        PaneDestinationView::ExistingTab { tab_id } => if source_tabs.contains(tab_id) {
            Some("a pane cannot move into one of its source tabs"@)
        } else if !has_tab(t.tabs, tab_id) {
            Some("the destination tab no longer exists"@)
        } else {
            None
        },
        PaneDestinationView::NewTab { workspace_id, .. } => if !has_workspace(t.workspaces, workspace_id) {
            Some("the destination workspace no longer exists"@)
        } else {
            None
        },
        PaneDestinationView::NewWorkspace { .. } => None,
    }
}

/// The tabs that must not be zoomed: every source tab, then an existing destination tab
/// (`true` marks a source).
pub open spec fn zoom_checks(source_tabs: Seq<Seq<char>>, dest: PaneDestinationView) -> Seq<(Seq<char>, bool)> {
    source_tabs.map_values(|t: Seq<char>| (t, true)) + match dest {
        PaneDestinationView::ExistingTab { tab_id } => seq![(tab_id, false)],
        _ => Seq::empty(),
    }
}

pub open spec fn role(source: bool) -> Seq<char> {
    if source { "source"@ } else { "destination"@ }
}

pub ghost enum PanePhaseView {
    Topology,
    Zoom { topology: TopologyView, checks: Seq<(Seq<char>, bool)>, index: int },
    Moving { index: int, first: Option<MovedView>, previous: Option<Seq<char>> },
    FocusWorkspace { destination: MovedView },
    FocusTab { destination: MovedView },
    Done,
}

pub ghost struct PaneMoveView {
    pub request: MovePaneView,
    pub phase: PanePhaseView,
}

pub open spec fn pane_state(request: MovePaneView, phase: PanePhaseView) -> PaneMoveView {
    PaneMoveView { request, phase }
}

/// The call that moves the `i`-th selected pane: the first one goes to the chosen
/// destination; each later one joins the first one's tab, next to the pane moved before it.
pub open spec fn pane_move_call(req: MovePaneView, i: int, first: Option<MovedView>, previous: Option<Seq<char>>) -> CallView {
    let src = req.sources[i].pane_id;
    match first {
        Some(d) => CallView::MoveToTab {
            pane_id: src,
            tab_id: d.tab_id,
            direction: req.direction,
            target_pane_id: previous,
            ratio_bits: None,
            focus: false,
        },
        None => match req.destination {
            PaneDestinationView::ExistingTab { tab_id } => CallView::MoveToTab {
                pane_id: src,
                tab_id,
                direction: req.direction,
                target_pane_id: None,
                ratio_bits: None,
                focus: false,
            },
            PaneDestinationView::NewTab { workspace_id, label } => CallView::MoveToNewTab {
                pane_id: src,
                workspace_id,
                label,
                focus: false,
            },
            PaneDestinationView::NewWorkspace { label } => CallView::MoveToNewWorkspace {
                pane_id: src,
                label,
                tab_label: None,
                focus: false,
            },
        },
    }
}

/// Moves the `i`-th pane, or, when all are moved, focuses the destination workspace.
pub open spec fn pane_move_from(req: MovePaneView, i: int, first: Option<MovedView>, previous: Option<Seq<char>>) -> (PaneMoveView, StepView) {
    if i < req.sources.len() {
        (
            pane_state(req, PanePhaseView::Moving { index: i, first, previous }),
            StepView::Call(pane_move_call(req, i, first, previous)),
        )
    } else {
        match first {
            None => (pane_state(req, PanePhaseView::Done), fail("pane selection was empty"@)),
            Some(d) => (
                pane_state(req, PanePhaseView::FocusWorkspace { destination: d }),
                StepView::Call(CallView::FocusWorkspace { workspace_id: d.workspace_id }),
            ),
        }
    }
}

/// Checks the `i`-th tab that must not be zoomed by asking for its layout through its
/// first pane; when all are checked, starts moving.
pub open spec fn pane_zoom_from(req: MovePaneView, t: TopologyView, checks: Seq<(Seq<char>, bool)>, i: int) -> (PaneMoveView, StepView) {
    if i >= checks.len() {
        pane_move_from(req, 0, None, None)
    } else {
        match pane_in_tab(t.panes, checks[i].0, 0) {
            None => (
                pane_state(req, PanePhaseView::Done),
                fail("the "@ + role(checks[i].1) + " tab no longer has a pane"@),
            ),
            Some(p) => (
                pane_state(req, PanePhaseView::Zoom { topology: t, checks, index: i }),
                StepView::Call(CallView::Layout { pane_id: t.panes[p].pane_id }),
            ),
        }
    }
}

pub open spec fn pane_batch_message(moved: int, total: int, pane_id: Seq<char>, cause: Seq<char>) -> Seq<char> {
    "pane batch stopped after "@ + decimal(moved as nat) + "/"@ + decimal(total as nat) + " panes while moving "@
        + pane_id + "; all moved panes are still live: "@ + cause
}

pub open spec fn pane_summary(total: int, d: MovedView) -> SummaryView {
    SummaryView {
        message: if total == 1 {
            "Pane moved to "@ + d.tab_id
        } else {
            decimal(total as nat) + " panes moved to "@ + d.tab_id
        },
        moved_panes: total as usize,
        moved_tabs: 0,
        destination_workspace_id: d.workspace_id,
        destination_tab_id: d.tab_id,
    }
}

/// The indices that a pane move in state `s` holds are in range.
pub open spec fn pane_move_wf(s: PaneMoveView) -> bool {
    match s.phase {
        PanePhaseView::Zoom { checks, index, .. } => 0 <= index < checks.len(),
        PanePhaseView::Moving { index, .. } => 0 <= index < s.request.sources.len(),
        _ => true,
    }
}

/// Whether `reply` answers the call that a pane move in state `s` is waiting for.
pub open spec fn pane_move_awaits(s: PaneMoveView, reply: ReplyView) -> bool {
    pane_move_wf(s) && match s.phase {
        PanePhaseView::Topology => reply is Topology,
        PanePhaseView::Zoom { .. } => reply is Layout,
        PanePhaseView::Moving { .. } => reply is Moved,
        PanePhaseView::FocusWorkspace { .. } => reply is Focused,
        PanePhaseView::FocusTab { .. } => reply is Focused,
        PanePhaseView::Done => false,
    }
}

/// How a pane move goes on from state `s` once Herdr answered `reply`.
pub open spec fn pane_move_next(s: PaneMoveView, reply: ReplyView) -> (PaneMoveView, StepView) {
    let req = s.request;
    let total = req.sources.len() as int;
    let done = pane_state(req, PanePhaseView::Done);
    match (s.phase, reply) {
        (PanePhaseView::Topology, ReplyView::Topology(Err(e))) => (done, fail(e)),
        (PanePhaseView::Topology, ReplyView::Topology(Ok(t))) => match check_sources(t, req.sources, total) {
            Err(m) => (done, fail(m)),
            Ok(tabs) => match destination_problem(t, tabs, req.destination) {
                Some(m) => (done, fail(m)),
                None => pane_zoom_from(req, t, zoom_checks(tabs, req.destination), 0),
            },
        },
        (PanePhaseView::Zoom { topology, checks, index }, ReplyView::Layout(Err(e))) => (done, fail(e)),
        (PanePhaseView::Zoom { topology, checks, index }, ReplyView::Layout(Ok(snapshot))) => {
            let check = checks[index];
            if snapshot.tab_id@ != check.0 {
                (done, fail("the "@ + role(check.1) + " tab changed while Ferry was open"@))
            } else if snapshot.zoomed {
                (done, fail("unzoom the "@ + role(check.1) + " tab before moving panes"@))
            } else {
                pane_zoom_from(req, topology, checks, index + 1)
            }
        },
        (PanePhaseView::Moving { index, first, previous }, ReplyView::Moved(Err(e))) => {
            let src = req.sources[index].pane_id;
            if index == 0 {
                (done, fail("could not move pane 1/"@ + decimal(total as nat) + " ("@ + src + "): "@ + e))
            } else {
                (done, fail(pane_batch_message(index, total, src, e)))
            }
        },
        (PanePhaseView::Moving { index, first, previous }, ReplyView::Moved(Ok(m))) => match first {
            Some(d) => if m.tab_id != d.tab_id || m.workspace_id != d.workspace_id {
                (
                    done,
                    fail(pane_batch_message(
                        index + 1,
                        total,
                        req.sources[index].pane_id,
                        "Herdr returned an unexpected destination"@,
                    )),
                )
            } else {
                pane_move_from(req, index + 1, first, Some(m.pane_id))
            },
            None => pane_move_from(req, index + 1, Some(m), Some(m.pane_id)),
        },
        (PanePhaseView::FocusWorkspace { destination }, ReplyView::Focused(Err(e))) => (
            done,
            fail(decimal(total as nat) + " panes moved, but the destination workspace could not be focused: "@ + e),
        ),
        (PanePhaseView::FocusWorkspace { destination }, ReplyView::Focused(Ok(()))) => (
            pane_state(req, PanePhaseView::FocusTab { destination }),
            StepView::Call(CallView::FocusTab { tab_id: destination.tab_id }),
        ),
        (PanePhaseView::FocusTab { destination }, ReplyView::Focused(Err(e))) => (
            done,
            fail(decimal(total as nat) + " panes moved, but the destination tab could not be focused: "@ + e),
        ),
        (PanePhaseView::FocusTab { destination }, ReplyView::Focused(Ok(()))) => (
            done,
            StepView::Finish(Ok(pane_summary(total, destination))),
        ),
        _ => (s, fail(Seq::empty())),
    }
}

/// How a pane move starts: refused when nothing is selected, else by listing the topology.
pub open spec fn pane_move_start(req: MovePaneView) -> (PaneMoveView, StepView) {
    if req.sources.len() == 0 {
        (pane_state(req, PanePhaseView::Done), fail("select at least one pane"@))
    } else {
        (pane_state(req, PanePhaseView::Topology), StepView::Call(CallView::Topology))
    }
}

struct ZoomCheck {
    tab_id: String,
    source: bool,
}

enum PanePhase {
    Topology,
    Zoom { topology: Topology, checks: Vec<ZoomCheck>, index: usize },
    Moving { index: usize, first: Option<MovedPane>, previous: Option<String> },
    FocusWorkspace { destination: MovedPane },
    FocusTab { destination: MovedPane },
    Done,
}

/// A pane move in progress: the request, and how far it has come.
pub struct PaneMove {
    request: MovePaneRequest,
    phase: PanePhase,
}

pub open spec fn moved_opt_view(o: Option<MovedPane>) -> Option<MovedView> {
    match o {
        Some(m) => Some(m@),
        None => None,
    }
}

impl View for PaneMove {
    type V = PaneMoveView;

    closed spec fn view(&self) -> PaneMoveView {
        PaneMoveView {
            request: self.request@,
            phase: match self.phase {
                PanePhase::Topology => PanePhaseView::Topology,
                PanePhase::Zoom { topology, checks, index } => PanePhaseView::Zoom {
                    topology: topology@,
                    checks: checks@.map_values(|c: ZoomCheck| (c.tab_id@, c.source)),
                    index: index as int,
                },
                PanePhase::Moving { index, first, previous } => PanePhaseView::Moving {
                    index: index as int,
                    first: moved_opt_view(first),
                    previous: crate::herdr::opt_view(previous),
                },
                PanePhase::FocusWorkspace { destination } => PanePhaseView::FocusWorkspace { destination: destination@ },
                PanePhase::FocusTab { destination } => PanePhaseView::FocusTab { destination: destination@ },
                PanePhase::Done => PanePhaseView::Done,
            },
        }
    }
}

fn message2(a: &str, b: &str) -> (r: Failure)
    ensures
        r.message@ == a@ + b@,
{
    Failure::new(concat(a, b))
}

fn message3(a: &str, b: &str, c: &str) -> (r: Failure)
    ensures
        r.message@ == a@ + b@ + c@,
{
    Failure::new(concat3(a, b, c))
}

proof fn lemma_selected_before_grows(srcs: Seq<PaneSourceView>, id: Seq<char>, m: int, n: int)
    requires
        0 <= m <= n,
        selected_before(srcs, id, m),
    ensures
        selected_before(srcs, id, n),
    decreases n - m,
{
    if m < n {
        lemma_selected_before_grows(srcs, id, m + 1, n);
    }
}

proof fn lemma_check_sources_err_stays(t: TopologyView, srcs: Seq<PaneSourceView>, k: int, n: int)
    requires
        0 <= k <= n,
        check_sources(t, srcs, k) is Err,
    ensures
        check_sources(t, srcs, n) == check_sources(t, srcs, k),
    decreases n - k,
{
    if k < n {
        lemma_check_sources_err_stays(t, srcs, k + 1, n);
    }
}

fn check_sources_exec(t: &Topology, req: &MovePaneRequest) -> (r: Result<Vec<String>, Failure>)
    ensures
        match check_sources(t@, req@.sources, req@.sources.len() as int) {
            Ok(tabs) => r matches Ok(v) && views(v@) == tabs,
            Err(m) => r matches Err(e) && e.message@ == m,
        },
{
    let ghost srcs = req@.sources;
    let mut tabs: Vec<String> = Vec::new();
    assert(views(tabs@) =~= Seq::<Seq<char>>::empty());
    let mut k: usize = 0;
    while k < req.sources.len()
        invariant
            k <= req.sources@.len(),
            srcs == req@.sources,
            srcs.len() == req.sources@.len(),
            check_sources(t@, srcs, k as int) == Ok::<Seq<Seq<char>>, Seq<char>>(views(tabs@)),
        decreases req.sources.len() - k,
    {
        let source = &req.sources[k];
        assert(srcs[k as int] == source@);
        let mut j: usize = 0;
        while j < k
            invariant
                j <= k < req.sources@.len(),
                srcs == req@.sources,
                source@ == srcs[k as int],
                !selected_before(srcs, source@.pane_id, j as int),
                srcs.len() == req.sources@.len(),
                check_sources(t@, srcs, k as int) == Ok::<Seq<Seq<char>>, Seq<char>>(views(tabs@)),
            decreases k - j,
        {
            if req.sources[j].pane_id == source.pane_id {
                assert(srcs[j as int].pane_id == source@.pane_id);
                let e = message3("pane ", source.pane_id.as_str(), " was selected more than once");
                proof {
                    lemma_selected_before_grows(srcs, source@.pane_id, j + 1, k as int);
                    assert(check_sources(t@, srcs, k + 1) == Err::<Seq<Seq<char>>, Seq<char>>(e.message@));
                    lemma_check_sources_err_stays(t@, srcs, k + 1, srcs.len() as int);
                }
                return Err(e);
            }
            j += 1;
        }
        let found = find_pane_with_id(&t.panes, &source.pane_id);
        let i = match found {
            None => {
                proof {
                    lemma_check_sources_err_stays(t@, srcs, k + 1, srcs.len() as int);
                }
                return Err(message2("selected pane no longer exists: ", source.pane_id.as_str()));
            },
            Some(i) => i,
        };
        let pane = &t.panes[i];
        assert(t@.panes[i as int] == pane@);
        if pane.tab_id != source.expected_tab_id {
            proof {
                lemma_check_sources_err_stays(t@, srcs, k + 1, srcs.len() as int);
            }
            return Err(message3("pane ", source.pane_id.as_str(), " changed tabs while Ferry was open"));
        }
        if !contains_string(&tabs, &pane.tab_id) {
            let ghost before = tabs@;
            tabs.push(pane.tab_id.clone());
            assert(views(tabs@) =~= views(before).push(pane.tab_id@));
        }
        k += 1;
    }
    Ok(tabs)
}

fn destination_problem_exec(t: &Topology, source_tabs: &Vec<String>, dest: &PaneDestination) -> (r: Option<Failure>)
    ensures
        match destination_problem(t@, views(source_tabs@), dest@) {
            None => r is None,
            Some(m) => r matches Some(e) && e.message@ == m,
        },
{
    match dest {
        PaneDestination::ExistingTab { tab_id } => {
            if contains_string(source_tabs, tab_id) {
                Some(Failure::new("a pane cannot move into one of its source tabs".to_owned()))
            } else if !tab_exists(&t.tabs, tab_id) {
                Some(Failure::new("the destination tab no longer exists".to_owned()))
            } else {
                None
            }
        },
        PaneDestination::NewTab { workspace_id, .. } => {
            if !workspace_exists(&t.workspaces, workspace_id) {
                Some(Failure::new("the destination workspace no longer exists".to_owned()))
            } else {
                None
            }
        },
        PaneDestination::NewWorkspace { .. } => None,
    }
}

fn zoom_checks_exec(source_tabs: Vec<String>, dest: &PaneDestination) -> (r: Vec<ZoomCheck>)
    ensures
        r@.map_values(|c: ZoomCheck| (c.tab_id@, c.source)) == zoom_checks(views(source_tabs@), dest@),
{
    let mut r: Vec<ZoomCheck> = Vec::new();
    let mut i: usize = 0;
    while i < source_tabs.len()
        invariant
            i <= source_tabs@.len(),
            r@.map_values(|c: ZoomCheck| (c.tab_id@, c.source))
                == views(source_tabs@).take(i as int).map_values(|t: Seq<char>| (t, true)),
        decreases source_tabs.len() - i,
    {
        let ghost before = r@;
        r.push(ZoomCheck { tab_id: source_tabs[i].clone(), source: true });
        assert(views(source_tabs@)[i as int] == source_tabs@[i as int]@);
        assert(views(source_tabs@).take(i + 1) =~= views(source_tabs@).take(i as int).push(source_tabs@[i as int]@));
        assert(r@.map_values(|c: ZoomCheck| (c.tab_id@, c.source)) =~= before.map_values(
            |c: ZoomCheck| (c.tab_id@, c.source),
        ).push((source_tabs@[i as int]@, true)));
        assert(views(source_tabs@).take(i + 1).map_values(|t: Seq<char>| (t, true)) =~= views(source_tabs@).take(
            i as int,
        ).map_values(|t: Seq<char>| (t, true)).push((source_tabs@[i as int]@, true)));
        assert(r@.map_values(|c: ZoomCheck| (c.tab_id@, c.source)) =~= views(source_tabs@).take(i + 1).map_values(
            |t: Seq<char>| (t, true),
        ));
        i += 1;
    }
    assert(views(source_tabs@).take(i as int) =~= views(source_tabs@));
    let ghost before = r@;
    match dest {
        PaneDestination::ExistingTab { tab_id } => {
            r.push(ZoomCheck { tab_id: tab_id.clone(), source: false });
        },
        _ => {},
    }
    assert(r@.map_values(|c: ZoomCheck| (c.tab_id@, c.source)) =~= zoom_checks(views(source_tabs@), dest@));
    r
}

fn role_text(source: bool) -> (r: &'static str)
    ensures
        r@ == role(source),
{
    if source { "source" } else { "destination" }
}

fn pane_move_call_exec(req: &MovePaneRequest, i: usize, first: &Option<MovedPane>, previous: &Option<String>) -> (r: HerdrCall)
    requires
        i < req.sources@.len(),
    ensures
        r@ == pane_move_call(req@, i as int, moved_opt_view(*first), crate::herdr::opt_view(*previous)),
{
    let src = req.sources[i].pane_id.clone();
    match first {
        Some(d) => HerdrCall::MoveToTab {
            pane_id: src,
            tab_id: d.tab_id.clone(),
            direction: req.direction,
            target_pane_id: crate::herdr::clone_opt(previous),
            ratio_bits: None,
            focus: false,
        },
        None => match &req.destination {
            PaneDestination::ExistingTab { tab_id } => HerdrCall::MoveToTab {
                pane_id: src,
                tab_id: tab_id.clone(),
                direction: req.direction,
                target_pane_id: None,
                ratio_bits: None,
                focus: false,
            },
            PaneDestination::NewTab { workspace_id, label } => HerdrCall::MoveToNewTab {
                pane_id: src,
                workspace_id: workspace_id.clone(),
                label: crate::herdr::clone_opt(label),
                focus: false,
            },
            PaneDestination::NewWorkspace { label } => HerdrCall::MoveToNewWorkspace {
                pane_id: src,
                label: crate::herdr::clone_opt(label),
                tab_label: None,
                focus: false,
            },
        },
    }
}

fn clone_moved_opt(o: &Option<MovedPane>) -> (r: Option<MovedPane>)
    ensures
        r == *o,
{
    match o {
        Some(m) => Some(m.clone()),
        None => None,
    }
}

impl PaneMove {
    fn finish(request: MovePaneRequest, result: Result<MoveSummary, Failure>) -> (r: (PaneMove, Step))
        ensures
            r.0@ == pane_state(request@, PanePhaseView::Done),
            r.1 == Step::Finish(result),
    {
        (PaneMove { request, phase: PanePhase::Done }, Step::Finish(result))
    }

    fn move_from(request: MovePaneRequest, i: usize, first: Option<MovedPane>, previous: Option<String>) -> (r: (PaneMove, Step))
        requires
            i <= request.sources@.len(),
        ensures
            (r.0@, r.1@) == pane_move_from(request@, i as int, moved_opt_view(first), crate::herdr::opt_view(previous)),
    {
        if i < request.sources.len() {
            let call = pane_move_call_exec(&request, i, &first, &previous);
            (PaneMove { request, phase: PanePhase::Moving { index: i, first, previous } }, Step::Call(call))
        } else {
            match first {
                None => PaneMove::finish(request, Err(Failure::new("pane selection was empty".to_owned()))),
                Some(d) => {
                    let call = HerdrCall::FocusWorkspace { workspace_id: d.workspace_id.clone() };
                    (PaneMove { request, phase: PanePhase::FocusWorkspace { destination: d } }, Step::Call(call))
                },
            }
        }
    }

    fn zoom_from(request: MovePaneRequest, topology: Topology, checks: Vec<ZoomCheck>, i: usize) -> (r: (PaneMove, Step))
        requires
            i <= checks@.len(),
        ensures
            (r.0@, r.1@) == pane_zoom_from(
                request@,
                topology@,
                checks@.map_values(|c: ZoomCheck| (c.tab_id@, c.source)),
                i as int,
            ),
    {
        if i >= checks.len() {
            return PaneMove::move_from(request, 0, None, None);
        }
        let ghost cv = checks@.map_values(|c: ZoomCheck| (c.tab_id@, c.source));
        assert(cv[i as int] == (checks@[i as int].tab_id@, checks@[i as int].source));
        match find_pane_in_tab(&topology.panes, &checks[i].tab_id) {
            None => {
                let mut m = "the ".to_owned();
                m.append(role_text(checks[i].source));
                m.append(" tab no longer has a pane");
                PaneMove::finish(request, Err(Failure::new(m)))
            },
            Some(p) => {
                let call = HerdrCall::Layout { pane_id: topology.panes[p].pane_id.clone() };
                assert(topology@.panes[p as int] == topology.panes@[p as int]@);
                (PaneMove { request, phase: PanePhase::Zoom { topology, checks, index: i } }, Step::Call(call))
            },
        }
    }

    /// Starts moving the panes of `request`: fails at once when none is selected, else
    /// asks for the topology.
    pub fn begin(request: MovePaneRequest) -> (r: (PaneMove, Step))
        ensures
            (r.0@, r.1@) == pane_move_start(request@),
            pane_move_wf(r.0@),
    {
        if request.sources.len() == 0 {
            PaneMove::finish(request, Err(Failure::new("select at least one pane".to_owned())))
        } else {
            (PaneMove { request, phase: PanePhase::Topology }, Step::Call(HerdrCall::Topology))
        }
    }

    /// Whether `reply` is what this move waits for.
    pub open spec fn awaits(&self, reply: ReplyView) -> bool {
        pane_move_awaits(self@, reply)
    }

    /// Whether `reply` answers the call this move waits for, so that `advance` may take it.
    pub fn answers(&self, reply: &HerdrReply) -> (b: bool)
        ensures
            b == self.awaits(reply@),
    {
        match (&self.phase, reply) {
            (PanePhase::Topology, HerdrReply::Topology(_)) => true,
            (PanePhase::Zoom { checks, index, .. }, HerdrReply::Layout(_)) => *index < checks.len(),
            (PanePhase::Moving { index, .. }, HerdrReply::Moved(_)) => *index < self.request.sources.len(),
            (PanePhase::FocusWorkspace { .. }, HerdrReply::Focused(_)) => true,
            (PanePhase::FocusTab { .. }, HerdrReply::Focused(_)) => true,
            _ => false,
        }
    }

    /// Goes on with Herdr's answer to the last call.
    pub fn advance(self, reply: HerdrReply) -> (r: (PaneMove, Step))
        requires
            self.awaits(reply@),
        ensures
            (r.0@, r.1@) == pane_move_next(self@, reply@),
            pane_move_wf(r.0@),
    {
        let PaneMove { request, phase } = self;
        match phase {
            PanePhase::Topology => match reply {
                HerdrReply::Topology(Err(e)) => PaneMove::finish(request, Err(e)),
                HerdrReply::Topology(Ok(t)) => match check_sources_exec(&t, &request) {
                    Err(e) => PaneMove::finish(request, Err(e)),
                    Ok(tabs) => match destination_problem_exec(&t, &tabs, &request.destination) {
                        Some(e) => PaneMove::finish(request, Err(e)),
                        None => {
                            let checks = zoom_checks_exec(tabs, &request.destination);
                            PaneMove::zoom_from(request, t, checks, 0)
                        },
                    },
                },
                _ => PaneMove::finish(request, Err(Failure::new(String::new()))),
            },
            PanePhase::Zoom { topology, checks, index } => match reply {
                HerdrReply::Layout(Err(e)) => PaneMove::finish(request, Err(e)),
                HerdrReply::Layout(Ok(snapshot)) => {
                    let source = checks[index].source;
                    if snapshot.tab_id != checks[index].tab_id {
                        let mut m = "the ".to_owned();
                        m.append(role_text(source));
                        m.append(" tab changed while Ferry was open");
                        PaneMove::finish(request, Err(Failure::new(m)))
                    } else if snapshot.zoomed {
                        let mut m = "unzoom the ".to_owned();
                        m.append(role_text(source));
                        m.append(" tab before moving panes");
                        PaneMove::finish(request, Err(Failure::new(m)))
                    } else {
                        let n = checks.len();
                        assert(index < n);
                        PaneMove::zoom_from(request, topology, checks, index + 1)
                    }
                },
                _ => PaneMove::finish(request, Err(Failure::new(String::new()))),
            },
            PanePhase::Moving { index, first, previous } => {
                let total = request.sources.len();
                match reply {
                    HerdrReply::Moved(Err(e)) => {
                        let src = request.sources[index].pane_id.clone();
                        let m = if index == 0 {
                            let mut m = "could not move pane 1/".to_owned();
                            m.append(decimal_text(total).as_str());
                            m.append(" (");
                            m.append(src.as_str());
                            m.append("): ");
                            m.append(e.message.as_str());
                            m
                        } else {
                            pane_batch_text(index, total, &src, &e.message)
                        };
                        PaneMove::finish(request, Err(Failure::new(m)))
                    },
                    HerdrReply::Moved(Ok(m)) => match first {
                        Some(d) => {
                            if m.tab_id != d.tab_id || m.workspace_id != d.workspace_id {
                                let src = request.sources[index].pane_id.clone();
                                let text = pane_batch_text(
                                    index + 1,
                                    total,
                                    &src,
                                    &"Herdr returned an unexpected destination".to_owned(),
                                );
                                PaneMove::finish(request, Err(Failure::new(text)))
                            } else {
                                PaneMove::move_from(request, index + 1, Some(d), Some(m.pane_id))
                            }
                        },
                        None => {
                            let id = m.pane_id.clone();
                            PaneMove::move_from(request, index + 1, Some(m), Some(id))
                        },
                    },
                    _ => PaneMove::finish(request, Err(Failure::new(String::new()))),
                }
            },
            PanePhase::FocusWorkspace { destination } => {
                let total = request.sources.len();
                match reply {
                    HerdrReply::Focused(Err(e)) => {
                        let mut m = decimal_text(total);
                        m.append(" panes moved, but the destination workspace could not be focused: ");
                        m.append(e.message.as_str());
                        PaneMove::finish(request, Err(Failure::new(m)))
                    },
                    HerdrReply::Focused(Ok(())) => {
                        let call = HerdrCall::FocusTab { tab_id: destination.tab_id.clone() };
                        (PaneMove { request, phase: PanePhase::FocusTab { destination } }, Step::Call(call))
                    },
                    _ => PaneMove::finish(request, Err(Failure::new(String::new()))),
                }
            },
            PanePhase::FocusTab { destination } => {
                let total = request.sources.len();
                match reply {
                    HerdrReply::Focused(Err(e)) => {
                        let mut m = decimal_text(total);
                        m.append(" panes moved, but the destination tab could not be focused: ");
                        m.append(e.message.as_str());
                        PaneMove::finish(request, Err(Failure::new(m)))
                    },
                    HerdrReply::Focused(Ok(())) => {
                        let message = if total == 1 {
                            concat("Pane moved to ", destination.tab_id.as_str())
                        } else {
                            let mut m = decimal_text(total);
                            m.append(" panes moved to ");
                            m.append(destination.tab_id.as_str());
                            m
                        };
                        let summary = MoveSummary {
                            message,
                            moved_panes: total,
                            moved_tabs: 0,
                            destination_workspace_id: destination.workspace_id,
                            destination_tab_id: destination.tab_id,
                        };
                        PaneMove::finish(request, Ok(summary))
                    },
                    _ => PaneMove::finish(request, Err(Failure::new(String::new()))),
                }
            },
            PanePhase::Done => PaneMove::finish(request, Err(Failure::new(String::new()))),
        }
    }
}

fn pane_batch_text(moved: usize, total: usize, pane_id: &String, cause: &String) -> (r: String)
    ensures
        r@ == pane_batch_message(moved as int, total as int, pane_id@, cause@),
{
    let mut m = "pane batch stopped after ".to_owned();
    m.append(decimal_text(moved).as_str());
    m.append("/");
    m.append(decimal_text(total).as_str());
    m.append(" panes while moving ");
    m.append(pane_id.as_str());
    m.append("; all moved panes are still live: ");
    m.append(cause.as_str());
    m
}

// ---------------------------------------------------------------------------
// Moving whole tabs.

/// Whether one of the first `n` selected tab ids is `id`.
pub open spec fn tab_selected_before(ids: Seq<Seq<char>>, id: Seq<char>, n: int) -> bool
    decreases n,
{
    n > 0 && (ids[n - 1] == id || tab_selected_before(ids, id, n - 1))
}

/// Checks the first `k` selected tab ids against the topology, in selection order: each
/// is selected once and still exists. On success, those tabs.
pub open spec fn check_tabs(t: TopologyView, ids: Seq<Seq<char>>, k: int) -> Result<Seq<TabView>, Seq<char>>
    decreases k,
{
    if k <= 0 {
        Ok(Seq::empty())
    } else {
        match check_tabs(t, ids, k - 1) {
            Err(m) => Err(m),
            Ok(selected) => {
                let id = ids[k - 1];
                if tab_selected_before(ids, id, k - 1) {
                    Err("tab "@ + id + " was selected more than once"@)
                } else {
                    match tab_with_id(t.tabs, id, 0) {
                        None => Err("selected tab no longer exists: "@ + id),
                        Some(i) => Ok(selected.push(t.tabs[i])),
                    }
                }
            },
        }
    }
}

/// First selected tab at or after `i` that is in workspace `ws`.
pub open spec fn tab_in_workspace(selected: Seq<TabView>, ws: Seq<char>, i: int) -> Option<int>
    decreases selected.len() - i,
{
    if i < 0 || i >= selected.len() {
        None
    } else if selected[i].workspace_id == ws {
        Some(i)
    } else {
        tab_in_workspace(selected, ws, i + 1)
    }
}

/// Why the selected tabs cannot go to `dest`, if they cannot.
pub open spec fn tab_destination_problem(t: TopologyView, selected: Seq<TabView>, dest: TabDestinationView) -> Option<Seq<char>> {
    match dest {
        TabDestinationView::Workspace { workspace_id } => if !has_workspace(t.workspaces, workspace_id) {
            Some("the destination workspace no longer exists"@)
        } else {
            match tab_in_workspace(selected, workspace_id, 0) {
                Some(i) => Some("tab "@ + selected[i].tab_id + " is already in the destination workspace"@),
                None => None,
            }
        },
        TabDestinationView::NewWorkspace { .. } => None,
    }
}

/// The ids of the panes that the topology places in tab `tab`.
pub open spec fn tab_pane_ids(t: TopologyView, tab: Seq<char>) -> Set<Seq<char>> {
    Set::new(|id: Seq<char>| exists|j: int| 0 <= j < t.panes.len() && (#[trigger] t.panes[j]).tab_id == tab && t.panes[j].pane_id == id)
}

/// Whether the tree's leaves are exactly the panes of tab `tab`, each once.
pub open spec fn source_matches(t: TopologyView, root: LayoutNode, tab: Seq<char>) -> bool {
    leaf_ids(root).no_duplicates() && leaf_ids(root).to_set() == tab_pane_ids(t, tab)
}

/// A tab's label with surrounding whitespace removed, or "moved" when nothing is left.
pub open spec fn plan_label(label: Seq<char>) -> Seq<char> {
    if trimmed(label).len() == 0 { "moved"@ } else { trimmed(label) }
}

/// One tab, ready to move: its id, the label its copy gets, and its split tree.
pub ghost struct PlanView {
    pub tab_id: Seq<char>,
    pub label: Seq<char>,
    pub root: LayoutNode,
    pub pane_count: int,
}

/// One split to replay: move the second child's anchor next to the node's anchor.
pub ghost struct PlacementView {
    pub anchor: Seq<char>,
    pub second_anchor: Seq<char>,
    pub direction: SplitDirection,
    pub ratio_bits: u32,
}

/// The splits of a tree in the order they are replayed: a split, then the splits of its
/// first child, then those of its second child.
pub open spec fn placements(n: LayoutNode) -> Seq<PlacementView>
    decreases n,
{
    match n {
        LayoutNode::Pane { .. } => Seq::empty(),
        LayoutNode::Split { direction, ratio_bits, first, second } => seq![
            PlacementView { anchor: anchor_of(*first), second_anchor: anchor_of(*second), direction, ratio_bits },
        ] + placements(*first) + placements(*second),
    }
}

/// `a + b`, stopping at `usize::MAX`.
pub open spec fn sat_sum(a: int, b: int) -> int {
    if a + b > usize::MAX { usize::MAX as int } else { a + b }
}

/// Number of panes in the first `n` plans, stopping at `usize::MAX`.
pub open spec fn plan_panes(plans: Seq<PlanView>, n: int) -> int
    decreases n,
{
    if n <= 0 { 0 } else { sat_sum(plan_panes(plans, n - 1), plans[n - 1].pane_count) }
}

pub ghost enum TabPhaseView {
    Topology,
    Planning { topology: TopologyView, selected: Seq<TabView>, index: int, plans: Seq<PlanView> },
    First { plans: Seq<PlanView>, index: int, known_workspace: Option<Seq<char>>, known_first_tab: Option<Seq<char>>, moved: int },
    Placing {
        plans: Seq<PlanView>,
        index: int,
        workspace: Seq<char>,
        first_tab: Seq<char>,
        moved: int,
        tab: Seq<char>,
        step: int,
        placed: Map<Seq<char>, Seq<char>>,
        moved_in_tab: int,
    },
    FocusWorkspace { plans: Seq<PlanView>, workspace: Seq<char>, first_tab: Seq<char>, moved: int },
    FocusTab { plans: Seq<PlanView>, workspace: Seq<char>, first_tab: Seq<char>, moved: int },
    Done,
}

pub ghost struct TabMoveView {
    pub request: MoveTabView,
    pub phase: TabPhaseView,
}

pub open spec fn tab_state(request: MoveTabView, phase: TabPhaseView) -> TabMoveView {
    TabMoveView { request, phase }
}

pub open spec fn tab_batch_message(tabs: int, total_tabs: int, panes: int, total_panes: int, cause: Seq<char>) -> Seq<char> {
    "tab batch stopped after "@ + decimal(tabs as nat) + "/"@ + decimal(total_tabs as nat) + " tabs and "@
        + decimal(panes as nat) + "/"@ + decimal(total_panes as nat) + " panes; all moved panes are still live: "@
        + cause
}

/// Plans the `i`-th selected tab by asking for its layout through its focused pane (or
/// its first pane); when all are planned, starts moving.
pub open spec fn tab_plan_from(req: MoveTabView, t: TopologyView, selected: Seq<TabView>, i: int, plans: Seq<PlanView>) -> (TabMoveView, StepView) {
    if i >= selected.len() {
        tab_moves_from(req, plans, 0, initial_workspace(req.destination), None, 0)
    } else {
        let tab = selected[i].tab_id;
        let source = match focused_pane_in_tab(t.panes, tab, 0) {
            Some(p) => Some(p),
            None => pane_in_tab(t.panes, tab, 0),
        };
        match source {
            None => (tab_state(req, TabPhaseView::Done), fail("tab "@ + tab + " no longer has a movable pane"@)),
            Some(p) => (
                tab_state(req, TabPhaseView::Planning { topology: t, selected, index: i, plans }),
                StepView::Call(CallView::Layout { pane_id: t.panes[p].pane_id }),
            ),
        }
    }
}

pub open spec fn initial_workspace(dest: TabDestinationView) -> Option<Seq<char>> {
    match dest {
        TabDestinationView::Workspace { workspace_id } => Some(workspace_id),
        TabDestinationView::NewWorkspace { .. } => None,
    }
}

/// The call that moves the anchor of a plan's tree: into a new tab of the destination
/// workspace once that is known, else into a new workspace.
pub open spec fn first_move_call(req: MoveTabView, plan: PlanView, workspace: Option<Seq<char>>) -> CallView {
    let anchor = anchor_of(plan.root);
    match workspace {
        Some(w) => CallView::MoveToNewTab { pane_id: anchor, workspace_id: w, label: Some(plan.label), focus: false },
        None => CallView::MoveToNewWorkspace {
            pane_id: anchor,
            label: match req.destination {
                TabDestinationView::NewWorkspace { label: Some(l) } => Some(l),
                _ => Some(plan.label),
            },
            tab_label: Some(plan.label),
            focus: false,
        },
    }
}

/// Starts moving the `i`-th plan, or, when all have moved, focuses the destination.
pub open spec fn tab_moves_from(
    req: MoveTabView,
    plans: Seq<PlanView>,
    i: int,
    workspace: Option<Seq<char>>,
    first_tab: Option<Seq<char>>,
    moved: int,
) -> (TabMoveView, StepView) {
    if i < plans.len() {
        (
            tab_state(req, TabPhaseView::First { plans, index: i, known_workspace: workspace, known_first_tab: first_tab, moved }),
            StepView::Call(first_move_call(req, plans[i], workspace)),
        )
    } else {
        match (workspace, first_tab) {
            (Some(w), Some(f)) => (
                tab_state(req, TabPhaseView::FocusWorkspace { plans, workspace: w, first_tab: f, moved }),
                StepView::Call(CallView::FocusWorkspace { workspace_id: w }),
            ),
            _ => (tab_state(req, TabPhaseView::Done), fail("tab selection was empty"@)),
        }
    }
}

/// Replays the `k`-th split of the `i`-th plan, moving its second anchor next to the
/// pane that its anchor became; when all are replayed, goes on with the next plan.
pub open spec fn tab_place_from(
    req: MoveTabView,
    plans: Seq<PlanView>,
    i: int,
    workspace: Seq<char>,
    first_tab: Seq<char>,
    moved: int,
    tab: Seq<char>,
    k: int,
    placed: Map<Seq<char>, Seq<char>>,
    moved_in_tab: int,
) -> (TabMoveView, StepView) {
    let steps = placements(plans[i].root);
    if k >= steps.len() {
        tab_moves_from(req, plans, i + 1, Some(workspace), Some(first_tab), sat_sum(moved, moved_in_tab))
    } else {
        let p = steps[k];
        if !placed.dom().contains(p.anchor) {
            (
                tab_state(req, TabPhaseView::Done),
                fail(tab_batch_message(
                    i,
                    plans.len() as int,
                    sat_sum(moved, moved_in_tab),
                    plan_panes(plans, plans.len() as int),
                    "missing placed anchor "@ + p.anchor,
                )),
            )
        } else {
            (
                tab_state(req, TabPhaseView::Placing {
                    plans, index: i, workspace, first_tab, moved, tab, step: k, placed, moved_in_tab,
                }),
                StepView::Call(CallView::MoveToTab {
                    pane_id: p.second_anchor,
                    tab_id: tab,
                    direction: p.direction,
                    target_pane_id: Some(placed[p.anchor]),
                    ratio_bits: Some(p.ratio_bits),
                    focus: false,
                }),
            )
        }
    }
}

pub open spec fn tab_summary(plans: Seq<PlanView>, workspace: Seq<char>, first_tab: Seq<char>, moved: int) -> SummaryView {
    SummaryView {
        message: if plans.len() == 1 {
            "Tab “"@ + plans[0].label + "” moved to "@ + workspace
        } else {
            decimal(plans.len()) + " tabs moved to "@ + workspace
        },
        moved_panes: moved as usize,
        moved_tabs: plans.len() as usize,
        destination_workspace_id: workspace,
        destination_tab_id: first_tab,
    }
}

/// The plan for a selected tab from its reported layout, or why there is none.
pub open spec fn plan_tab(t: TopologyView, tab: TabView, snapshot: LayoutSnapshot) -> Result<PlanView, Seq<char>> {
    if snapshot.tab_id@ != tab.tab_id {
        Err("tab "@ + tab.tab_id + " changed while Ferry was open"@)
    } else if snapshot.zoomed {
        Err("unzoom tab "@ + tab.tab_id + " before moving it"@)
    } else {
        match tree_at(snapshot, all_rects(snapshot), snapshot.area) {
            Err(e) => Err(e.text()),
            Ok(root) => if !source_matches(t, root, tab.tab_id) {
                Err("the source tab layout changed while Ferry was open"@)
            } else {
                Ok(PlanView {
                    tab_id: tab.tab_id,
                    label: plan_label(tab.label),
                    root,
                    pane_count: leaf_ids(root).len() as int,
                })
            },
        }
    }
}

/// Each plan counts the leaves of its tree.
pub open spec fn plans_wf(plans: Seq<PlanView>) -> bool {
    forall|i: int| 0 <= i < plans.len() ==> (#[trigger] plans[i]).pane_count == leaf_ids(plans[i].root).len()
        && plans[i].pane_count <= usize::MAX
}

/// The indices and counts that a tab move in state `s` holds are in range.
pub open spec fn tab_move_wf(s: TabMoveView) -> bool {
    match s.phase {
        TabPhaseView::Planning { selected, index, plans, .. } => 0 <= index < selected.len() && plans_wf(plans),
        TabPhaseView::First { plans, index, moved, .. } => 0 <= index < plans.len() && plans_wf(plans)
            && 0 <= moved <= usize::MAX,
        TabPhaseView::Placing { plans, index, step, moved, moved_in_tab, .. } => 0 <= index < plans.len()
            && 0 <= step < placements(plans[index].root).len() && moved_in_tab == step + 1 && plans_wf(plans)
            && 0 <= moved <= usize::MAX,
        TabPhaseView::FocusWorkspace { plans, moved, .. } => plans.len() > 0 && plans_wf(plans) && 0 <= moved
            <= usize::MAX,
        TabPhaseView::FocusTab { plans, moved, .. } => plans.len() > 0 && plans_wf(plans) && 0 <= moved
            <= usize::MAX,
        _ => true,
    }
}

/// Whether `reply` answers the call that a tab move in state `s` is waiting for.
pub open spec fn tab_move_awaits(s: TabMoveView, reply: ReplyView) -> bool {
    tab_move_wf(s) && match s.phase {
        TabPhaseView::Topology => reply is Topology,
        TabPhaseView::Planning { .. } => reply is Layout,
        TabPhaseView::First { .. } => reply is Moved,
        TabPhaseView::Placing { .. } => reply is Moved,
        TabPhaseView::FocusWorkspace { .. } => reply is Focused,
        TabPhaseView::FocusTab { .. } => reply is Focused,
        TabPhaseView::Done => false,
    }
}

/// How a tab move starts: refused when nothing is selected, else by listing the topology.
pub open spec fn tab_move_start(req: MoveTabView) -> (TabMoveView, StepView) {
    if req.tab_ids.len() == 0 {
        (tab_state(req, TabPhaseView::Done), fail("select at least one tab"@))
    } else {
        (tab_state(req, TabPhaseView::Topology), StepView::Call(CallView::Topology))
    }
}

/// How a tab move goes on from state `s` once Herdr answered `reply`.
pub open spec fn tab_move_next(s: TabMoveView, reply: ReplyView) -> (TabMoveView, StepView) {
    let req = s.request;
    let done = tab_state(req, TabPhaseView::Done);
    match (s.phase, reply) {
        (TabPhaseView::Topology, ReplyView::Topology(Err(e))) => (done, fail(e)),
        (TabPhaseView::Topology, ReplyView::Topology(Ok(t))) => match check_tabs(t, req.tab_ids, req.tab_ids.len() as int) {
            Err(m) => (done, fail(m)),
            Ok(selected) => match tab_destination_problem(t, selected, req.destination) {
                Some(m) => (done, fail(m)),
                None => tab_plan_from(req, t, selected, 0, Seq::empty()),
            },
        },
        (TabPhaseView::Planning { topology, selected, index, plans }, ReplyView::Layout(Err(e))) => (done, fail(e)),
        (TabPhaseView::Planning { topology, selected, index, plans }, ReplyView::Layout(Ok(snapshot))) => match plan_tab(
            topology,
            selected[index],
            snapshot,
        ) {
            Err(m) => (done, fail(m)),
            Ok(plan) => tab_plan_from(req, topology, selected, index + 1, plans.push(plan)),
        },
        (TabPhaseView::First { plans, index, known_workspace, known_first_tab, moved }, ReplyView::Moved(Err(e))) => if moved == 0 {
            (
                done,
                fail("could not start moving tab 1/"@ + decimal(plans.len()) + " ("@ + plans[index].tab_id + "): "@ + e),
            )
        } else {
            (done, fail(tab_batch_message(index, plans.len() as int, moved, plan_panes(plans, plans.len() as int), e)))
        },
        (TabPhaseView::First { plans, index, known_workspace, known_first_tab, moved }, ReplyView::Moved(Ok(f))) => match known_workspace {
            Some(w) if f.workspace_id != w => (
                done,
                fail(tab_batch_message(
                    index,
                    plans.len() as int,
                    sat_sum(moved, 1),
                    plan_panes(plans, plans.len() as int),
                    "Herdr returned an unexpected destination workspace"@,
                )),
            ),
            _ => tab_place_from(
                req,
                plans,
                index,
                match known_workspace { Some(w) => w, None => f.workspace_id },
                match known_first_tab { Some(ft) => ft, None => f.tab_id },
                moved,
                f.tab_id,
                0,
                Map::empty().insert(anchor_of(plans[index].root), f.pane_id),
                1,
            ),
        },
        (
            TabPhaseView::Placing { plans, index, workspace, first_tab, moved, tab, step, placed, moved_in_tab },
            ReplyView::Moved(Err(e)),
        ) => (
            done,
            fail(tab_batch_message(index, plans.len() as int, sat_sum(moved, moved_in_tab), plan_panes(plans, plans.len() as int), e)),
        ),
        (
            TabPhaseView::Placing { plans, index, workspace, first_tab, moved, tab, step, placed, moved_in_tab },
            ReplyView::Moved(Ok(m)),
        ) => tab_place_from(
            req,
            plans,
            index,
            workspace,
            first_tab,
            moved,
            tab,
            step + 1,
            placed.insert(placements(plans[index].root)[step].second_anchor, m.pane_id),
            moved_in_tab + 1,
        ),
        (TabPhaseView::FocusWorkspace { plans, workspace, first_tab, moved }, ReplyView::Focused(Err(e))) => (
            done,
            fail(decimal(plans.len()) + " tabs moved, but the destination workspace could not be focused: "@ + e),
        ),
        (TabPhaseView::FocusWorkspace { plans, workspace, first_tab, moved }, ReplyView::Focused(Ok(()))) => (
            tab_state(req, TabPhaseView::FocusTab { plans, workspace, first_tab, moved }),
            StepView::Call(CallView::FocusTab { tab_id: first_tab }),
        ),
        (TabPhaseView::FocusTab { plans, workspace, first_tab, moved }, ReplyView::Focused(Err(e))) => (
            done,
            fail(decimal(plans.len()) + " tabs moved, but the first moved tab could not be focused: "@ + e),
        ),
        (TabPhaseView::FocusTab { plans, workspace, first_tab, moved }, ReplyView::Focused(Ok(()))) => (
            done,
            StepView::Finish(Ok(tab_summary(plans, workspace, first_tab, moved))),
        ),
        _ => (s, fail(Seq::empty())),
    }
}

pub proof fn lemma_placements_count(n: LayoutNode)
    ensures
        placements(n).len() + 1 == leaf_ids(n).len(),
    decreases n,
{
    match n {
        LayoutNode::Pane { .. } => {},
        LayoutNode::Split { first, second, .. } => {
            lemma_placements_count(*first);
            lemma_placements_count(*second);
        },
    }
}

/// The leaf ids of a tree, as strings.
fn leaf_strings(root: &LayoutNode) -> (r: Vec<String>)
    ensures
        views(r@) == leaf_ids(*root),
{
    let leaves = root.leaves();
    let mut r: Vec<String> = Vec::new();
    let mut i: usize = 0;
    while i < leaves.len()
        invariant
            i <= leaves@.len(),
            crate::layout::str_views(leaves@) == leaf_ids(*root),
            views(r@) == crate::layout::str_views(leaves@).take(i as int),
        decreases leaves.len() - i,
    {
        let ghost before = r@;
        r.push(leaves[i].to_owned());
        assert(views(r@) =~= views(before).push(leaves@[i as int]@));
        assert(crate::layout::str_views(leaves@).take(i + 1) =~= crate::layout::str_views(leaves@).take(i as int).push(
            leaves@[i as int]@,
        ));
        i += 1;
    }
    assert(crate::layout::str_views(leaves@).take(i as int) =~= crate::layout::str_views(leaves@));
    r
}

fn no_duplicate_strings(v: &Vec<String>) -> (r: bool)
    ensures
        r == views(v@).no_duplicates(),
{
    let ghost w = views(v@);
    let mut i: usize = 0;
    while i < v.len()
        invariant
            i <= v@.len(),
            w == views(v@),
            forall|a: int, b: int| 0 <= a < b < v@.len() && a < i ==> w[a] != w[b],
        decreases v.len() - i,
    {
        let mut j: usize = i + 1;
        while j < v.len()
            invariant
                i < j <= v@.len(),
                i < v@.len(),
                w == views(v@),
                forall|a: int, b: int| 0 <= a < b < v@.len() && a < i ==> w[a] != w[b],
                forall|b: int| i < b < j ==> w[i as int] != w[b],
            decreases v.len() - j,
        {
            if v[i] == v[j] {
                assert(w[i as int] == w[j as int]);
                return false;
            }
            j += 1;
        }
        i += 1;
    }
    true
}

fn tab_has_pane(t: &Topology, tab: &String, id: &String) -> (r: bool)
    ensures
        r == tab_pane_ids(t@, tab@).contains(id@),
{
    let ghost panes = t@.panes;
    let mut j: usize = 0;
    while j < t.panes.len()
        invariant
            j <= t.panes@.len(),
            panes == t@.panes,
            forall|k: int| 0 <= k < j ==> !((#[trigger] panes[k]).tab_id == tab@ && panes[k].pane_id == id@),
        decreases t.panes.len() - j,
    {
        if t.panes[j].tab_id == *tab && t.panes[j].pane_id == *id {
            assert(panes[j as int].tab_id == tab@ && panes[j as int].pane_id == id@);
            return true;
        }
        j += 1;
    }
    false
}

/// Whether the leaves of `root` are exactly the panes of tab `tab_id` in the topology,
/// each once; the failure says that the tab changed otherwise.
pub fn validate_tab_source(topology: &Topology, root: &LayoutNode, tab_id: &String) -> (r: Result<(), Failure>)
    ensures
        source_matches(topology@, *root, tab_id@) ==> r is Ok,
        !source_matches(topology@, *root, tab_id@) ==> (r matches Err(e) && e.message@
            == "the source tab layout changed while Ferry was open"@),
{
    let ids = leaf_strings(root);
    let ghost w = views(ids@);
    let fail = Failure::new("the source tab layout changed while Ferry was open".to_owned());
    if !no_duplicate_strings(&ids) {
        return Err(fail);
    }
    let mut i: usize = 0;
    while i < ids.len()
        invariant
            i <= ids@.len(),
            w == views(ids@),
            w == leaf_ids(*root),
            w.no_duplicates(),
            fail.message@ == "the source tab layout changed while Ferry was open"@,
            forall|k: int| 0 <= k < i ==> tab_pane_ids(topology@, tab_id@).contains(#[trigger] w[k]),
        decreases ids.len() - i,
    {
        if !tab_has_pane(topology, tab_id, &ids[i]) {
            assert(w.to_set().contains(w[i as int]));
            assert(!tab_pane_ids(topology@, tab_id@).contains(w[i as int]));
            return Err(fail);
        }
        i += 1;
    }
    let ghost panes = topology@.panes;
    let mut j: usize = 0;
    while j < topology.panes.len()
        invariant
            j <= topology.panes@.len(),
            panes == topology@.panes,
            w == views(ids@),
            w == leaf_ids(*root),
            w.no_duplicates(),
            fail.message@ == "the source tab layout changed while Ferry was open"@,
            forall|k: int| 0 <= k < j && (#[trigger] panes[k]).tab_id == tab_id@ ==> w.contains(panes[k].pane_id),
        decreases topology.panes.len() - j,
    {
        if topology.panes[j].tab_id == *tab_id && !contains_string(&ids, &topology.panes[j].pane_id) {
            assert(tab_pane_ids(topology@, tab_id@).contains(panes[j as int].pane_id));
            assert(!w.to_set().contains(panes[j as int].pane_id));
            return Err(fail);
        }
        j += 1;
    }
    assert(w.to_set() =~= tab_pane_ids(topology@, tab_id@)) by {
        assert forall|x: Seq<char>| tab_pane_ids(topology@, tab_id@).contains(x) implies w.to_set().contains(x) by {
            let k = choose|k: int| 0 <= k < panes.len() && (#[trigger] panes[k]).tab_id == tab_id@ && panes[k].pane_id == x;
            assert(w.contains(panes[k].pane_id));
        }
        assert forall|x: Seq<char>| w.to_set().contains(x) implies tab_pane_ids(topology@, tab_id@).contains(x) by {
            let k = choose|k: int| 0 <= k < w.len() && w[k] == x;
            assert(tab_pane_ids(topology@, tab_id@).contains(w[k]));
        }
    }
    Ok(())
}

/// The label a moved tab's copy gets: its label trimmed, or "moved" when that is blank.
pub fn tab_label(label: &str) -> (r: String)
    ensures
        r@ == plan_label(label@),
{
    let t = crate::text::trim(label);
    if t.is_empty() {
        "moved".to_owned()
    } else {
        t.to_owned()
    }
}

proof fn lemma_tab_selected_before_grows(ids: Seq<Seq<char>>, id: Seq<char>, m: int, n: int)
    requires
        0 <= m <= n,
        tab_selected_before(ids, id, m),
    ensures
        tab_selected_before(ids, id, n),
    decreases n - m,
{
    if m < n {
        lemma_tab_selected_before_grows(ids, id, m + 1, n);
    }
}

proof fn lemma_check_tabs_err_stays(t: TopologyView, ids: Seq<Seq<char>>, k: int, n: int)
    requires
        0 <= k <= n,
        check_tabs(t, ids, k) is Err,
    ensures
        check_tabs(t, ids, n) == check_tabs(t, ids, k),
    decreases n - k,
{
    if k < n {
        lemma_check_tabs_err_stays(t, ids, k + 1, n);
    }
}

pub open spec fn tab_views(v: Seq<TabInfo>) -> Seq<TabView> {
    v.map_values(|t: TabInfo| t@)
}

fn check_tabs_exec(t: &Topology, ids: &Vec<String>) -> (r: Result<Vec<TabInfo>, Failure>)
    ensures
        match check_tabs(t@, views(ids@), ids@.len() as int) {
            Ok(sel) => r matches Ok(v) && tab_views(v@) == sel,
            Err(m) => r matches Err(e) && e.message@ == m,
        },
{
    let ghost w = views(ids@);
    let mut selected: Vec<TabInfo> = Vec::new();
    assert(tab_views(selected@) =~= Seq::<TabView>::empty());
    let mut k: usize = 0;
    while k < ids.len()
        invariant
            k <= ids@.len(),
            w == views(ids@),
            check_tabs(t@, w, k as int) == Ok::<Seq<TabView>, Seq<char>>(tab_views(selected@)),
        decreases ids.len() - k,
    {
        let id = &ids[k];
        assert(w[k as int] == id@);
        let mut j: usize = 0;
        while j < k
            invariant
                j <= k < ids@.len(),
                w == views(ids@),
                w[k as int] == id@,
                !tab_selected_before(w, id@, j as int),
                check_tabs(t@, w, k as int) == Ok::<Seq<TabView>, Seq<char>>(tab_views(selected@)),
            decreases k - j,
        {
            if ids[j] == *id {
                assert(w[j as int] == id@);
                let e = message3("tab ", id.as_str(), " was selected more than once");
                proof {
                    lemma_tab_selected_before_grows(w, id@, j + 1, k as int);
                    lemma_check_tabs_err_stays(t@, w, k + 1, w.len() as int);
                }
                return Err(e);
            }
            j += 1;
        }
        match find_tab_with_id(&t.tabs, id) {
            None => {
                proof {
                    lemma_check_tabs_err_stays(t@, w, k + 1, w.len() as int);
                }
                return Err(message2("selected tab no longer exists: ", id.as_str()));
            },
            Some(i) => {
                let ghost before = selected@;
                selected.push(t.tabs[i].clone());
                assert(tab_views(selected@) =~= tab_views(before).push(t@.tabs[i as int]));
            },
        }
        k += 1;
    }
    Ok(selected)
}

fn tab_destination_problem_exec(t: &Topology, selected: &Vec<TabInfo>, dest: &TabDestination) -> (r: Option<Failure>)
    ensures
        match tab_destination_problem(t@, tab_views(selected@), dest@) {
            None => r is None,
            Some(m) => r matches Some(e) && e.message@ == m,
        },
{
    match dest {
        TabDestination::Workspace { workspace_id } => {
            if !workspace_exists(&t.workspaces, workspace_id) {
                return Some(Failure::new("the destination workspace no longer exists".to_owned()));
            }
            let ghost sv = tab_views(selected@);
            let mut i: usize = 0;
            while i < selected.len()
                invariant
                    i <= selected@.len(),
                    sv == tab_views(selected@),
                    has_workspace(t@.workspaces, workspace_id@),
                    dest@ == (TabDestinationView::Workspace { workspace_id: workspace_id@ }),
                    tab_in_workspace(sv, workspace_id@, 0) == tab_in_workspace(sv, workspace_id@, i as int),
                decreases selected.len() - i,
            {
                assert(sv[i as int] == selected@[i as int]@);
                if selected[i].workspace_id == *workspace_id {
                    return Some(message3("tab ", selected[i].tab_id.as_str(), " is already in the destination workspace"));
                }
                i += 1;
            }
            None
        },
        TabDestination::NewWorkspace { .. } => None,
    }
}

struct Placement {
    anchor: String,
    second_anchor: String,
    direction: SplitDirection,
    ratio_bits: u32,
}

spec fn placement_views(v: Seq<Placement>) -> Seq<PlacementView> {
    v.map_values(|p: Placement| PlacementView {
        anchor: p.anchor@,
        second_anchor: p.second_anchor@,
        direction: p.direction,
        ratio_bits: p.ratio_bits,
    })
}

fn collect_placements(n: &LayoutNode, out: &mut Vec<Placement>)
    ensures
        placement_views(final(out)@) =~= placement_views(old(out)@) + placements(*n),
    decreases n,
{
    match n {
        LayoutNode::Pane { .. } => {},
        LayoutNode::Split { direction, ratio_bits, first, second } => {
            let ghost before = out@;
            out.push(
                Placement {
                    anchor: first.anchor().to_owned(),
                    second_anchor: second.anchor().to_owned(),
                    direction: *direction,
                    ratio_bits: *ratio_bits,
                },
            );
            assert(placement_views(out@) =~= placement_views(before) + seq![
                PlacementView {
                    anchor: anchor_of(**first),
                    second_anchor: anchor_of(**second),
                    direction: *direction,
                    ratio_bits: *ratio_bits,
                },
            ]);
            collect_placements(first, out);
            collect_placements(second, out);
        },
    }
}

fn placements_of(n: &LayoutNode) -> (r: Vec<Placement>)
    ensures
        placement_views(r@) == placements(*n),
{
    let mut r: Vec<Placement> = Vec::new();
    collect_placements(n, &mut r);
    assert(placement_views(r@) =~= placements(*n));
    r
}

/// The map that a list of (key, value) insertions builds, later ones winning.
pub open spec fn pairs_map(pairs: Seq<(Seq<char>, Seq<char>)>) -> Map<Seq<char>, Seq<char>>
    decreases pairs.len(),
{
    if pairs.len() == 0 {
        Map::empty()
    } else {
        pairs_map(pairs.drop_last()).insert(pairs.last().0, pairs.last().1)
    }
}

pub open spec fn pair_views(v: Seq<(String, String)>) -> Seq<(Seq<char>, Seq<char>)> {
    v.map_values(|p: (String, String)| (p.0@, p.1@))
}

fn lookup_placed(pairs: &Vec<(String, String)>, key: &String) -> (r: Option<String>)
    ensures
        pairs_map(pair_views(pairs@)).dom().contains(key@) ==> (r matches Some(v) && v@ == pairs_map(
            pair_views(pairs@),
        )[key@]),
        !pairs_map(pair_views(pairs@)).dom().contains(key@) ==> r is None,
{
    let ghost pv = pair_views(pairs@);
    assert(pv.take(pairs@.len() as int) =~= pv);
    let mut i: usize = pairs.len();
    while i > 0
        invariant
            i <= pairs@.len(),
            pv == pair_views(pairs@),
            pairs_map(pv).dom().contains(key@) == pairs_map(pv.take(i as int)).dom().contains(key@),
            pairs_map(pv).dom().contains(key@) ==> pairs_map(pv)[key@] == pairs_map(pv.take(i as int))[key@],
        decreases i,
    {
        assert(pv.take(i as int).drop_last() =~= pv.take(i - 1));
        assert(pv.take(i as int).last() == pv[i - 1]);
        assert(pv[i - 1] == (pairs@[i - 1].0@, pairs@[i - 1].1@));
        if pairs[i - 1].0 == *key {
            return Some(pairs[i - 1].1.clone());
        }
        i -= 1;
    }
    assert(pv.take(0) =~= Seq::<(Seq<char>, Seq<char>)>::empty());
    None
}

struct TabPlan {
    tab_id: String,
    label: String,
    root: LayoutNode,
    pane_count: usize,
}

spec fn plan_views(v: Seq<TabPlan>) -> Seq<PlanView> {
    v.map_values(|p: TabPlan| PlanView { tab_id: p.tab_id@, label: p.label@, root: p.root, pane_count: p.pane_count as int })
}

/// The number of splits of `n`.
fn placement_count(n: &LayoutNode) -> (r: usize)
    ensures
        r == placements(*n).len(),
{
    let mut out: Vec<Placement> = Vec::new();
    collect_placements(n, &mut out);
    proof {
        assert(placement_views(out@).len() == out@.len());
    }
    out.len()
}

/// Whether each plan counts the leaves of its tree.
fn plans_wf_exec(plans: &Vec<TabPlan>) -> (b: bool)
    ensures
        b == plans_wf(plan_views(plans@)),
{
    let ghost pv = plan_views(plans@);
    let mut i: usize = 0;
    while i < plans.len()
        invariant
            i <= plans@.len(),
            pv == plan_views(plans@),
            forall|k: int| 0 <= k < i ==> (#[trigger] pv[k]).pane_count == leaf_ids(pv[k].root).len()
                && pv[k].pane_count <= usize::MAX,
        decreases plans.len() - i,
    {
        let leaves = leaf_strings(&plans[i].root);
        assert(pv[i as int].root == plans@[i as int].root);
        assert(views(leaves@).len() == leaves@.len());
        if leaves.len() != plans[i].pane_count {
            assert(pv[i as int].pane_count != leaf_ids(pv[i as int].root).len());
            return false;
        }
        i += 1;
    }
    true
}

enum TabPhase {
    Topology,
    Planning { topology: Topology, selected: Vec<TabInfo>, index: usize, plans: Vec<TabPlan> },
    First { plans: Vec<TabPlan>, index: usize, known_workspace: Option<String>, known_first_tab: Option<String>, moved: usize },
    Placing {
        plans: Vec<TabPlan>,
        index: usize,
        workspace: String,
        first_tab: String,
        moved: usize,
        tab: String,
        step: usize,
        placed: Vec<(String, String)>,
        moved_in_tab: usize,
    },
    FocusWorkspace { plans: Vec<TabPlan>, workspace: String, first_tab: String, moved: usize },
    FocusTab { plans: Vec<TabPlan>, workspace: String, first_tab: String, moved: usize },
    Done,
}

/// A whole-tab move in progress: the request, and how far it has come.
pub struct TabMove {
    request: MoveTabRequest,
    phase: TabPhase,
}

impl View for TabMove {
    type V = TabMoveView;

    closed spec fn view(&self) -> TabMoveView {
        TabMoveView {
            request: self.request@,
            phase: match self.phase {
                TabPhase::Topology => TabPhaseView::Topology,
                TabPhase::Planning { topology, selected, index, plans } => TabPhaseView::Planning {
                    topology: topology@,
                    selected: tab_views(selected@),
                    index: index as int,
                    plans: plan_views(plans@),
                },
                TabPhase::First { plans, index, known_workspace, known_first_tab, moved } => TabPhaseView::First {
                    plans: plan_views(plans@),
                    index: index as int,
                    known_workspace: crate::herdr::opt_view(known_workspace),
                    known_first_tab: crate::herdr::opt_view(known_first_tab),
                    moved: moved as int,
                },
                TabPhase::Placing { plans, index, workspace, first_tab, moved, tab, step, placed, moved_in_tab } =>
                    TabPhaseView::Placing {
                    plans: plan_views(plans@),
                    index: index as int,
                    workspace: workspace@,
                    first_tab: first_tab@,
                    moved: moved as int,
                    tab: tab@,
                    step: step as int,
                    placed: pairs_map(pair_views(placed@)),
                    moved_in_tab: moved_in_tab as int,
                },
                TabPhase::FocusWorkspace { plans, workspace, first_tab, moved } => TabPhaseView::FocusWorkspace {
                    plans: plan_views(plans@),
                    workspace: workspace@,
                    first_tab: first_tab@,
                    moved: moved as int,
                },
                TabPhase::FocusTab { plans, workspace, first_tab, moved } => TabPhaseView::FocusTab {
                    plans: plan_views(plans@),
                    workspace: workspace@,
                    first_tab: first_tab@,
                    moved: moved as int,
                },
                TabPhase::Done => TabPhaseView::Done,
            },
        }
    }
}

fn total_panes(plans: &Vec<TabPlan>) -> (r: usize)
    ensures
        r == plan_panes(plan_views(plans@), plans@.len() as int),
{
    let mut total: usize = 0;
    let mut i: usize = 0;
    while i < plans.len()
        invariant
            i <= plans@.len(),
            total == plan_panes(plan_views(plans@), i as int),
        decreases plans.len() - i,
    {
        total = total.saturating_add(plans[i].pane_count);
        i += 1;
    }
    total
}

fn tab_batch_text(tabs: usize, total_tabs: usize, panes: usize, total: usize, cause: &String) -> (r: String)
    ensures
        r@ == tab_batch_message(tabs as int, total_tabs as int, panes as int, total as int, cause@),
{
    let mut m = "tab batch stopped after ".to_owned();
    m.append(decimal_text(tabs).as_str());
    m.append("/");
    m.append(decimal_text(total_tabs).as_str());
    m.append(" tabs and ");
    m.append(decimal_text(panes).as_str());
    m.append("/");
    m.append(decimal_text(total).as_str());
    m.append(" panes; all moved panes are still live: ");
    m.append(cause.as_str());
    m
}

fn plan_tab_exec(t: &Topology, tab: &TabInfo, snapshot: LayoutSnapshot) -> (r: Result<TabPlan, Failure>)
    ensures
        match plan_tab(t@, tab@, snapshot) {
            Ok(p) => r matches Ok(q) && q.tab_id@ == p.tab_id && q.label@ == p.label && q.root == p.root
                && q.pane_count == p.pane_count,
            Err(m) => r matches Err(e) && e.message@ == m,
        },
{
    if snapshot.tab_id != tab.tab_id {
        return Err(message3("tab ", tab.tab_id.as_str(), " changed while Ferry was open"));
    }
    if snapshot.zoomed {
        return Err(message3("unzoom tab ", tab.tab_id.as_str(), " before moving it"));
    }
    match LayoutNode::from_snapshot(&snapshot) {
        Err(e) => Err(Failure::new(e.message())),
        Ok(root) => {
            match validate_tab_source(t, &root, &tab.tab_id) {
                Err(e) => Err(e),
                Ok(()) => {
                    let pane_count = root.leaves().len();
                    Ok(TabPlan { tab_id: tab.tab_id.clone(), label: tab_label(tab.label.as_str()), root, pane_count })
                },
            }
        },
    }
}

impl TabMove {
    fn finish(request: MoveTabRequest, result: Result<MoveSummary, Failure>) -> (r: (TabMove, Step))
        ensures
            r.0@ == tab_state(request@, TabPhaseView::Done),
            r.1 == Step::Finish(result),
    {
        (TabMove { request, phase: TabPhase::Done }, Step::Finish(result))
    }

    fn first_call(request: &MoveTabRequest, plan: &TabPlan, workspace: &Option<String>) -> (r: HerdrCall)
        ensures
            r@ == first_move_call(
                request@,
                PlanView { tab_id: plan.tab_id@, label: plan.label@, root: plan.root, pane_count: plan.pane_count as int },
                crate::herdr::opt_view(*workspace),
            ),
    {
        let anchor = plan.root.anchor().to_owned();
        match workspace {
            Some(w) => HerdrCall::MoveToNewTab {
                pane_id: anchor,
                workspace_id: w.clone(),
                label: Some(plan.label.clone()),
                focus: false,
            },
            None => {
                let label = match &request.destination {
                    TabDestination::NewWorkspace { label: Some(l) } => l.clone(),
                    _ => plan.label.clone(),
                };
                HerdrCall::MoveToNewWorkspace {
                    pane_id: anchor,
                    label: Some(label),
                    tab_label: Some(plan.label.clone()),
                    focus: false,
                }
            },
        }
    }

    fn moves_from(
        request: MoveTabRequest,
        plans: Vec<TabPlan>,
        i: usize,
        workspace: Option<String>,
        first_tab: Option<String>,
        moved: usize,
    ) -> (r: (TabMove, Step))
        requires
            i <= plans@.len(),
            plans_wf(plan_views(plans@)),
            first_tab is Some ==> i > 0,
        ensures
            (r.0@, r.1@) == tab_moves_from(
                request@,
                plan_views(plans@),
                i as int,
                crate::herdr::opt_view(workspace),
                crate::herdr::opt_view(first_tab),
                moved as int,
            ),
            tab_move_wf(r.0@),
    {
        if i < plans.len() {
            let call = TabMove::first_call(&request, &plans[i], &workspace);
            (
                TabMove {
                    request,
                    phase: TabPhase::First { plans, index: i, known_workspace: workspace, known_first_tab: first_tab, moved },
                },
                Step::Call(call),
            )
        } else {
            match (workspace, first_tab) {
                (Some(w), Some(f)) => {
                    let call = HerdrCall::FocusWorkspace { workspace_id: w.clone() };
                    (
                        TabMove { request, phase: TabPhase::FocusWorkspace { plans, workspace: w, first_tab: f, moved } },
                        Step::Call(call),
                    )
                },
                _ => TabMove::finish(request, Err(Failure::new("tab selection was empty".to_owned()))),
            }
        }
    }

    fn plan_from(
        request: MoveTabRequest,
        topology: Topology,
        selected: Vec<TabInfo>,
        i: usize,
        plans: Vec<TabPlan>,
    ) -> (r: (TabMove, Step))
        requires
            i <= selected@.len(),
            plans_wf(plan_views(plans@)),
        ensures
            (r.0@, r.1@) == tab_plan_from(request@, topology@, tab_views(selected@), i as int, plan_views(plans@)),
            tab_move_wf(r.0@),
    {
        if i >= selected.len() {
            let workspace = match &request.destination {
                TabDestination::Workspace { workspace_id } => Some(workspace_id.clone()),
                TabDestination::NewWorkspace { .. } => None,
            };
            return TabMove::moves_from(request, plans, 0, workspace, None, 0);
        }
        let tab_id = &selected[i].tab_id;
        assert(tab_views(selected@)[i as int].tab_id == tab_id@);
        let source = match find_focused_pane_in_tab(&topology.panes, tab_id) {
            Some(p) => Some(p),
            None => find_pane_in_tab(&topology.panes, tab_id),
        };
        match source {
            None => {
                let e = message3("tab ", tab_id.as_str(), " no longer has a movable pane");
                TabMove::finish(request, Err(e))
            },
            Some(p) => {
                let call = HerdrCall::Layout { pane_id: topology.panes[p].pane_id.clone() };
                assert(topology@.panes[p as int] == topology.panes@[p as int]@);
                (TabMove { request, phase: TabPhase::Planning { topology, selected, index: i, plans } }, Step::Call(call))
            },
        }
    }

    fn place_from(
        request: MoveTabRequest,
        plans: Vec<TabPlan>,
        i: usize,
        workspace: String,
        first_tab: String,
        moved: usize,
        tab: String,
        k: usize,
        placed: Vec<(String, String)>,
        moved_in_tab: usize,
    ) -> (r: (TabMove, Step))
        requires
            i < plans@.len(),
            plans_wf(plan_views(plans@)),
            k <= placements(plans@[i as int].root).len(),
            moved_in_tab == k + 1,
        ensures
            (r.0@, r.1@) == tab_place_from(
                request@,
                plan_views(plans@),
                i as int,
                workspace@,
                first_tab@,
                moved as int,
                tab@,
                k as int,
                pairs_map(pair_views(placed@)),
                moved_in_tab as int,
            ),
            tab_move_wf(r.0@),
    {
        let ghost pv = plan_views(plans@);
        assert(pv[i as int].root == plans@[i as int].root);
        let steps = placements_of(&plans[i].root);
        let n = plans.len();
        if k >= steps.len() {
            return TabMove::moves_from(request, plans, i + 1, Some(workspace), Some(first_tab), moved.saturating_add(moved_in_tab));
        }
        assert(placement_views(steps@)[k as int].anchor == steps@[k as int].anchor@);
        match lookup_placed(&placed, &steps[k].anchor) {
            None => {
                let mut cause = "missing placed anchor ".to_owned();
                cause.append(steps[k].anchor.as_str());
                let text = tab_batch_text(i, plans.len(), moved.saturating_add(moved_in_tab), total_panes(&plans), &cause);
                TabMove::finish(request, Err(Failure::new(text)))
            },
            Some(target) => {
                let call = HerdrCall::MoveToTab {
                    pane_id: steps[k].second_anchor.clone(),
                    tab_id: tab.clone(),
                    direction: steps[k].direction,
                    target_pane_id: Some(target),
                    ratio_bits: Some(steps[k].ratio_bits),
                    focus: false,
                };
                (
                    TabMove {
                        request,
                        phase: TabPhase::Placing { plans, index: i, workspace, first_tab, moved, tab, step: k, placed, moved_in_tab },
                    },
                    Step::Call(call),
                )
            },
        }
    }

    /// Starts moving the tabs of `request`: fails at once when none is selected, else
    /// asks for the topology.
    pub fn begin(request: MoveTabRequest) -> (r: (TabMove, Step))
        ensures
            (r.0@, r.1@) == tab_move_start(request@),
            tab_move_wf(r.0@),
    {
        if request.tab_ids.len() == 0 {
            TabMove::finish(request, Err(Failure::new("select at least one tab".to_owned())))
        } else {
            (TabMove { request, phase: TabPhase::Topology }, Step::Call(HerdrCall::Topology))
        }
    }

    /// Whether `reply` is what this move waits for.
    pub open spec fn awaits(&self, reply: ReplyView) -> bool {
        tab_move_awaits(self@, reply)
    }

    /// Whether `reply` answers the call this move waits for, so that `advance` may take it.
    pub fn answers(&self, reply: &HerdrReply) -> (b: bool)
        ensures
            b == self.awaits(reply@),
    {
        match (&self.phase, reply) {
            (TabPhase::Topology, HerdrReply::Topology(_)) => true,
            (TabPhase::Planning { selected, index, plans, .. }, HerdrReply::Layout(_)) => *index < selected.len()
                && plans_wf_exec(plans),
            (TabPhase::First { plans, index, .. }, HerdrReply::Moved(_)) => *index < plans.len() && plans_wf_exec(plans),
            (TabPhase::Placing { plans, index, step, moved_in_tab, .. }, HerdrReply::Moved(_)) => {
                if *index < plans.len() && plans_wf_exec(plans) {
                    proof {
                        assert(plan_views(plans@)[*index as int].root == plans@[*index as int].root);
                    }
                    let count = placement_count(&plans[*index].root);
                    *step < count && *step < usize::MAX && *moved_in_tab == *step + 1
                } else {
                    false
                }
            },
            (TabPhase::FocusWorkspace { plans, .. }, HerdrReply::Focused(_)) => plans.len() > 0 && plans_wf_exec(plans),
            (TabPhase::FocusTab { plans, .. }, HerdrReply::Focused(_)) => plans.len() > 0 && plans_wf_exec(plans),
            _ => false,
        }
    }

    /// Goes on with Herdr's answer to the last call.
    pub fn advance(self, reply: HerdrReply) -> (r: (TabMove, Step))
        requires
            self.awaits(reply@),
        ensures
            (r.0@, r.1@) == tab_move_next(self@, reply@),
            tab_move_wf(r.0@),
    {
        let TabMove { request, phase } = self;
        match phase {
            TabPhase::Topology => match reply {
                HerdrReply::Topology(Err(e)) => TabMove::finish(request, Err(e)),
                HerdrReply::Topology(Ok(t)) => {
                    assert(views(request.tab_ids@) =~= request@.tab_ids);
                    match check_tabs_exec(&t, &request.tab_ids) {
                        Err(e) => TabMove::finish(request, Err(e)),
                        Ok(selected) => match tab_destination_problem_exec(&t, &selected, &request.destination) {
                            Some(e) => TabMove::finish(request, Err(e)),
                            None => {
                                let plans: Vec<TabPlan> = Vec::new();
                                assert(plan_views(plans@) =~= Seq::<PlanView>::empty());
                                TabMove::plan_from(request, t, selected, 0, plans)
                            },
                        },
                    }
                },
                _ => TabMove::finish(request, Err(Failure::new(String::new()))),
            },
            TabPhase::Planning { topology, selected, index, plans } => match reply {
                HerdrReply::Layout(Err(e)) => TabMove::finish(request, Err(e)),
                HerdrReply::Layout(Ok(snapshot)) => {
                    assert(tab_views(selected@)[index as int] == selected@[index as int]@);
                    match plan_tab_exec(&topology, &selected[index], snapshot) {
                        Err(e) => TabMove::finish(request, Err(e)),
                        Ok(plan) => {
                            let mut plans = plans;
                            let ghost before = plans@;
                            plans.push(plan);
                            assert(plan_views(plans@) =~= plan_views(before).push(
                                PlanView { tab_id: plan.tab_id@, label: plan.label@, root: plan.root, pane_count: plan.pane_count as int },
                            ));
                            let n = selected.len();
                            TabMove::plan_from(request, topology, selected, index + 1, plans)
                        },
                    }
                },
                _ => TabMove::finish(request, Err(Failure::new(String::new()))),
            },
            TabPhase::First { plans, index, known_workspace, known_first_tab, moved } => {
                let ghost pv = plan_views(plans@);
                assert(pv[index as int].root == plans@[index as int].root);
                assert(pv[index as int].tab_id == plans@[index as int].tab_id@);
                match reply {
                    HerdrReply::Moved(Err(e)) => {
                        let text = if moved == 0 {
                            let mut m = "could not start moving tab 1/".to_owned();
                            m.append(decimal_text(plans.len()).as_str());
                            m.append(" (");
                            m.append(plans[index].tab_id.as_str());
                            m.append("): ");
                            m.append(e.message.as_str());
                            m
                        } else {
                            tab_batch_text(index, plans.len(), moved, total_panes(&plans), &e.message)
                        };
                        TabMove::finish(request, Err(Failure::new(text)))
                    },
                    HerdrReply::Moved(Ok(f)) => {
                        let unexpected = match &known_workspace {
                            Some(w) => f.workspace_id != *w,
                            None => false,
                        };
                        if unexpected {
                            let cause = "Herdr returned an unexpected destination workspace".to_owned();
                            let text = tab_batch_text(index, plans.len(), moved.saturating_add(1), total_panes(&plans), &cause);
                            return TabMove::finish(request, Err(Failure::new(text)));
                        }
                        let workspace = match known_workspace {
                            Some(w) => w,
                            None => f.workspace_id.clone(),
                        };
                        let first_tab = match known_first_tab {
                            Some(t) => t,
                            None => f.tab_id.clone(),
                        };
                        let anchor = plans[index].root.anchor().to_owned();
                        let ghost anchor_view = anchor@;
                        let ghost pane_view = f.pane_id@;
                        let mut placed: Vec<(String, String)> = Vec::new();
                        placed.push((anchor, f.pane_id));
                        assert(pair_views(placed@).drop_last() =~= Seq::<(Seq<char>, Seq<char>)>::empty());
                        assert(pair_views(placed@).last() == (anchor_view, pane_view));
                        assert(pairs_map(Seq::<(Seq<char>, Seq<char>)>::empty()) == Map::<Seq<char>, Seq<char>>::empty());
                        assert(pairs_map(pair_views(placed@)) =~= Map::<Seq<char>, Seq<char>>::empty().insert(
                            anchor_of(plans@[index as int].root),
                            pane_view,
                        ));
                        proof {
                            lemma_placements_count(plans@[index as int].root);
                        }
                        TabMove::place_from(request, plans, index, workspace, first_tab, moved, f.tab_id, 0, placed, 1)
                    },
                    _ => TabMove::finish(request, Err(Failure::new(String::new()))),
                }
            },
            TabPhase::Placing { plans, index, workspace, first_tab, moved, tab, step, placed, moved_in_tab } => {
                let ghost pv = plan_views(plans@);
                assert(pv[index as int].root == plans@[index as int].root);
                match reply {
                    HerdrReply::Moved(Err(e)) => {
                        let text = tab_batch_text(index, plans.len(), moved.saturating_add(moved_in_tab), total_panes(&plans), &e.message);
                        TabMove::finish(request, Err(Failure::new(text)))
                    },
                    HerdrReply::Moved(Ok(m)) => {
                        let steps = placements_of(&plans[index].root);
                        proof {
                            lemma_placements_count(plans@[index as int].root);
                            assert(pv[index as int].pane_count == leaf_ids(pv[index as int].root).len());
                        }
                        assert(placement_views(steps@)[step as int].second_anchor == steps@[step as int].second_anchor@);
                        let mut placed = placed;
                        let ghost before = placed@;
                        placed.push((steps[step].second_anchor.clone(), m.pane_id));
                        assert(pair_views(placed@).drop_last() =~= pair_views(before));
                        let next_count = moved_in_tab + 1;
                        TabMove::place_from(request, plans, index, workspace, first_tab, moved, tab, step + 1, placed, next_count)
                    },
                    _ => TabMove::finish(request, Err(Failure::new(String::new()))),
                }
            },
            TabPhase::FocusWorkspace { plans, workspace, first_tab, moved } => match reply {
                HerdrReply::Focused(Err(e)) => {
                    let mut m = decimal_text(plans.len());
                    m.append(" tabs moved, but the destination workspace could not be focused: ");
                    m.append(e.message.as_str());
                    TabMove::finish(request, Err(Failure::new(m)))
                },
                HerdrReply::Focused(Ok(())) => {
                    let call = HerdrCall::FocusTab { tab_id: first_tab.clone() };
                    (TabMove { request, phase: TabPhase::FocusTab { plans, workspace, first_tab, moved } }, Step::Call(call))
                },
                _ => TabMove::finish(request, Err(Failure::new(String::new()))),
            },
            TabPhase::FocusTab { plans, workspace, first_tab, moved } => match reply {
                HerdrReply::Focused(Err(e)) => {
                    let mut m = decimal_text(plans.len());
                    m.append(" tabs moved, but the first moved tab could not be focused: ");
                    m.append(e.message.as_str());
                    TabMove::finish(request, Err(Failure::new(m)))
                },
                HerdrReply::Focused(Ok(())) => {
                    let ghost pv = plan_views(plans@);
                    assert(pv[0].label == plans@[0].label@);
                    let message = if plans.len() == 1 {
                        let mut m = "Tab “".to_owned();
                        m.append(plans[0].label.as_str());
                        m.append("” moved to ");
                        m.append(workspace.as_str());
                        m
                    } else {
                        let mut m = decimal_text(plans.len());
                        m.append(" tabs moved to ");
                        m.append(workspace.as_str());
                        m
                    };
                    let summary = MoveSummary {
                        message,
                        moved_panes: moved,
                        moved_tabs: plans.len(),
                        destination_workspace_id: workspace,
                        destination_tab_id: first_tab,
                    };
                    TabMove::finish(request, Ok(summary))
                },
                _ => TabMove::finish(request, Err(Failure::new(String::new()))),
            },
            TabPhase::Done => TabMove::finish(request, Err(Failure::new(String::new()))),
        }
    }
}

// ---------------------------------------------------------------------------
// Laws of the moves.

/// Whether Herdr answered with an error.
pub open spec fn reply_failed(reply: ReplyView) -> bool {
    match reply {
        ReplyView::Topology(r) => r is Err,
        ReplyView::Layout(r) => r is Err,
        ReplyView::Moved(r) => r is Err,
        ReplyView::Focused(r) => r is Err,
    }
}

/// Any error from Herdr ends a pane move at once: it reports the failure and makes no
/// further call, so nothing is undone; once a pane has moved, the report says how many
/// of the selected panes had moved.
pub proof fn lemma_pane_failure_ends_the_move(s: PaneMoveView, reply: ReplyView, later: ReplyView)
    requires
        pane_move_awaits(s, reply),
        reply_failed(reply),
    ensures
        pane_move_next(s, reply).1 is Finish,
        pane_move_next(s, reply).1->Finish_0 is Err,
        !pane_move_awaits(pane_move_next(s, reply).0, later),
        s.phase is Moving && s.phase->Moving_index > 0 ==> (reply matches ReplyView::Moved(Err(e))
            && pane_move_next(s, reply).1 == fail(
            pane_batch_message(
                s.phase->Moving_index,
                s.request.sources.len() as int,
                s.request.sources[s.phase->Moving_index].pane_id,
                e,
            ),
        )),
{
}

/// A pane move succeeds only once the destination tab has been focused, and then reports
/// every selected pane as moved.
pub proof fn lemma_pane_success_counts_every_pane(s: PaneMoveView, reply: ReplyView)
    requires
        pane_move_awaits(s, reply),
        s.request.sources.len() <= usize::MAX,
        pane_move_next(s, reply).1 matches StepView::Finish(Ok(_)),
    ensures
        s.phase is FocusTab,
        pane_move_next(s, reply).1->Finish_0->Ok_0.moved_panes == s.request.sources.len(),
{
}

/// Each pane after the first joins the first one's tab next to the pane moved just before
/// it, addressed by the id Herdr returned for that pane.
pub proof fn lemma_pane_follows_returned_ids(s: PaneMoveView, m: MovedView)
    requires
        pane_move_awaits(s, ReplyView::Moved(Ok(m))),
        s.phase matches PanePhaseView::Moving { index, first, .. } && index + 1 < s.request.sources.len() && (
        first matches Some(d) ==> d.tab_id == m.tab_id && d.workspace_id == m.workspace_id),
    ensures
        pane_move_next(s, ReplyView::Moved(Ok(m))).1 == StepView::Call(CallView::MoveToTab {
            pane_id: s.request.sources[s.phase->Moving_index + 1].pane_id,
            tab_id: m.tab_id,
            direction: s.request.direction,
            target_pane_id: Some(m.pane_id),
            ratio_bits: None,
            focus: false,
        }),
{
}

/// Whether split `k` of `n` is replayed next to a pane that is already in place: the tree's
/// anchor, or the second anchor of an earlier split.
pub open spec fn anchor_available(n: LayoutNode, k: int) -> bool {
    placements(n)[k].anchor == anchor_of(n) || exists|j: int|
        0 <= j < k && (#[trigger] placements(n)[j]).second_anchor == placements(n)[k].anchor
}

/// Replaying the splits in order, each one's anchor is already in place.
pub proof fn lemma_placement_anchors_come_first(n: LayoutNode)
    ensures
        forall|k: int| 0 <= k < placements(n).len() ==> #[trigger] anchor_available(n, k),
    decreases n,
{
    match n {
        LayoutNode::Pane { .. } => {},
        LayoutNode::Split { direction, ratio_bits, first, second } => {
            lemma_placement_anchors_come_first(*first);
            lemma_placement_anchors_come_first(*second);
            let p0 = PlacementView { anchor: anchor_of(*first), second_anchor: anchor_of(*second), direction, ratio_bits };
            let a = placements(*first);
            let b = placements(*second);
            let all = placements(n);
            assert(all == seq![p0] + a + b);
            assert forall|k: int| 0 <= k < all.len() implies #[trigger] anchor_available(n, k) by {
                if k == 0 {
                } else if k < 1 + a.len() {
                    let ka = k - 1;
                    assert(all[k] == a[ka]);
                    assert(anchor_available(*first, ka));
                    if a[ka].anchor != anchor_of(*first) {
                        let j = choose|j: int| 0 <= j < ka && (#[trigger] a[j]).second_anchor == a[ka].anchor;
                        assert(all[j + 1] == a[j]);
                    }
                } else {
                    let kb = k - 1 - a.len();
                    assert(all[k] == b[kb]);
                    assert(anchor_available(*second, kb));
                    if b[kb].anchor == anchor_of(*second) {
                        assert(all[0].second_anchor == b[kb].anchor);
                    } else {
                        let j = choose|j: int| 0 <= j < kb && (#[trigger] b[j]).second_anchor == b[kb].anchor;
                        assert(all[j + 1 + a.len()] == b[j]);
                    }
                }
            }
        },
    }
}

/// What a tab move keeps as it goes: the panes counted as moved are those of the tabs
/// already moved, and every pane that a split is replayed around is already placed.
pub open spec fn tab_progress(s: TabMoveView) -> bool {
    tab_plans_cover(s) && match s.phase {
        TabPhaseView::Planning { plans, .. } => plans_distinct(plans),
        TabPhaseView::First { plans, index, moved, .. } => moved == plan_panes(plans, index) && plans_distinct(plans),
        TabPhaseView::Placing { plans, index, moved, step, placed, .. } => {
            &&& plans_distinct(plans)
            &&& moved == plan_panes(plans, index)
            &&& placed.dom().contains(anchor_of(plans[index].root))
            &&& forall|j: int| 0 <= j < step ==> placed.dom().contains(
                (#[trigger] placements(plans[index].root)[j]).second_anchor,
            )
        },
        TabPhaseView::FocusWorkspace { plans, moved, .. } => moved == plan_panes(plans, plans.len() as int)
            && plans_distinct(plans),
        TabPhaseView::FocusTab { plans, moved, .. } => moved == plan_panes(plans, plans.len() as int)
            && plans_distinct(plans),
        _ => true,
    }
}

/// Whether the plans are those of the selected tabs, in selection order: while planning,
/// those of the tabs checked so far; from the first move on, one for every selected tab.
pub open spec fn tab_plans_cover(s: TabMoveView) -> bool {
    let ids = s.request.tab_ids;
    match s.phase {
        TabPhaseView::Planning { selected, index, plans, .. } => {
            &&& selected.len() == ids.len()
            &&& forall|k: int| 0 <= k < selected.len() ==> (#[trigger] selected[k]).tab_id == ids[k]
            &&& plans.len() == index
            &&& forall|k: int| 0 <= k < plans.len() ==> (#[trigger] plans[k]).tab_id == ids[k]
        },
        TabPhaseView::First { plans, .. } => plans_for(plans, ids),
        TabPhaseView::Placing { plans, .. } => plans_for(plans, ids),
        TabPhaseView::FocusWorkspace { plans, .. } => plans_for(plans, ids),
        TabPhaseView::FocusTab { plans, .. } => plans_for(plans, ids),
        _ => true,
    }
}

/// Whether `plans` holds one plan for each of `ids`, in order.
pub open spec fn plans_for(plans: Seq<PlanView>, ids: Seq<Seq<char>>) -> bool {
    plans.len() == ids.len() && forall|k: int| 0 <= k < plans.len() ==> (#[trigger] plans[k]).tab_id == ids[k]
}

proof fn lemma_check_tabs_ok(t: TopologyView, ids: Seq<Seq<char>>, k: int)
    requires
        0 <= k <= ids.len(),
    ensures
        check_tabs(t, ids, k) matches Ok(selected) ==> selected.len() == k && forall|j: int|
            0 <= j < k ==> (#[trigger] selected[j]).tab_id == ids[j],
    decreases k,
{
    if k > 0 {
        lemma_check_tabs_ok(t, ids, k - 1);
        lemma_tab_with_id(t.tabs, ids[k - 1], 0);
        if let Ok(selected) = check_tabs(t, ids, k) {
            let before = check_tabs(t, ids, k - 1)->Ok_0;
            assert forall|j: int| 0 <= j < k implies (#[trigger] selected[j]).tab_id == ids[j] by {
                if j < k - 1 {
                    assert(selected[j] == before[j]);
                }
            }
        }
    }
}

/// Every planned tree names each pane once: each tab's layout was checked against
/// the panes Herdr lists in it before anything moved.
pub open spec fn plans_distinct(plans: Seq<PlanView>) -> bool {
    forall|i: int| 0 <= i < plans.len() ==> leaf_ids((#[trigger] plans[i]).root).no_duplicates()
}

proof fn lemma_tab_plan_from_progress(req: MoveTabView, t: TopologyView, selected: Seq<TabView>, i: int, plans: Seq<PlanView>)
    requires
        plans_distinct(plans),
        0 <= i <= selected.len(),
        plans.len() == i,
        selected.len() == req.tab_ids.len(),
        forall|k: int| 0 <= k < selected.len() ==> (#[trigger] selected[k]).tab_id == req.tab_ids[k],
        forall|k: int| 0 <= k < plans.len() ==> (#[trigger] plans[k]).tab_id == req.tab_ids[k],
    ensures
        tab_progress(tab_plan_from(req, t, selected, i, plans).0),
{
}

proof fn lemma_tab_place_from_progress(
    req: MoveTabView,
    plans: Seq<PlanView>,
    i: int,
    workspace: Seq<char>,
    first_tab: Seq<char>,
    moved: int,
    tab: Seq<char>,
    k: int,
    placed: Map<Seq<char>, Seq<char>>,
)
    requires
        0 <= i < plans.len(),
        plans_wf(plans),
        plans_distinct(plans),
        plans_for(plans, req.tab_ids),
        0 <= k <= placements(plans[i].root).len(),
        moved == plan_panes(plans, i),
        placed.dom().contains(anchor_of(plans[i].root)),
        forall|j: int| 0 <= j < k ==> placed.dom().contains((#[trigger] placements(plans[i].root)[j]).second_anchor),
    ensures
        tab_progress(tab_place_from(req, plans, i, workspace, first_tab, moved, tab, k, placed, k + 1).0),
        tab_place_from(req, plans, i, workspace, first_tab, moved, tab, k, placed, k + 1).1 is Call,
{
    let root = plans[i].root;
    let steps = placements(root);
    lemma_placements_count(root);
    lemma_placement_anchors_come_first(root);
    if k < steps.len() {
        assert(anchor_available(root, k));
    } else {
        assert(plans[i].pane_count == k + 1);
        assert(plan_panes(plans, i + 1) == sat_sum(plan_panes(plans, i), plans[i].pane_count));
    }
}

/// Every step of a tab move keeps `tab_progress`.
pub proof fn lemma_tab_progress_kept(s: TabMoveView, reply: ReplyView)
    requires
        tab_move_awaits(s, reply),
        tab_progress(s),
    ensures
        tab_progress(tab_move_next(s, reply).0),
{
    let req = s.request;
    match (s.phase, reply) {
        (TabPhaseView::Topology, ReplyView::Topology(Ok(t))) => {
            lemma_check_tabs_ok(t, req.tab_ids, req.tab_ids.len() as int);
            if let Ok(selected) = check_tabs(t, req.tab_ids, req.tab_ids.len() as int) {
                lemma_tab_plan_from_progress(req, t, selected, 0, Seq::empty());
            }
        },
        (TabPhaseView::Planning { topology, selected, index, plans }, ReplyView::Layout(Ok(snapshot))) => {
            if let Ok(plan) = plan_tab(topology, selected[index], snapshot) {
                let more = plans.push(plan);
                assert forall|i: int| 0 <= i < more.len() implies leaf_ids((#[trigger] more[i]).root).no_duplicates() by {
                    if i < plans.len() {
                        assert(more[i] == plans[i]);
                    }
                }
                assert forall|k: int| 0 <= k < more.len() implies (#[trigger] more[k]).tab_id == req.tab_ids[k] by {
                    if k < plans.len() {
                        assert(more[k] == plans[k]);
                    } else {
                        assert(selected[index].tab_id == req.tab_ids[index]);
                    }
                }
                lemma_tab_plan_from_progress(req, topology, selected, index + 1, more);
            }
        },
        (TabPhaseView::First { plans, index, known_workspace, known_first_tab, moved }, ReplyView::Moved(Ok(f))) => {
            let placed = Map::<Seq<char>, Seq<char>>::empty().insert(anchor_of(plans[index].root), f.pane_id);
            lemma_tab_place_from_progress(
                req,
                plans,
                index,
                match known_workspace { Some(w) => w, None => f.workspace_id },
                match known_first_tab { Some(ft) => ft, None => f.tab_id },
                moved,
                f.tab_id,
                0,
                placed,
            );
        },
        (
            TabPhaseView::Placing { plans, index, workspace, first_tab, moved, tab, step, placed, moved_in_tab },
            ReplyView::Moved(Ok(m)),
        ) => {
            let root = plans[index].root;
            let placed2 = placed.insert(placements(root)[step].second_anchor, m.pane_id);
            assert forall|j: int| 0 <= j < step + 1 implies placed2.dom().contains(
                (#[trigger] placements(root)[j]).second_anchor,
            ) by {
                if j < step {
                    assert(placed.dom().contains(placements(root)[j].second_anchor));
                }
            }
            lemma_tab_place_from_progress(req, plans, index, workspace, first_tab, moved, tab, step + 1, placed2);
        },
        _ => {},
    }
}

/// A tab move starts in a state that keeps `tab_progress`.
pub proof fn lemma_tab_progress_at_start(req: MoveTabView)
    ensures
        tab_progress(tab_move_start(req).0),
{
}

/// Once a pane of a tab has moved, each successful move goes on with the next call: the
/// replay never lacks the pane a split is replayed around.
pub proof fn lemma_tab_replay_never_misses_an_anchor(s: TabMoveView, m: MovedView)
    requires
        tab_move_awaits(s, ReplyView::Moved(Ok(m))),
        tab_progress(s),
        s.phase matches TabPhaseView::First { known_workspace, .. } ==> (known_workspace matches Some(w)
            ==> w == m.workspace_id),
    ensures
        tab_move_next(s, ReplyView::Moved(Ok(m))).1 is Call,
{
    let req = s.request;
    match s.phase {
        TabPhaseView::First { plans, index, known_workspace, known_first_tab, moved } => {
            let placed = Map::<Seq<char>, Seq<char>>::empty().insert(anchor_of(plans[index].root), m.pane_id);
            lemma_tab_place_from_progress(
                req,
                plans,
                index,
                match known_workspace { Some(w) => w, None => m.workspace_id },
                match known_first_tab { Some(ft) => ft, None => m.tab_id },
                moved,
                m.tab_id,
                0,
                placed,
            );
        },
        TabPhaseView::Placing { plans, index, workspace, first_tab, moved, tab, step, placed, moved_in_tab } => {
            let root = plans[index].root;
            let placed2 = placed.insert(placements(root)[step].second_anchor, m.pane_id);
            assert forall|j: int| 0 <= j < step + 1 implies placed2.dom().contains(
                (#[trigger] placements(root)[j]).second_anchor,
            ) by {
                if j < step {
                    assert(placed.dom().contains(placements(root)[j].second_anchor));
                }
            }
            lemma_tab_place_from_progress(req, plans, index, workspace, first_tab, moved, tab, step + 1, placed2);
        },
        _ => {},
    }
}

/// A tab move succeeds only once the first moved tab has been focused, and then reports
/// every tab and all of their panes (counted up to `usize::MAX`) as moved.
pub proof fn lemma_tab_success_counts_every_pane(s: TabMoveView, reply: ReplyView)
    requires
        tab_move_awaits(s, reply),
        tab_progress(s),
        tab_move_next(s, reply).1 matches StepView::Finish(Ok(_)),
    ensures
        s.phase is FocusTab,
        ({
            let plans = s.phase->FocusTab_plans;
            let summary = tab_move_next(s, reply).1->Finish_0->Ok_0;
            &&& summary.moved_panes == plan_panes(plans, plans.len() as int)
            &&& summary.moved_tabs == plans.len() as usize
        }),
{
}

/// Any error from Herdr ends a tab move at once with a failure and no further call, so
/// nothing is undone; once a pane of a tab has moved, the report gives how many tabs and
/// panes had moved.
pub proof fn lemma_tab_failure_ends_the_move(s: TabMoveView, reply: ReplyView, later: ReplyView)
    requires
        tab_move_awaits(s, reply),
        reply_failed(reply),
    ensures
        tab_move_next(s, reply).1 is Finish,
        tab_move_next(s, reply).1->Finish_0 is Err,
        !tab_move_awaits(tab_move_next(s, reply).0, later),
        s.phase is Placing ==> (reply matches ReplyView::Moved(Err(e)) && tab_move_next(s, reply).1 == fail(
            tab_batch_message(
                s.phase->Placing_index,
                s.phase->Placing_plans.len() as int,
                sat_sum(s.phase->Placing_moved, s.phase->Placing_moved_in_tab),
                plan_panes(s.phase->Placing_plans, s.phase->Placing_plans.len() as int),
                e,
            ),
        )),
{
}

/// The panes that replaying a tree moves, in order: its anchor first, then the second
/// anchor of each split.
pub open spec fn replay_moves(n: LayoutNode) -> Seq<Seq<char>> {
    seq![anchor_of(n)] + placements(n).map_values(|p: PlacementView| p.second_anchor)
}

/// Replaying a tab's tree moves each of its panes as often as it is a leaf: once each, for
/// a tab whose panes are distinct.
pub proof fn lemma_replay_moves_every_pane_once(n: LayoutNode)
    ensures
        replay_moves(n).to_multiset() == leaf_ids(n).to_multiset(),
    decreases n,
{
    broadcast use vstd::seq_lib::lemma_multiset_commutative;
    match n {
        LayoutNode::Pane { pane_id } => {
            assert(replay_moves(n) =~= seq![pane_id@]);
        },
        LayoutNode::Split { direction, ratio_bits, first, second } => {
            lemma_replay_moves_every_pane_once(*first);
            lemma_replay_moves_every_pane_once(*second);
            let af = anchor_of(*first);
            let ag = anchor_of(*second);
            let sf = placements(*first).map_values(|p: PlacementView| p.second_anchor);
            let sg = placements(*second).map_values(|p: PlacementView| p.second_anchor);
            let p0 = PlacementView { anchor: af, second_anchor: ag, direction, ratio_bits };
            assert(placements(n) == seq![p0] + placements(*first) + placements(*second));
            assert(replay_moves(n) =~= seq![af] + seq![ag] + sf + sg);
            assert(replay_moves(*first) =~= seq![af] + sf);
            assert(replay_moves(*second) =~= seq![ag] + sg);
            assert((seq![af] + seq![ag] + sf + sg).to_multiset() =~= (seq![af] + sf).to_multiset().add(
                (seq![ag] + sg).to_multiset(),
            ));
        },
    }
}

/// The pane that a move call moves.
pub open spec fn moved_by(c: CallView) -> Option<Seq<char>> {
    match c {
        CallView::MoveToTab { pane_id, .. } => Some(pane_id),
        CallView::MoveToNewTab { pane_id, .. } => Some(pane_id),
        CallView::MoveToNewWorkspace { pane_id, .. } => Some(pane_id),
        _ => None,
    }
}

/// Whether state `s`, just entered with `step`, asks to move the pane that comes next in
/// the replay of the tab being moved.
pub open spec fn moves_in_replay_order(s: TabMoveView, step: StepView) -> bool {
    &&& s.phase is First ==> (step is Call && moved_by(step->Call_0) == Some(
        replay_moves(s.phase->First_plans[s.phase->First_index].root)[0],
    ))
    &&& s.phase is Placing ==> (step is Call && moved_by(step->Call_0) == Some(
        replay_moves(s.phase->Placing_plans[s.phase->Placing_index].root)[s.phase->Placing_step + 1],
    ))
    &&& (step is Call && moved_by(step->Call_0) is Some) ==> (s.phase is First || s.phase is Placing)
}

proof fn lemma_tab_moves_from_order(
    req: MoveTabView,
    plans: Seq<PlanView>,
    i: int,
    workspace: Option<Seq<char>>,
    first_tab: Option<Seq<char>>,
    moved: int,
)
    ensures
        ({
            let (t, step) = tab_moves_from(req, plans, i, workspace, first_tab, moved);
            moves_in_replay_order(t, step)
        }),
{
}

proof fn lemma_tab_place_from_order(
    req: MoveTabView,
    plans: Seq<PlanView>,
    i: int,
    workspace: Seq<char>,
    first_tab: Seq<char>,
    moved: int,
    tab: Seq<char>,
    k: int,
    placed: Map<Seq<char>, Seq<char>>,
    moved_in_tab: int,
)
    requires
        0 <= k,
    ensures
        ({
            let (t, step) = tab_place_from(req, plans, i, workspace, first_tab, moved, tab, k, placed, moved_in_tab);
            moves_in_replay_order(t, step)
        }),
{
    lemma_tab_moves_from_order(req, plans, i + 1, Some(workspace), Some(first_tab), sat_sum(moved, moved_in_tab));
    let steps = placements(plans[i].root);
    if k < steps.len() {
        assert(replay_moves(plans[i].root)[k + 1] == steps[k].second_anchor);
    }
}

proof fn lemma_tab_plan_from_order(req: MoveTabView, t: TopologyView, selected: Seq<TabView>, i: int, plans: Seq<PlanView>)
    ensures
        ({
            let (s, step) = tab_plan_from(req, t, selected, i, plans);
            moves_in_replay_order(s, step)
        }),
{
    lemma_tab_moves_from_order(req, plans, 0, initial_workspace(req.destination), None, 0);
}

/// A tab move moves the panes of each tab in the order of its replay: the tree's anchor
/// into a new tab, then the second pane of each split next to its anchor.
pub proof fn lemma_tab_moves_follow_the_replay(s: TabMoveView, reply: ReplyView)
    requires
        tab_move_awaits(s, reply),
    ensures
        moves_in_replay_order(tab_move_next(s, reply).0, tab_move_next(s, reply).1),
{
    let req = s.request;
    match (s.phase, reply) {
        (TabPhaseView::Topology, ReplyView::Topology(Ok(t))) => {
            if let Ok(selected) = check_tabs(t, req.tab_ids, req.tab_ids.len() as int) {
                lemma_tab_plan_from_order(req, t, selected, 0, Seq::empty());
            }
        },
        (TabPhaseView::Planning { topology, selected, index, plans }, ReplyView::Layout(Ok(snapshot))) => {
            if let Ok(plan) = plan_tab(topology, selected[index], snapshot) {
                lemma_tab_plan_from_order(req, topology, selected, index + 1, plans.push(plan));
            }
        },
        (TabPhaseView::First { plans, index, known_workspace, known_first_tab, moved }, ReplyView::Moved(Ok(f))) => {
            lemma_tab_place_from_order(
                req,
                plans,
                index,
                match known_workspace { Some(w) => w, None => f.workspace_id },
                match known_first_tab { Some(ft) => ft, None => f.tab_id },
                moved,
                f.tab_id,
                0,
                Map::empty().insert(anchor_of(plans[index].root), f.pane_id),
                1,
            );
        },
        (
            TabPhaseView::Placing { plans, index, workspace, first_tab, moved, tab, step, placed, moved_in_tab },
            ReplyView::Moved(Ok(m)),
        ) => {
            lemma_tab_place_from_order(
                req,
                plans,
                index,
                workspace,
                first_tab,
                moved,
                tab,
                step + 1,
                placed.insert(placements(plans[index].root)[step].second_anchor, m.pane_id),
                moved_in_tab + 1,
            );
        },
        _ => {},
    }
}

/// No pane moves before every selected tab has been checked against the topology and its
/// layout planned: each move is asked for with one plan per selected tab, in selection
/// order.
pub proof fn lemma_tabs_checked_before_any_move(s: TabMoveView, reply: ReplyView)
    requires
        tab_move_awaits(s, reply),
        tab_progress(s),
    ensures
        ({
            let (next, step) = tab_move_next(s, reply);
            (step is Call && moved_by(step->Call_0) is Some) ==> (next.phase is First || next.phase is Placing)
                && tab_progress(next) && tab_plans_cover(next)
        }),
{
    lemma_tab_moves_follow_the_replay(s, reply);
    lemma_tab_progress_kept(s, reply);
}

/// Whether pane-move state `s`, just entered with `step`, moves the selected pane it has
/// reached, and only then.
pub open spec fn moves_in_selection_order(s: PaneMoveView, step: StepView) -> bool {
    &&& (step is Call && moved_by(step->Call_0) is Some) ==> s.phase is Moving
    &&& s.phase is Moving ==> (step is Call && moved_by(step->Call_0) == Some(
        s.request.sources[s.phase->Moving_index].pane_id,
    ))
}

proof fn lemma_pane_zoom_from_order(req: MovePaneView, t: TopologyView, checks: Seq<(Seq<char>, bool)>, i: int)
    ensures
        ({
            let (s, step) = pane_zoom_from(req, t, checks, i);
            moves_in_selection_order(s, step)
        }),
{
}

/// A pane move moves the selected panes one after another, in selection order, and only
/// once every check on the topology and on the tabs involved has passed; it focuses the
/// destination only once the last selected pane has moved.
pub proof fn lemma_pane_moves_in_selection_order(s: PaneMoveView, reply: ReplyView)
    requires
        pane_move_awaits(s, reply),
    ensures
        moves_in_selection_order(pane_move_next(s, reply).0, pane_move_next(s, reply).1),
        pane_move_next(s, reply).1 matches StepView::Call(CallView::FocusWorkspace { .. }) ==> s.phase is Moving
            && s.phase->Moving_index + 1 == s.request.sources.len(),
{
    let req = s.request;
    match (s.phase, reply) {
        (PanePhaseView::Topology, ReplyView::Topology(Ok(t))) => {
            if let Ok(tabs) = check_sources(t, req.sources, req.sources.len() as int) {
                lemma_pane_zoom_from_order(req, t, zoom_checks(tabs, req.destination), 0);
            }
        },
        (PanePhaseView::Zoom { topology, checks, index }, ReplyView::Layout(Ok(snapshot))) => {
            lemma_pane_zoom_from_order(req, topology, checks, index + 1);
        },
        _ => {},
    }
}

proof fn lemma_tab_place_from_focus(
    req: MoveTabView,
    plans: Seq<PlanView>,
    i: int,
    workspace: Seq<char>,
    first_tab: Seq<char>,
    moved: int,
    tab: Seq<char>,
    k: int,
    placed: Map<Seq<char>, Seq<char>>,
    moved_in_tab: int,
)
    requires
        0 <= i < plans.len(),
    ensures
        tab_place_from(req, plans, i, workspace, first_tab, moved, tab, k, placed, moved_in_tab).1 matches StepView::Call(
            CallView::FocusWorkspace { .. },
        ) ==> i + 1 == plans.len(),
{
}

/// A tab move focuses the destination only once the last pane of the last selected tab
/// has moved.
pub proof fn lemma_tab_focuses_after_the_last_tab(s: TabMoveView, reply: ReplyView)
    requires
        tab_move_awaits(s, reply),
    ensures
        tab_move_next(s, reply).1 matches StepView::Call(CallView::FocusWorkspace { .. }) ==> ({
            ||| s.phase matches TabPhaseView::First { plans, index, .. } && index + 1 == plans.len()
                && placements(plans[index].root).len() == 0
            ||| s.phase matches TabPhaseView::Placing { plans, index, step, .. } && index + 1 == plans.len()
                && step + 1 == placements(plans[index].root).len()
        }),
{
    let req = s.request;
    match (s.phase, reply) {
        (TabPhaseView::First { plans, index, known_workspace, known_first_tab, moved }, ReplyView::Moved(Ok(f))) => {
            lemma_tab_place_from_focus(
                req,
                plans,
                index,
                match known_workspace { Some(w) => w, None => f.workspace_id },
                match known_first_tab { Some(ft) => ft, None => f.tab_id },
                moved,
                f.tab_id,
                0,
                Map::empty().insert(anchor_of(plans[index].root), f.pane_id),
                1,
            );
        },
        (
            TabPhaseView::Placing { plans, index, workspace, first_tab, moved, tab, step, placed, moved_in_tab },
            ReplyView::Moved(Ok(m)),
        ) => {
            lemma_tab_place_from_focus(
                req,
                plans,
                index,
                workspace,
                first_tab,
                moved,
                tab,
                step + 1,
                placed.insert(placements(plans[index].root)[step].second_anchor, m.pane_id),
                moved_in_tab + 1,
            );
        },
        _ => {},
    }
}

// ---------------------------------------------------------------------------
// Whole runs of a move, over any sequence of answers from Herdr.

/// The moves Herdr reported as done among `replies`, in order.
pub open spec fn ok_moves(replies: Seq<ReplyView>) -> Seq<MovedView>
    decreases replies.len(),
{
    if replies.len() == 0 {
        Seq::empty()
    } else {
        let before = ok_moves(replies.drop_last());
        match replies.last() {
            ReplyView::Moved(Ok(m)) => before.push(m),
            _ => before,
        }
    }
}

/// The states and steps of a pane move as Herdr answers `replies` in turn: its start, then
/// one entry per answer, as long as each answers the call asked just before it.
pub open spec fn pane_run(req: MovePaneView, replies: Seq<ReplyView>) -> Seq<(PaneMoveView, StepView)>
    decreases replies.len(),
{
    if replies.len() == 0 {
        seq![pane_move_start(req)]
    } else {
        let before = pane_run(req, replies.drop_last());
        if before.len() == replies.len() && pane_move_awaits(before.last().0, replies.last()) {
            before.push(pane_move_next(before.last().0, replies.last()))
        } else {
            before
        }
    }
}

/// Whether the layout Herdr answered passes the check that a tab (`check.0`) is still that
/// tab and is not zoomed.
pub open spec fn zoom_passed(reply: ReplyView, check: (Seq<char>, bool)) -> bool {
    reply matches ReplyView::Layout(Ok(snapshot)) && snapshot.tab_id@ == check.0 && !snapshot.zoomed
}

/// Whether the first answers in `seen` pass every check a pane move makes before it moves
/// anything: the topology answer lists every selected pane once, in the tab it was
/// selected in, the destination can take them, and no tab involved is zoomed or changed.
pub open spec fn pane_checks_passed(req: MovePaneView, seen: Seq<ReplyView>) -> bool {
    &&& seen.len() >= 1
    &&& seen[0] is Topology
    &&& seen[0]->Topology_0 is Ok
    &&& {
        let t = seen[0]->Topology_0->Ok_0;
        &&& check_sources(t, req.sources, req.sources.len() as int) is Ok
        &&& {
            let tabs = check_sources(t, req.sources, req.sources.len() as int)->Ok_0;
            let checks = zoom_checks(tabs, req.destination);
            &&& destination_problem(t, tabs, req.destination) is None
            &&& seen.len() > checks.len()
            &&& forall|j: int| 0 <= j < checks.len() ==> zoom_passed(#[trigger] seen[j + 1], checks[j])
        }
    }
}

/// Whether Herdr answered that a focus was done.
pub open spec fn focused_ok(reply: ReplyView) -> bool {
    reply is Focused && reply->Focused_0 is Ok
}

/// What a pane move in state `s`, having taken the answers `seen`, holds of them.
pub open spec fn pane_run_inv(req: MovePaneView, seen: Seq<ReplyView>, s: PaneMoveView, step: StepView) -> bool {
    let n = req.sources.len() as int;
    let ok = ok_moves(seen);
    &&& s.request == req
    &&& step is Finish ==> s.phase is Done
    &&& match s.phase {
        PanePhaseView::Topology => seen.len() == 0 && step == StepView::Call(CallView::Topology),
        PanePhaseView::Zoom { topology, checks, index } => {
            &&& seen.len() == index + 1
            &&& seen[0] == ReplyView::Topology(Ok(topology))
            &&& check_sources(topology, req.sources, n) is Ok
            &&& destination_problem(topology, check_sources(topology, req.sources, n)->Ok_0, req.destination) is None
            &&& checks == zoom_checks(check_sources(topology, req.sources, n)->Ok_0, req.destination)
            &&& forall|j: int| 0 <= j < index ==> zoom_passed(#[trigger] seen[j + 1], checks[j])
            &&& ok.len() == 0
            &&& step is Call && step->Call_0 is Layout
        },
        PanePhaseView::Moving { index, first, previous } => {
            &&& pane_checks_passed(req, seen)
            &&& ok.len() == index
            &&& index == 0 ==> first is None && previous is None
            &&& index > 0 ==> first == Some(ok[0]) && previous == Some(ok[index - 1].pane_id)
            &&& forall|i: int| 0 <= i < ok.len() ==> (#[trigger] ok[i]).tab_id == ok[0].tab_id && ok[i].workspace_id
                == ok[0].workspace_id
            &&& step == StepView::Call(pane_move_call(req, index, first, previous))
        },
        PanePhaseView::FocusWorkspace { destination } => {
            &&& pane_checks_passed(req, seen)
            &&& ok.len() == n && n > 0
            &&& destination == ok[0]
            &&& forall|i: int| 0 <= i < ok.len() ==> (#[trigger] ok[i]).tab_id == ok[0].tab_id && ok[i].workspace_id
                == ok[0].workspace_id
            &&& step == StepView::Call(CallView::FocusWorkspace { workspace_id: destination.workspace_id })
        },
        PanePhaseView::FocusTab { destination } => {
            &&& pane_checks_passed(req, seen)
            &&& ok.len() == n && n > 0
            &&& destination == ok[0]
            &&& forall|i: int| 0 <= i < ok.len() ==> (#[trigger] ok[i]).tab_id == ok[0].tab_id && ok[i].workspace_id
                == ok[0].workspace_id
            &&& focused_ok(seen.last())
            &&& step == StepView::Call(CallView::FocusTab { tab_id: destination.tab_id })
        },
        PanePhaseView::Done => step is Finish,
    }
}

proof fn lemma_checks_passed_extend(req: MovePaneView, seen: Seq<ReplyView>, r: ReplyView)
    requires
        pane_checks_passed(req, seen),
    ensures
        pane_checks_passed(req, seen.push(r)),
{
    let t = seen[0]->Topology_0->Ok_0;
    let tabs = check_sources(t, req.sources, req.sources.len() as int)->Ok_0;
    let checks = zoom_checks(tabs, req.destination);
    assert(seen.push(r)[0] == seen[0]);
    assert forall|j: int| 0 <= j < checks.len() implies zoom_passed(#[trigger] seen.push(r)[j + 1], checks[j]) by {
        assert(seen.push(r)[j + 1] == seen[j + 1]);
        assert(zoom_passed(seen[j + 1], checks[j]));
    }
}

proof fn lemma_pane_zoom_from_inv(req: MovePaneView, seen: Seq<ReplyView>, t: TopologyView, i: int)
    requires
        seen.len() == i + 1,
        0 <= i,
        seen[0] == ReplyView::Topology(Ok(t)),
        check_sources(t, req.sources, req.sources.len() as int) is Ok,
        destination_problem(t, check_sources(t, req.sources, req.sources.len() as int)->Ok_0, req.destination) is None,
        ({
            let checks = zoom_checks(check_sources(t, req.sources, req.sources.len() as int)->Ok_0, req.destination);
            i <= checks.len() && forall|j: int| 0 <= j < i ==> zoom_passed(#[trigger] seen[j + 1], checks[j])
        }),
        ok_moves(seen).len() == 0,
    ensures
        ({
            let checks = zoom_checks(check_sources(t, req.sources, req.sources.len() as int)->Ok_0, req.destination);
            let (s, step) = pane_zoom_from(req, t, checks, i);
            pane_run_inv(req, seen, s, step)
        }),
{
}

proof fn lemma_ok_moves_push(seen: Seq<ReplyView>, r: ReplyView)
    ensures
        ok_moves(seen.push(r)) == match r {
            ReplyView::Moved(Ok(m)) => ok_moves(seen).push(m),
            _ => ok_moves(seen),
        },
{
    assert(seen.push(r).drop_last() =~= seen);
}

proof fn lemma_pane_run_step(req: MovePaneView, seen: Seq<ReplyView>, s: PaneMoveView, step: StepView, r: ReplyView)
    requires
        pane_run_inv(req, seen, s, step),
        pane_move_awaits(s, r),
    ensures
        pane_run_inv(req, seen.push(r), pane_move_next(s, r).0, pane_move_next(s, r).1),
        ({
            let next = pane_move_next(s, r);
            let ok = ok_moves(seen.push(r));
            &&& (next.1 is Finish && next.1->Finish_0 is Err && r is Moved && r->Moved_0 is Err && ok.len() > 0)
                ==> next.1 == fail(pane_batch_message(ok.len() as int, req.sources.len() as int, req.sources[ok.len() as int].pane_id, r->Moved_0->Err_0))
            &&& (next.1 is Finish && next.1->Finish_0 is Err && r is Moved && r->Moved_0 is Ok && ok.len() > 1)
                ==> next.1 == fail(pane_batch_message(ok.len() as int, req.sources.len() as int, req.sources[ok.len() - 1].pane_id, "Herdr returned an unexpected destination"@))
        }),
{
    let seen2 = seen.push(r);
    lemma_ok_moves_push(seen, r);
    assert(seen2[0] == seen[0] || seen.len() == 0);
    match (s.phase, r) {
        (PanePhaseView::Topology, ReplyView::Topology(Ok(t))) => {
            assert(seen2[0] == r);
            if let Ok(tabs) = check_sources(t, req.sources, req.sources.len() as int) {
                if destination_problem(t, tabs, req.destination) is None {
                    lemma_pane_zoom_from_inv(req, seen2, t, 0);
                }
            }
        },
        (PanePhaseView::Zoom { topology, checks, index }, ReplyView::Layout(Ok(snapshot))) => {
            assert(seen2[0] == seen[0]);
            if snapshot.tab_id@ == checks[index].0 && !snapshot.zoomed {
                assert forall|j: int| 0 <= j < index + 1 implies zoom_passed(#[trigger] seen2[j + 1], checks[j]) by {
                    if j < index {
                        assert(seen2[j + 1] == seen[j + 1]);
                    } else {
                        assert(seen2[j + 1] == r);
                    }
                }
                lemma_pane_zoom_from_inv(req, seen2, topology, index + 1);
            }
        },
        (PanePhaseView::Moving { index, first, previous }, ReplyView::Moved(Ok(m))) => {
            lemma_checks_passed_extend(req, seen, r);
            let old_ok = ok_moves(seen);
            let ok = ok_moves(seen2);
            assert(ok == old_ok.push(m));
            let fits = match first {
                Some(d) => m.tab_id == d.tab_id && m.workspace_id == d.workspace_id,
                None => true,
            };
            if fits {
                assert forall|i: int| 0 <= i < ok.len() implies (#[trigger] ok[i]).tab_id == ok[0].tab_id
                    && ok[i].workspace_id == ok[0].workspace_id by {
                    if index > 0 {
                        assert(ok[0] == old_ok[0]);
                        if i < ok.len() - 1 {
                            assert(ok[i] == old_ok[i]);
                        }
                    }
                }
            }
        },
        (PanePhaseView::Moving { index, first, previous }, ReplyView::Moved(Err(e))) => {},
        (PanePhaseView::FocusWorkspace { destination }, ReplyView::Focused(Ok(()))) => {
            lemma_checks_passed_extend(req, seen, r);
            assert(seen2.last() == r);
            let next = pane_move_next(s, r);
        },
        _ => {},
    }
}

/// Runs a pane move over `replies` and returns, with the run, what its current state holds.
proof fn lemma_pane_run(req: MovePaneView, replies: Seq<ReplyView>)
    ensures
        ({
            let run = pane_run(req, replies);
            let seen = replies.take(run.len() - 1);
            let ok = ok_moves(seen);
            let (s, step) = run.last();
            &&& 1 <= run.len() <= replies.len() + 1
            &&& pane_run_inv(req, seen, s, step)
            &&& (step is Finish && step->Finish_0 is Err && seen.len() > 0 && seen.last() is Moved && seen.last()->Moved_0 is Err
                && ok.len() > 0) ==> step == fail(pane_batch_message(ok.len() as int, req.sources.len() as int, req.sources[ok.len() as int].pane_id, seen.last()->Moved_0->Err_0))
            &&& (step is Finish && step->Finish_0 is Err && seen.len() > 0 && seen.last() is Moved && seen.last()->Moved_0 is Ok
                && ok.len() > 1) ==> step == fail(pane_batch_message(ok.len() as int, req.sources.len() as int, req.sources[ok.len() - 1].pane_id, "Herdr returned an unexpected destination"@))
            &&& (step is Finish && seen.len() > 0 && seen.last() is Moved && seen.last()->Moved_0 is Err && ok.len() == 0)
                ==> step == fail("could not move pane 1/"@ + decimal(req.sources.len() as nat) + " ("@ + req.sources[0].pane_id
                + "): "@ + seen.last()->Moved_0->Err_0)
        }),
    decreases replies.len(),
{
    if replies.len() == 0 {
        assert(replies.take(0) =~= Seq::<ReplyView>::empty());
    } else {
        let rest = replies.drop_last();
        lemma_pane_run(req, rest);
        let before = pane_run(req, rest);
        let seen = rest.take(before.len() - 1);
        if before.len() == replies.len() && pane_move_awaits(before.last().0, replies.last()) {
            assert(seen =~= rest);
            assert(replies.take(before.len() as int) =~= rest.push(replies.last()));
            lemma_pane_run_step(req, seen, before.last().0, before.last().1, replies.last());
            lemma_ok_moves_push(seen, replies.last());
            assert(rest.push(replies.last()).last() == replies.last());
        } else {
            assert(replies.take(before.len() - 1) =~= seen);
        }
    }
}

/// A pane move checks everything before it moves or focuses anything: whatever Herdr
/// answers, it asks for a move or a focus only once the topology answer lists every
/// selected pane once in the tab it was selected in, the destination can take them, and
/// no tab involved is zoomed or changed; and an empty selection is refused with no call.
pub proof fn lemma_pane_run_checks_before_moving(req: MovePaneView, replies: Seq<ReplyView>)
    ensures
        ({
            let run = pane_run(req, replies);
            let seen = replies.take(run.len() - 1);
            let step = run.last().1;
            (step is Call && (moved_by(step->Call_0) is Some || step->Call_0 is FocusWorkspace
                || step->Call_0 is FocusTab)) ==> pane_checks_passed(req, seen)
        }),
        req.sources.len() == 0 ==> pane_run(req, replies) == seq![
            (pane_state(req, PanePhaseView::Done), fail("select at least one pane"@)),
        ],
    decreases replies.len(),
{
    lemma_pane_run(req, replies);
    if req.sources.len() == 0 && replies.len() > 0 {
        lemma_pane_run_checks_before_moving(req, replies.drop_last());
    }
}

/// A pane move that succeeds has moved every selected pane: Herdr reported one done move
/// per selected pane, all into the tab and workspace of the first, after every check
/// passed; the last two answers were the focus of that workspace and of that tab, and the
/// report names them. Nothing is asked after the end of a move.
pub proof fn lemma_pane_run_success(req: MovePaneView, replies: Seq<ReplyView>, later: ReplyView)
    ensures
        ({
            let run = pane_run(req, replies);
            let seen = replies.take(run.len() - 1);
            let ok = ok_moves(seen);
            let (s, step) = run.last();
            &&& (step is Finish && step->Finish_0 is Ok) ==> {
                &&& pane_checks_passed(req, seen)
                &&& ok.len() == req.sources.len() > 0
                &&& forall|i: int| 0 <= i < ok.len() ==> (#[trigger] ok[i]).tab_id == ok[0].tab_id
                    && ok[i].workspace_id == ok[0].workspace_id
                &&& seen.len() >= 2 && focused_ok(seen.last()) && focused_ok(seen[seen.len() - 2])
                &&& step->Finish_0->Ok_0 == pane_summary(req.sources.len() as int, ok[0])
            }
            &&& step is Finish ==> !pane_move_awaits(s, later)
        }),
{
    lemma_pane_run(req, replies);
    let run = pane_run(req, replies);
    let (s, step) = run.last();
    if step is Finish && step->Finish_0 is Ok && replies.len() > 0 {
        lemma_pane_success_prev(req, replies);
    }
}

proof fn lemma_pane_success_prev(req: MovePaneView, replies: Seq<ReplyView>)
    requires
        replies.len() > 0,
        pane_run(req, replies).last().1 is Finish,
        pane_run(req, replies).last().1->Finish_0 is Ok,
    ensures
        ({
            let run = pane_run(req, replies);
            let seen = replies.take(run.len() - 1);
            let ok = ok_moves(seen);
            &&& pane_checks_passed(req, seen)
            &&& ok.len() == req.sources.len() > 0
            &&& forall|i: int| 0 <= i < ok.len() ==> (#[trigger] ok[i]).tab_id == ok[0].tab_id
                && ok[i].workspace_id == ok[0].workspace_id
            &&& seen.len() >= 2 && focused_ok(seen.last()) && focused_ok(seen[seen.len() - 2])
            &&& run.last().1 == StepView::Finish(Ok(pane_summary(req.sources.len() as int, ok[0])))
        }),
    decreases replies.len(),
{
    let rest = replies.drop_last();
    lemma_pane_run(req, rest);
    let before = pane_run(req, rest);
    if before.len() == replies.len() && pane_move_awaits(before.last().0, replies.last()) {
        let seen = rest.take(before.len() - 1);
        assert(seen =~= rest);
        let r = replies.last();
        lemma_ok_moves_push(seen, r);
        lemma_checks_passed_extend(req, seen, r);
        assert(replies.take(before.len() as int) =~= rest.push(r));
        assert(rest.push(r) =~= replies);
        assert(seen.push(r) =~= replies);
        assert(before.last().0.phase is FocusTab);
        assert(replies.last() == r);
        assert(replies[replies.len() - 2] == seen.last());
    } else {
        assert(replies.take(before.len() - 1) =~= rest.take(before.len() - 1));
        if rest.len() > 0 {
            lemma_pane_success_prev(req, rest);
        }
    }
}

/// While a pane move is under way, the k-th selected pane (k >= 1, from 0) goes into the
/// tab where the first one landed, next to the pane id Herdr returned for the one before.
pub proof fn lemma_pane_run_follows_returned_ids(req: MovePaneView, replies: Seq<ReplyView>)
    ensures
        ({
            let run = pane_run(req, replies);
            let seen = replies.take(run.len() - 1);
            let ok = ok_moves(seen);
            let (s, step) = run.last();
            (s.phase is Moving && s.phase->Moving_index > 0) ==> step == StepView::Call(CallView::MoveToTab {
                pane_id: req.sources[ok.len() as int].pane_id,
                tab_id: ok[0].tab_id,
                direction: req.direction,
                target_pane_id: Some(ok[ok.len() - 1].pane_id),
                ratio_bits: None,
                focus: false,
            })
        }),
{
    lemma_pane_run(req, replies);
}

/// A pane move stopped by Herdr reports which pane it was moving and why: a refused
/// first move names pane 1 of n; after some panes moved, the report counts them: after a
/// refused move, the count of done moves; after a move into an unexpected place, that
/// count including the misplaced pane.
pub proof fn lemma_pane_run_failure_report(req: MovePaneView, replies: Seq<ReplyView>)
    ensures
        ({
            let run = pane_run(req, replies);
            let seen = replies.take(run.len() - 1);
            let ok = ok_moves(seen);
            let step = run.last().1;
            &&& (step is Finish && step->Finish_0 is Err && seen.len() > 0 && seen.last() is Moved && seen.last()->Moved_0 is Err
                && ok.len() > 0) ==> step == fail(pane_batch_message(ok.len() as int, req.sources.len() as int, req.sources[ok.len() as int].pane_id, seen.last()->Moved_0->Err_0))
            &&& (step is Finish && step->Finish_0 is Err && seen.len() > 0 && seen.last() is Moved && seen.last()->Moved_0 is Ok
                && ok.len() > 1) ==> step == fail(pane_batch_message(ok.len() as int, req.sources.len() as int, req.sources[ok.len() - 1].pane_id, "Herdr returned an unexpected destination"@))
            &&& (step is Finish && seen.len() > 0 && seen.last() is Moved && seen.last()->Moved_0 is Err && ok.len() == 0)
                ==> step == fail("could not move pane 1/"@ + decimal(req.sources.len() as nat) + " ("@ + req.sources[0].pane_id
                + "): "@ + seen.last()->Moved_0->Err_0)
        }),
{
    lemma_pane_run(req, replies);
}

/// The states and steps of a tab move as Herdr answers `replies` in turn: its start, then
/// one entry per answer, as long as each answers the call asked just before it.
pub open spec fn tab_run(req: MoveTabView, replies: Seq<ReplyView>) -> Seq<(TabMoveView, StepView)>
    decreases replies.len(),
{
    if replies.len() == 0 {
        seq![tab_move_start(req)]
    } else {
        let before = tab_run(req, replies.drop_last());
        if before.len() == replies.len() && tab_move_awaits(before.last().0, replies.last()) {
            before.push(tab_move_next(before.last().0, replies.last()))
        } else {
            before
        }
    }
}

/// The plans of the first `k` selected tabs from the layouts Herdr answered after the
/// topology (`seen[1..=k]`), or none when one of them does not check out.
pub open spec fn plans_from(t: TopologyView, selected: Seq<TabView>, seen: Seq<ReplyView>, k: int) -> Option<Seq<PlanView>>
    decreases k,
{
    if k <= 0 {
        Some(Seq::empty())
    } else {
        match plans_from(t, selected, seen, k - 1) {
            None => None,
            Some(plans) => if k < seen.len() && seen[k] is Layout && seen[k]->Layout_0 is Ok {
                match plan_tab(t, selected[k - 1], seen[k]->Layout_0->Ok_0) {
                    Ok(plan) => Some(plans.push(plan)),
                    Err(_) => None,
                }
            } else {
                None
            },
        }
    }
}

/// Whether the first answers in `seen` pass every check a tab move makes before it moves
/// anything: the topology answer lists every selected tab once, the destination can take
/// them, and each tab's layout answer is that tab, not zoomed, rebuilds into a split tree
/// whose leaves are exactly the panes listed in it.
pub open spec fn tab_checks_passed(req: MoveTabView, seen: Seq<ReplyView>) -> bool {
    &&& seen.len() >= 1
    &&& seen[0] is Topology
    &&& seen[0]->Topology_0 is Ok
    &&& {
        let t = seen[0]->Topology_0->Ok_0;
        let n = req.tab_ids.len() as int;
        &&& check_tabs(t, req.tab_ids, n) is Ok
        &&& tab_destination_problem(t, check_tabs(t, req.tab_ids, n)->Ok_0, req.destination) is None
        &&& plans_from(t, check_tabs(t, req.tab_ids, n)->Ok_0, seen, n) is Some
    }
}

/// The plans that the checks in `seen` produced.
pub open spec fn checked_plans(req: MoveTabView, seen: Seq<ReplyView>) -> Seq<PlanView> {
    let t = seen[0]->Topology_0->Ok_0;
    let n = req.tab_ids.len() as int;
    plans_from(t, check_tabs(t, req.tab_ids, n)->Ok_0, seen, n)->Some_0
}

/// The panes of the first `n` plans, counted in full.
pub open spec fn plan_panes_exact(plans: Seq<PlanView>, n: int) -> int
    decreases n,
{
    if n <= 0 { 0 } else { plan_panes_exact(plans, n - 1) + plans[n - 1].pane_count }
}

/// What a tab move in state `s`, having taken the answers `seen`, holds of them.
pub open spec fn tab_run_inv(req: MoveTabView, seen: Seq<ReplyView>, s: TabMoveView, step: StepView) -> bool {
    let n = req.tab_ids.len() as int;
    let ok = ok_moves(seen);
    &&& s.request == req
    &&& tab_progress(s)
    &&& step is Finish ==> s.phase is Done
    &&& match s.phase {
        TabPhaseView::Topology => seen.len() == 0 && step == StepView::Call(CallView::Topology),
        TabPhaseView::Planning { topology, selected, index, plans } => {
            &&& seen.len() == index + 1
            &&& seen[0] == ReplyView::Topology(Ok(topology))
            &&& check_tabs(topology, req.tab_ids, n) == Ok::<Seq<TabView>, Seq<char>>(selected)
            &&& tab_destination_problem(topology, selected, req.destination) is None
            &&& plans_from(topology, selected, seen, index) == Some(plans)
            &&& ok.len() == 0
            &&& step is Call && step->Call_0 is Layout
        },
        TabPhaseView::First { plans, index, known_workspace, known_first_tab, .. } => {
            &&& tab_checks_passed(req, seen)
            &&& plans == checked_plans(req, seen)
            &&& ok.len() == plan_panes_exact(plans, index)
            &&& index == 0 ==> known_first_tab is None && known_workspace == initial_workspace(req.destination)
            &&& index > 0 ==> ok.len() > 0 && known_first_tab == Some(ok[0].tab_id) && known_workspace == Some(
                ok[0].workspace_id,
            )
            &&& step == StepView::Call(first_move_call(req, plans[index], known_workspace))
        },
        TabPhaseView::Placing { plans, index, workspace, first_tab, moved_in_tab, step: k, .. } => {
            &&& tab_checks_passed(req, seen)
            &&& plans == checked_plans(req, seen)
            &&& ok.len() == plan_panes_exact(plans, index) + moved_in_tab
            &&& ok.len() > 0 && first_tab == ok[0].tab_id && workspace == ok[0].workspace_id
            &&& step is Call && step->Call_0 is MoveToTab
            &&& 0 <= index < plans.len() && 0 <= k < placements(plans[index].root).len()
            &&& step->Call_0->MoveToTab_pane_id == placements(plans[index].root)[k].second_anchor
            &&& step->Call_0->MoveToTab_direction == placements(plans[index].root)[k].direction
            &&& step->Call_0->MoveToTab_ratio_bits == Some(placements(plans[index].root)[k].ratio_bits)
        },
        TabPhaseView::FocusWorkspace { plans, workspace, first_tab, .. } => {
            &&& tab_checks_passed(req, seen)
            &&& plans == checked_plans(req, seen)
            &&& ok.len() == plan_panes_exact(plans, plans.len() as int)
            &&& ok.len() > 0 && first_tab == ok[0].tab_id && workspace == ok[0].workspace_id
            &&& step == StepView::Call(CallView::FocusWorkspace { workspace_id: workspace })
        },
        TabPhaseView::FocusTab { plans, workspace, first_tab, .. } => {
            &&& tab_checks_passed(req, seen)
            &&& plans == checked_plans(req, seen)
            &&& ok.len() == plan_panes_exact(plans, plans.len() as int)
            &&& ok.len() > 0 && first_tab == ok[0].tab_id && workspace == ok[0].workspace_id
            &&& focused_ok(seen.last())
            &&& step == StepView::Call(CallView::FocusTab { tab_id: first_tab })
        },
        TabPhaseView::Done => step is Finish,
    }
}

proof fn lemma_plans_from_extend(t: TopologyView, selected: Seq<TabView>, seen: Seq<ReplyView>, r: ReplyView, k: int)
    requires
        k < seen.len(),
    ensures
        plans_from(t, selected, seen.push(r), k) == plans_from(t, selected, seen, k),
    decreases k,
{
    if k > 0 {
        lemma_plans_from_extend(t, selected, seen, r, k - 1);
        assert(seen.push(r)[k] == seen[k]);
    }
}

proof fn lemma_tab_checks_extend(req: MoveTabView, seen: Seq<ReplyView>, r: ReplyView)
    requires
        tab_checks_passed(req, seen),
    ensures
        tab_checks_passed(req, seen.push(r)),
        checked_plans(req, seen.push(r)) == checked_plans(req, seen),
{
    let t = seen[0]->Topology_0->Ok_0;
    let n = req.tab_ids.len() as int;
    let sel = check_tabs(t, req.tab_ids, n)->Ok_0;
    assert(seen.push(r)[0] == seen[0]);
    if n >= seen.len() {
        lemma_plans_from_short(t, sel, seen, n);
    }
    lemma_plans_from_extend(t, sel, seen, r, n);
}

proof fn lemma_plans_from_short(t: TopologyView, selected: Seq<TabView>, seen: Seq<ReplyView>, k: int)
    requires
        k >= seen.len(),
        k > 0,
    ensures
        plans_from(t, selected, seen, k) is None,
    decreases k,
{
}

proof fn lemma_plan_panes_saturate(plans: Seq<PlanView>, k: int)
    requires
        0 <= k <= plans.len(),
        forall|i: int| 0 <= i < plans.len() ==> (#[trigger] plans[i]).pane_count >= 0,
    ensures
        plan_panes(plans, k) == if plan_panes_exact(plans, k) > usize::MAX { usize::MAX as int } else {
            plan_panes_exact(plans, k)
        },
        plan_panes_exact(plans, k) >= 0,
    decreases k,
{
    if k > 0 {
        lemma_plan_panes_saturate(plans, k - 1);
        assert(plans[k - 1].pane_count >= 0);
    }
}

proof fn lemma_tab_plan_from_inv(req: MoveTabView, seen: Seq<ReplyView>, t: TopologyView, selected: Seq<TabView>, i: int, plans: Seq<PlanView>)
    requires
        0 <= i <= selected.len(),
        seen.len() == i + 1,
        seen[0] == ReplyView::Topology(Ok(t)),
        check_tabs(t, req.tab_ids, req.tab_ids.len() as int) == Ok::<Seq<TabView>, Seq<char>>(selected),
        tab_destination_problem(t, selected, req.destination) is None,
        plans_from(t, selected, seen, i) == Some(plans),
        ok_moves(seen).len() == 0,
        selected.len() == req.tab_ids.len(),
        tab_progress(tab_plan_from(req, t, selected, i, plans).0),
    ensures
        ({
            let (s, step) = tab_plan_from(req, t, selected, i, plans);
            tab_run_inv(req, seen, s, step)
        }),
{
    lemma_tab_moves_from_order(req, plans, 0, initial_workspace(req.destination), None, 0);
}

proof fn lemma_tab_place_from_inv(
    req: MoveTabView,
    seen: Seq<ReplyView>,
    plans: Seq<PlanView>,
    i: int,
    workspace: Seq<char>,
    first_tab: Seq<char>,
    moved: int,
    tab: Seq<char>,
    k: int,
    placed: Map<Seq<char>, Seq<char>>,
)
    requires
        0 <= i < plans.len(),
        plans_wf(plans),
        0 <= k <= placements(plans[i].root).len(),
        tab_checks_passed(req, seen),
        plans == checked_plans(req, seen),
        ok_moves(seen).len() == plan_panes_exact(plans, i) + k + 1,
        first_tab == ok_moves(seen)[0].tab_id,
        workspace == ok_moves(seen)[0].workspace_id,
        tab_progress(tab_place_from(req, plans, i, workspace, first_tab, moved, tab, k, placed, k + 1).0),
    ensures
        ({
            let (s, step) = tab_place_from(req, plans, i, workspace, first_tab, moved, tab, k, placed, k + 1);
            tab_run_inv(req, seen, s, step)
        }),
{
    lemma_placements_count(plans[i].root);
    assert(plans[i].pane_count == leaf_ids(plans[i].root).len());
    assert(plan_panes_exact(plans, i + 1) == plan_panes_exact(plans, i) + plans[i].pane_count);
    assert forall|j: int| 0 <= j < plans.len() implies (#[trigger] plans[j]).pane_count >= 0 by {
        assert(plans[j].pane_count == leaf_ids(plans[j].root).len());
    }
    lemma_plan_panes_saturate(plans, i);
}

proof fn lemma_tab_run_step(req: MoveTabView, seen: Seq<ReplyView>, s: TabMoveView, step: StepView, r: ReplyView)
    requires
        tab_run_inv(req, seen, s, step),
        tab_move_awaits(s, r),
    ensures
        tab_run_inv(req, seen.push(r), tab_move_next(s, r).0, tab_move_next(s, r).1),
{
    let seen2 = seen.push(r);
    lemma_ok_moves_push(seen, r);
    lemma_tab_progress_kept(s, r);
    match (s.phase, r) {
        (TabPhaseView::Topology, ReplyView::Topology(Ok(t))) => {
            assert(seen2[0] == r);
            lemma_check_tabs_ok(t, req.tab_ids, req.tab_ids.len() as int);
            if let Ok(selected) = check_tabs(t, req.tab_ids, req.tab_ids.len() as int) {
                if tab_destination_problem(t, selected, req.destination) is None {
                    lemma_tab_plan_from_inv(req, seen2, t, selected, 0, Seq::empty());
                }
            }
        },
        (TabPhaseView::Planning { topology, selected, index, plans }, ReplyView::Layout(Ok(snapshot))) => {
            assert(seen2[0] == seen[0]);
            if let Ok(plan) = plan_tab(topology, selected[index], snapshot) {
                lemma_plans_from_extend(topology, selected, seen, r, index);
                assert(seen2[index + 1] == r);
                assert(plans_from(topology, selected, seen2, index + 1) == Some(plans.push(plan)));
                lemma_tab_plan_from_inv(req, seen2, topology, selected, index + 1, plans.push(plan));
            }
        },
        (TabPhaseView::First { plans, index, known_workspace, known_first_tab, moved }, ReplyView::Moved(Ok(f))) => {
            lemma_tab_checks_extend(req, seen, r);
            let ok = ok_moves(seen2);
            assert(ok == ok_moves(seen).push(f));
            if index > 0 {
                assert(ok[0] == ok_moves(seen)[0]);
            }
            match known_workspace {
                Some(w) if f.workspace_id != w => {},
                _ => {
                    lemma_tab_place_from_inv(
                        req,
                        seen2,
                        plans,
                        index,
                        match known_workspace { Some(w) => w, None => f.workspace_id },
                        match known_first_tab { Some(ft) => ft, None => f.tab_id },
                        moved,
                        f.tab_id,
                        0,
                        Map::empty().insert(anchor_of(plans[index].root), f.pane_id),
                    );
                },
            }
        },
        (
            TabPhaseView::Placing { plans, index, workspace, first_tab, moved, tab, step, placed, moved_in_tab },
            ReplyView::Moved(Ok(m)),
        ) => {
            lemma_tab_checks_extend(req, seen, r);
            let ok = ok_moves(seen2);
            assert(ok == ok_moves(seen).push(m));
            assert(ok[0] == ok_moves(seen)[0]);
            lemma_tab_place_from_inv(
                req,
                seen2,
                plans,
                index,
                workspace,
                first_tab,
                moved,
                tab,
                step + 1,
                placed.insert(placements(plans[index].root)[step].second_anchor, m.pane_id),
            );
        },
        (TabPhaseView::FocusWorkspace { plans, workspace, first_tab, moved }, ReplyView::Focused(Ok(()))) => {
            lemma_tab_checks_extend(req, seen, r);
            assert(seen2.last() == r);
        },
        _ => {},
    }
}

/// Runs a tab move over `replies` and returns, with the run, what its current state holds.
proof fn lemma_tab_run(req: MoveTabView, replies: Seq<ReplyView>)
    ensures
        ({
            let run = tab_run(req, replies);
            let seen = replies.take(run.len() - 1);
            let (s, step) = run.last();
            &&& 1 <= run.len() <= replies.len() + 1
            &&& tab_run_inv(req, seen, s, step)
        }),
    decreases replies.len(),
{
    if replies.len() == 0 {
        assert(replies.take(0) =~= Seq::<ReplyView>::empty());
        lemma_tab_progress_at_start(req);
    } else {
        let rest = replies.drop_last();
        lemma_tab_run(req, rest);
        let before = tab_run(req, rest);
        let seen = rest.take(before.len() - 1);
        if before.len() == replies.len() && tab_move_awaits(before.last().0, replies.last()) {
            assert(seen =~= rest);
            assert(replies.take(before.len() as int) =~= rest.push(replies.last()));
            lemma_tab_run_step(req, seen, before.last().0, before.last().1, replies.last());
        } else {
            assert(replies.take(before.len() - 1) =~= seen);
        }
    }
}

/// A tab move checks everything before it moves or focuses anything: whatever Herdr
/// answers, it asks for a move or a focus only once the topology answer lists every
/// selected tab once, the destination can take them, and every selected tab's layout has
/// been checked and planned; and an empty selection is refused with no call.
pub proof fn lemma_tab_run_checks_before_moving(req: MoveTabView, replies: Seq<ReplyView>)
    ensures
        ({
            let run = tab_run(req, replies);
            let seen = replies.take(run.len() - 1);
            let step = run.last().1;
            (step is Call && (moved_by(step->Call_0) is Some || step->Call_0 is FocusWorkspace
                || step->Call_0 is FocusTab)) ==> tab_checks_passed(req, seen)
        }),
        req.tab_ids.len() == 0 ==> tab_run(req, replies) == seq![
            (tab_state(req, TabPhaseView::Done), fail("select at least one tab"@)),
        ],
    decreases replies.len(),
{
    lemma_tab_run(req, replies);
    if req.tab_ids.len() == 0 && replies.len() > 0 {
        lemma_tab_run_checks_before_moving(req, replies.drop_last());
    }
}

/// What a successful tab move reports and has done, over the answers it took.
pub open spec fn tab_success_facts(req: MoveTabView, seen: Seq<ReplyView>, summary: SummaryView) -> bool {
    let ok = ok_moves(seen);
    let plans = checked_plans(req, seen);
    &&& tab_checks_passed(req, seen)
    &&& plans_for(plans, req.tab_ids)
    &&& forall|k: int| 0 <= k < plans.len() ==> (#[trigger] plans[k]).pane_count == leaf_ids(plans[k].root).len()
    &&& ok.len() == plan_panes_exact(plans, plans.len() as int) > 0
    &&& summary.moved_tabs == req.tab_ids.len() as usize
    &&& summary.moved_panes == (if ok.len() > usize::MAX { usize::MAX as int } else { ok.len() as int })
    &&& summary.destination_workspace_id == ok[0].workspace_id
    &&& summary.destination_tab_id == ok[0].tab_id
    &&& seen.len() >= 2 && focused_ok(seen.last()) && focused_ok(seen[seen.len() - 2])
}

proof fn lemma_tab_success_prev(req: MoveTabView, replies: Seq<ReplyView>)
    requires
        replies.len() > 0,
        tab_run(req, replies).last().1 is Finish,
        tab_run(req, replies).last().1->Finish_0 is Ok,
    ensures
        ({
            let run = tab_run(req, replies);
            tab_success_facts(req, replies.take(run.len() - 1), run.last().1->Finish_0->Ok_0)
        }),
    decreases replies.len(),
{
    let rest = replies.drop_last();
    lemma_tab_run(req, rest);
    let before = tab_run(req, rest);
    if before.len() == replies.len() && tab_move_awaits(before.last().0, replies.last()) {
        let seen = rest.take(before.len() - 1);
        assert(seen =~= rest);
        let r = replies.last();
        let s = before.last().0;
        lemma_ok_moves_push(seen, r);
        lemma_tab_checks_extend(req, seen, r);
        assert(replies.take(before.len() as int) =~= rest.push(r));
        assert(seen.push(r) =~= replies);
        assert(s.phase is FocusTab);
        assert(replies.last() == r);
        assert(replies[replies.len() - 2] == seen.last());
        let plans = s.phase->FocusTab_plans;
        assert forall|j: int| 0 <= j < plans.len() implies (#[trigger] plans[j]).pane_count >= 0 by {
            assert(plans[j].pane_count == leaf_ids(plans[j].root).len());
        }
        lemma_plan_panes_saturate(plans, plans.len() as int);
    } else {
        assert(replies.take(before.len() - 1) =~= rest.take(before.len() - 1));
        if rest.len() > 0 {
            lemma_tab_success_prev(req, rest);
        }
    }
}

/// A tab move that succeeds has moved every pane of every selected tab: every tab was
/// checked and planned first, in selection order, with one leaf per pane Herdr lists in
/// it; Herdr reported one done move per pane of those tabs; the report counts the tabs
/// and those moves (up to `usize::MAX`) and names the workspace and tab where the first
/// pane landed; the last two answers were the focus of that workspace and of that tab.
/// Nothing is asked after the end of a move.
pub proof fn lemma_tab_run_success(req: MoveTabView, replies: Seq<ReplyView>, later: ReplyView)
    ensures
        ({
            let run = tab_run(req, replies);
            let seen = replies.take(run.len() - 1);
            let (s, step) = run.last();
            &&& (step is Finish && step->Finish_0 is Ok) ==> tab_success_facts(req, seen, step->Finish_0->Ok_0)
            &&& step is Finish ==> !tab_move_awaits(s, later)
        }),
{
    lemma_tab_run(req, replies);
    let run = tab_run(req, replies);
    let (s, step) = run.last();
    if step is Finish && step->Finish_0 is Ok && replies.len() > 0 {
        lemma_tab_success_prev(req, replies);
    }
}

/// Where a move that Herdr reported as done landed.
pub open spec fn landed(reply: ReplyView) -> MovedView {
    reply->Moved_0->Ok_0
}

/// The tab checks a pane move makes, given the topology in the first answer of `replies`.
pub open spec fn pane_zoom_checks_of(req: MovePaneView, replies: Seq<ReplyView>) -> Seq<(Seq<char>, bool)> {
    let t = replies[0]->Topology_0->Ok_0;
    zoom_checks(check_sources(t, req.sources, req.sources.len() as int)->Ok_0, req.destination)
}

/// Whether `replies` answer every call of a pane move with success: a topology that passes
/// every check and lists a pane in each tab to check, a layout per tab check that passes,
/// one done move per selected pane, all landing in the tab and workspace of the first, and
/// the two focuses.
pub open spec fn pane_answers_succeed(req: MovePaneView, replies: Seq<ReplyView>) -> bool {
    let n = req.sources.len() as int;
    let checks = pane_zoom_checks_of(req, replies);
    let m = checks.len() as int;
    &&& n > 0
    &&& pane_checks_passed(req, replies)
    &&& forall|i: int| 0 <= i < m ==> pane_in_tab(replies[0]->Topology_0->Ok_0.panes, (#[trigger] checks[i]).0, 0) is Some
    &&& replies.len() == m + n + 3
    &&& forall|k: int| 0 <= k < n ==> {
        let r = #[trigger] replies[m + 1 + k];
        &&& r is Moved && r->Moved_0 is Ok
        &&& landed(r).tab_id == landed(replies[m + 1]).tab_id
        &&& landed(r).workspace_id == landed(replies[m + 1]).workspace_id
    }
    &&& focused_ok(replies[m + n + 1])
    &&& focused_ok(replies[m + n + 2])
}

proof fn lemma_pane_good_prefix(req: MovePaneView, replies: Seq<ReplyView>, j: int)
    requires
        pane_answers_succeed(req, replies),
        0 <= j <= replies.len(),
    ensures
        ({
            let n = req.sources.len() as int;
            let m = pane_zoom_checks_of(req, replies).len() as int;
            let run = pane_run(req, replies.take(j));
            let (s, step) = run.last();
            let ok = ok_moves(replies.take(j));
            &&& run.len() == j + 1
            &&& j == 0 ==> s.phase is Topology
            &&& 1 <= j <= m ==> s.phase is Zoom && s.phase->Zoom_index == j - 1
            &&& m + 1 <= j <= m + n ==> s.phase is Moving && s.phase->Moving_index == j - m - 1
            &&& j == m + n + 1 ==> s.phase is FocusWorkspace
            &&& j == m + n + 2 ==> s.phase is FocusTab
            &&& j == m + n + 3 ==> step == StepView::Finish(Ok(pane_summary(n, landed(replies[m + 1]))))
            &&& j <= m + 1 ==> ok.len() == 0
            &&& j >= m + 2 ==> ok.len() >= 1 && ok[0] == landed(replies[m + 1])
            &&& m + 2 <= j <= m + n + 1 ==> ok.len() == j - m - 1 && ok.last() == landed(replies[j - 1])
        }),
    decreases j,
{
    let n = req.sources.len() as int;
    let checks = pane_zoom_checks_of(req, replies);
    let m = checks.len() as int;
    let t = replies[0]->Topology_0->Ok_0;
    if j == 0 {
        assert(replies.take(0) =~= Seq::<ReplyView>::empty());
    } else {
        lemma_pane_good_prefix(req, replies, j - 1);
        let prev = replies.take(j - 1);
        let cur = replies.take(j);
        assert(cur.drop_last() =~= prev);
        assert(cur.last() == replies[j - 1]);
        lemma_pane_run(req, prev);
        assert(prev.take(pane_run(req, prev).len() - 1) =~= prev);
        lemma_ok_moves_push(prev, replies[j - 1]);
        assert(prev.push(replies[j - 1]) =~= cur);
        let r = replies[j - 1];
        let (s, step) = pane_run(req, prev).last();
        if j == 1 {
            assert(r == ReplyView::Topology(Ok(t)));
        } else if j <= m + 1 {
            assert(zoom_passed(replies[(j - 2) + 1], checks[j - 2]));
            assert(s.phase->Zoom_checks == checks);
            assert(s.phase->Zoom_topology == t);
            assert(pane_in_tab(t.panes, checks[j - 1].0, 0) is Some || j - 1 >= m);
        } else if j <= m + n + 1 {
            let k = j - m - 2;
            assert(replies[m + 1 + k] == r);
            assert(replies[m + 1 + 0] == replies[m + 1]);
        } else {
            assert(r is Focused && r->Focused_0 is Ok);
        }
    }
}


proof fn lemma_pane_move_call(req: MovePaneView, replies: Seq<ReplyView>, k: int)
    requires
        pane_answers_succeed(req, replies),
        0 <= k < req.sources.len(),
    ensures
        ({
            let m = pane_zoom_checks_of(req, replies).len() as int;
            let first = landed(replies[m + 1]);
            pane_run(req, replies.take(m + 1 + k)).last().1 == StepView::Call(
                pane_move_call(
                    req,
                    k,
                    if k == 0 { None } else { Some(first) },
                    if k == 0 { None } else { Some(landed(replies[m + k]).pane_id) },
                ),
            )
        }),
{
    let m = pane_zoom_checks_of(req, replies).len() as int;
    let j = m + 1 + k;
    lemma_pane_good_prefix(req, replies, j);
    let cur = replies.take(j);
    lemma_pane_run(req, cur);
    assert(cur.take(j) =~= cur);
}

/// When Herdr answers every call of a pane move with success and every pane lands in the
/// tab and workspace of the first, the move takes every answer and succeeds: it reports
/// every selected pane as moved into that tab and workspace, with the message
/// "Pane moved to T" or "n panes moved to T". It asked for one pane move per selected
/// pane, all after the topology and every layout check and before the two focuses, and
/// Herdr reported each as done. The first selected pane was moved where the request asked, each later one into
/// that tab next to the pane id Herdr returned for the one before it, and the last two
/// calls were the focus of that workspace and then of that tab.
pub proof fn lemma_pane_run_succeeds_on_good_answers(req: MovePaneView, replies: Seq<ReplyView>)
    requires
        pane_answers_succeed(req, replies),
    ensures
        ({
            let n = req.sources.len() as int;
            let m = pane_zoom_checks_of(req, replies).len() as int;
            let run = pane_run(req, replies);
            let first = landed(replies[m + 1]);
            &&& run.len() == replies.len() + 1
            &&& run.last().1 == StepView::Finish(Ok(pane_summary(n, first)))
            &&& pane_summary(n, first).moved_panes == #[verifier::truncate] (n as usize)
            &&& pane_summary(n, first).moved_tabs == 0
            &&& pane_summary(n, first).destination_tab_id == first.tab_id
            &&& pane_summary(n, first).destination_workspace_id == first.workspace_id
            &&& pane_summary(n, first).message == if n == 1 {
                "Pane moved to "@ + first.tab_id
            } else {
                decimal(n as nat) + " panes moved to "@ + first.tab_id
            }
            &&& ok_moves(replies).len() == n
            &&& forall|k: int| 0 <= k < n ==> #[trigger] pane_run(req, replies.take(m + 1 + k)).last().1
                == StepView::Call(
                pane_move_call(
                    req,
                    k,
                    if k == 0 { None } else { Some(first) },
                    if k == 0 { None } else { Some(landed(replies[m + k]).pane_id) },
                ),
            )
            &&& pane_run(req, replies.take(m + n + 1)).last().1 == StepView::Call(
                CallView::FocusWorkspace { workspace_id: first.workspace_id },
            )
            &&& pane_run(req, replies.take(m + n + 2)).last().1 == StepView::Call(
                CallView::FocusTab { tab_id: first.tab_id },
            )
            &&& forall|j: int| 0 <= j < replies.len() ==> (#[trigger] pane_run(req, replies.take(j))).last().1 is Call && (
            moved_by(pane_run(req, replies.take(j)).last().1->Call_0) is Some <==> m + 1 <= j <= m + n)
        }),
{
    let n = req.sources.len() as int;
    let m = pane_zoom_checks_of(req, replies).len() as int;
    assert forall|k: int| 0 <= k < n implies #[trigger] pane_run(req, replies.take(m + 1 + k)).last().1
        == StepView::Call(
        pane_move_call(
            req,
            k,
            if k == 0 { None } else { Some(landed(replies[m + 1])) },
            if k == 0 { None } else { Some(landed(replies[m + k]).pane_id) },
        ),
    ) by {
        lemma_pane_move_call(req, replies, k);
    }
    lemma_pane_good_prefix(req, replies, m + n + 2);
    let c2 = replies.take(m + n + 2);
    lemma_pane_run(req, c2);
    assert(c2.take(m + n + 2) =~= c2);
    assert forall|j: int| 0 <= j < replies.len() implies (#[trigger] pane_run(req, replies.take(j))).last().1 is Call && (
    moved_by(pane_run(req, replies.take(j)).last().1->Call_0) is Some <==> m + 1 <= j <= m + n) by {
        lemma_pane_good_prefix(req, replies, j);
        let cj = replies.take(j);
        lemma_pane_run(req, cj);
        assert(cj.take(j) =~= cj);
    }
    lemma_pane_good_prefix(req, replies, replies.len() as int);
    assert(replies.take(replies.len() as int) =~= replies);
    lemma_pane_good_prefix(req, replies, m + n + 1);
    let before = replies.take(m + n + 1);
    lemma_pane_run(req, before);
    assert(before.take(pane_run(req, before).len() - 1) =~= before);
    lemma_ok_moves_push(before, replies[m + n + 1]);
    lemma_ok_moves_push(before.push(replies[m + n + 1]), replies[m + n + 2]);
    assert(before.push(replies[m + n + 1]).push(replies[m + n + 2]) =~= replies);
}

/// Whether the plan that a layout answer would add to a tab move fits a count.
pub open spec fn new_plan_fits(s: TabMoveView, r: ReplyView) -> bool {
    (s.phase is Planning && r is Layout && r->Layout_0 is Ok) ==> ({
        let p = plan_tab(
            s.phase->Planning_topology,
            s.phase->Planning_selected[s.phase->Planning_index],
            r->Layout_0->Ok_0,
        );
        p is Ok ==> p->Ok_0.pane_count <= usize::MAX
    })
}

proof fn lemma_tab_moves_from_wf(
    req: MoveTabView,
    plans: Seq<PlanView>,
    i: int,
    workspace: Option<Seq<char>>,
    first_tab: Option<Seq<char>>,
    moved: int,
)
    requires
        plans_wf(plans),
        0 <= i,
        0 <= moved <= usize::MAX,
        first_tab is Some ==> plans.len() > 0,
    ensures
        tab_move_wf(tab_moves_from(req, plans, i, workspace, first_tab, moved).0),
{
}

proof fn lemma_tab_place_from_wf(
    req: MoveTabView,
    plans: Seq<PlanView>,
    i: int,
    workspace: Seq<char>,
    first_tab: Seq<char>,
    moved: int,
    tab: Seq<char>,
    k: int,
    placed: Map<Seq<char>, Seq<char>>,
)
    requires
        plans_wf(plans),
        0 <= i < plans.len(),
        0 <= k,
        0 <= moved <= usize::MAX,
    ensures
        tab_move_wf(tab_place_from(req, plans, i, workspace, first_tab, moved, tab, k, placed, k + 1).0),
{
    lemma_tab_moves_from_wf(req, plans, i + 1, Some(workspace), Some(first_tab), sat_sum(moved, k + 1));
}

/// Every step of a tab move from a state in range leads to a state in range, when the
/// plan a layout answer adds has a pane count that fits.
pub proof fn lemma_tab_wf_kept(s: TabMoveView, r: ReplyView)
    requires
        tab_move_awaits(s, r),
        new_plan_fits(s, r),
    ensures
        tab_move_wf(tab_move_next(s, r).0),
{
    let req = s.request;
    match (s.phase, r) {
        (TabPhaseView::Topology, ReplyView::Topology(Ok(t))) => {
            if let Ok(selected) = check_tabs(t, req.tab_ids, req.tab_ids.len() as int) {
                lemma_tab_moves_from_wf(req, Seq::empty(), 0, initial_workspace(req.destination), None, 0);
            }
        },
        (TabPhaseView::Planning { topology, selected, index, plans }, ReplyView::Layout(Ok(snapshot))) => {
            if let Ok(plan) = plan_tab(topology, selected[index], snapshot) {
                let more = plans.push(plan);
                assert forall|i: int| 0 <= i < more.len() implies (#[trigger] more[i]).pane_count == leaf_ids(more[i].root).len()
                    && more[i].pane_count <= usize::MAX by {
                    if i < plans.len() {
                        assert(more[i] == plans[i]);
                    }
                }
                lemma_tab_moves_from_wf(req, more, 0, initial_workspace(req.destination), None, 0);
            }
        },
        (TabPhaseView::First { plans, index, known_workspace, known_first_tab, moved }, ReplyView::Moved(Ok(f))) => {
            lemma_tab_place_from_wf(
                req,
                plans,
                index,
                match known_workspace { Some(w) => w, None => f.workspace_id },
                match known_first_tab { Some(ft) => ft, None => f.tab_id },
                moved,
                f.tab_id,
                0,
                Map::empty().insert(anchor_of(plans[index].root), f.pane_id),
            );
        },
        (
            TabPhaseView::Placing { plans, index, workspace, first_tab, moved, tab, step, placed, moved_in_tab },
            ReplyView::Moved(Ok(m)),
        ) => {
            lemma_tab_place_from_wf(
                req,
                plans,
                index,
                workspace,
                first_tab,
                moved,
                tab,
                step + 1,
                placed.insert(placements(plans[index].root)[step].second_anchor, m.pane_id),
            );
        },
        _ => {},
    }
}


proof fn lemma_plans_from_some(t: TopologyView, selected: Seq<TabView>, seen: Seq<ReplyView>, k: int, n: int)
    requires
        0 <= k <= n,
        plans_from(t, selected, seen, n) is Some,
    ensures
        plans_from(t, selected, seen, k) is Some,
        plans_from(t, selected, seen, n)->Some_0.len() == n,
        plans_from(t, selected, seen, k)->Some_0 == plans_from(t, selected, seen, n)->Some_0.take(k),
    decreases n,
{
    if n > 0 {
        if k < n {
            lemma_plans_from_some(t, selected, seen, k, n - 1);
            let before = plans_from(t, selected, seen, n - 1)->Some_0;
            let all = plans_from(t, selected, seen, n)->Some_0;
            assert(all =~= before.push(all.last()));
            assert(before.take(k) =~= all.take(k));
        } else {
            lemma_plans_from_some(t, selected, seen, n - 1, n - 1);
            assert(plans_from(t, selected, seen, n)->Some_0.take(n) =~= plans_from(t, selected, seen, n)->Some_0);
        }
    } else {
        assert(plans_from(t, selected, seen, n)->Some_0.take(k) =~= Seq::<PlanView>::empty());
    }
}

proof fn lemma_plans_from_prefix(t: TopologyView, selected: Seq<TabView>, seen: Seq<ReplyView>, j: int, k: int)
    requires
        0 <= k < j <= seen.len(),
    ensures
        plans_from(t, selected, seen.take(j), k) == plans_from(t, selected, seen, k),
    decreases k,
{
    if k > 0 {
        lemma_plans_from_prefix(t, selected, seen, j, k - 1);
        assert(seen.take(j)[k] == seen[k]);
    }
}

proof fn lemma_tab_checks_prefix(req: MoveTabView, replies: Seq<ReplyView>, j: int)
    requires
        tab_checks_passed(req, replies),
        req.tab_ids.len() < j <= replies.len(),
    ensures
        tab_checks_passed(req, replies.take(j)),
        checked_plans(req, replies.take(j)) == checked_plans(req, replies),
{
    let t = replies[0]->Topology_0->Ok_0;
    let n = req.tab_ids.len() as int;
    assert(replies.take(j)[0] == replies[0]);
    lemma_plans_from_prefix(t, check_tabs(t, req.tab_ids, n)->Ok_0, replies, j, n);
}

proof fn lemma_plan_panes_exact_grows(plans: Seq<PlanView>, a: int, b: int)
    requires
        0 <= a <= b <= plans.len(),
        forall|k: int| 0 <= k < plans.len() ==> (#[trigger] plans[k]).pane_count >= 1,
    ensures
        plan_panes_exact(plans, b) >= plan_panes_exact(plans, a) + (b - a),
    decreases b,
{
    if b > a {
        lemma_plan_panes_exact_grows(plans, a, b - 1);
        assert(plans[b - 1].pane_count >= 1);
    }
}

/// The answer Herdr gave to the first move of the `i`-th selected tab, when every move
/// before it succeeded.
pub open spec fn tab_first_reply(req: MoveTabView, replies: Seq<ReplyView>, i: int) -> ReplyView {
    replies[req.tab_ids.len() + 1 + plan_panes_exact(checked_plans(req, replies), i)]
}

/// Whether `replies` answer every call of a tab move with success: a topology that passes
/// every check and lists a pane in each selected tab, one layout per selected tab that
/// passes its checks (with a pane count that fits a `usize`), one done move per pane of
/// those tabs, each tab's first pane landing in the workspace of the very first (which is
/// the destination workspace when one was named), and the two focuses.
pub open spec fn tab_answers_succeed(req: MoveTabView, replies: Seq<ReplyView>) -> bool {
    let n = req.tab_ids.len() as int;
    let t = replies[0]->Topology_0->Ok_0;
    let selected = check_tabs(t, req.tab_ids, n)->Ok_0;
    let plans = checked_plans(req, replies);
    let p = plan_panes_exact(plans, n);
    let first = landed(replies[n + 1]);
    &&& n > 0
    &&& tab_checks_passed(req, replies)
    &&& forall|i: int| 0 <= i < n ==> pane_in_tab(t.panes, (#[trigger] selected[i]).tab_id, 0) is Some
    &&& forall|i: int| 0 <= i < n ==> (#[trigger] plans[i]).pane_count <= usize::MAX
    &&& replies.len() == n + p + 3
    &&& forall|k: int| 0 <= k < p ==> (#[trigger] replies[n + 1 + k]) is Moved && replies[n + 1 + k]->Moved_0 is Ok
    &&& forall|i: int| 0 <= i < n ==> landed(#[trigger] tab_first_reply(req, replies, i)).workspace_id == first.workspace_id
    &&& req.destination is Workspace ==> first.workspace_id == req.destination->Workspace_workspace_id
    &&& focused_ok(replies[n + p + 1])
    &&& focused_ok(replies[n + p + 2])
}


/// Where a tab move stands after the first `j` of answers that all succeed.
pub open spec fn tab_good_at(req: MoveTabView, replies: Seq<ReplyView>, j: int) -> bool {
    let n = req.tab_ids.len() as int;
    let plans = checked_plans(req, replies);
    let p = plan_panes_exact(plans, n);
    let first = landed(replies[n + 1]);
    let cur = replies.take(j);
    let run = tab_run(req, cur);
    let s = run.last().0;
    let step = run.last().1;
    let ok = ok_moves(cur);
    &&& run.len() == j + 1
    &&& tab_run_inv(req, cur, s, step)
    &&& tab_move_wf(s)
    &&& j == 0 ==> s.phase is Topology
    &&& 1 <= j <= n ==> s.phase is Planning && s.phase->Planning_index == j - 1
    &&& n + 1 <= j <= n + p ==> (s.phase is First || s.phase is Placing) && ok.len() == j - n - 1
    &&& j == n + p + 1 ==> s.phase is FocusWorkspace
    &&& j == n + p + 2 ==> s.phase is FocusTab
    &&& j == n + p + 3 ==> step == StepView::Finish(
        Ok(tab_summary(plans, first.workspace_id, first.tab_id, plan_panes(plans, n))),
    )
    &&& j >= n + 2 ==> ok.len() >= 1 && ok[0] == first
}

proof fn lemma_tab_run_accepts(req: MoveTabView, replies: Seq<ReplyView>, j: int)
    requires
        1 <= j <= replies.len(),
        tab_run(req, replies.take(j - 1)).len() == j,
        tab_move_awaits(tab_run(req, replies.take(j - 1)).last().0, replies[j - 1]),
    ensures
        ({
            let before = tab_run(req, replies.take(j - 1));
            &&& tab_run(req, replies.take(j)) == before.push(tab_move_next(before.last().0, replies[j - 1]))
            &&& replies.take(j) == replies.take(j - 1).push(replies[j - 1])
            &&& ok_moves(replies.take(j)) == match replies[j - 1] {
                ReplyView::Moved(Ok(m)) => ok_moves(replies.take(j - 1)).push(m),
                _ => ok_moves(replies.take(j - 1)),
            }
        }),
{
    let prev = replies.take(j - 1);
    let cur = replies.take(j);
    assert(cur.drop_last() =~= prev);
    assert(cur.last() == replies[j - 1]);
    assert(prev.push(replies[j - 1]) =~= cur);
    lemma_ok_moves_push(prev, replies[j - 1]);
}

proof fn lemma_tab_plans_count(plans: Seq<PlanView>)
    requires
        plans_wf(plans),
    ensures
        forall|k: int| 0 <= k < plans.len() ==> (#[trigger] plans[k]).pane_count >= 1
            && placements(plans[k].root).len() == plans[k].pane_count - 1,
{
    assert forall|k: int| 0 <= k < plans.len() implies (#[trigger] plans[k]).pane_count >= 1
        && placements(plans[k].root).len() == plans[k].pane_count - 1 by {
        lemma_placements_count(plans[k].root);
    }
}


proof fn lemma_plans_from_leaves(t: TopologyView, selected: Seq<TabView>, seen: Seq<ReplyView>, k: int)
    ensures
        plans_from(t, selected, seen, k) is Some ==> forall|i: int|
            0 <= i < plans_from(t, selected, seen, k)->Some_0.len() ==> (#[trigger] plans_from(t, selected, seen, k)->Some_0[i]).pane_count
                == leaf_ids(plans_from(t, selected, seen, k)->Some_0[i].root).len(),
    decreases k,
{
    if k > 0 {
        lemma_plans_from_leaves(t, selected, seen, k - 1);
        if plans_from(t, selected, seen, k) is Some {
            let before = plans_from(t, selected, seen, k - 1)->Some_0;
            let all = plans_from(t, selected, seen, k)->Some_0;
            assert forall|i: int| 0 <= i < all.len() implies (#[trigger] all[i]).pane_count == leaf_ids(all[i].root).len() by {
                if i < before.len() {
                    assert(all[i] == before[i]);
                }
            }
        }
    }
}

proof fn lemma_tab_good_basics(req: MoveTabView, replies: Seq<ReplyView>)
    requires
        tab_answers_succeed(req, replies),
    ensures
        ({
            let n = req.tab_ids.len() as int;
            let plans = checked_plans(req, replies);
            &&& plans.len() == n
            &&& plans_wf(plans)
            &&& forall|k: int| 0 <= k < plans.len() ==> (#[trigger] plans[k]).pane_count >= 1
                && placements(plans[k].root).len() == plans[k].pane_count - 1
            &&& plan_panes_exact(plans, n) >= n
        }),
{
    let n = req.tab_ids.len() as int;
    let t = replies[0]->Topology_0->Ok_0;
    let sel = check_tabs(t, req.tab_ids, n)->Ok_0;
    let plans = checked_plans(req, replies);
    lemma_plans_from_some(t, sel, replies, n, n);
    lemma_plans_from_leaves(t, sel, replies, n);
    lemma_tab_plans_count(plans);
    lemma_plan_panes_exact_grows(plans, 0, n);
}

proof fn lemma_tab_good_checking(req: MoveTabView, replies: Seq<ReplyView>, j: int)
    requires
        tab_answers_succeed(req, replies),
        1 <= j <= req.tab_ids.len() + 1,
        tab_good_at(req, replies, j - 1),
    ensures
        tab_good_at(req, replies, j),
{
    let n = req.tab_ids.len() as int;
    let t = replies[0]->Topology_0->Ok_0;
    let sel = check_tabs(t, req.tab_ids, n)->Ok_0;
    let all = checked_plans(req, replies);
    let prev = replies.take(j - 1);
    let before = tab_run(req, prev);
    let s = before.last().0;
    let step = before.last().1;
    let r = replies[j - 1];
    lemma_check_tabs_ok(t, req.tab_ids, n);
    lemma_plans_from_some(t, sel, replies, n, n);
    lemma_tab_good_basics(req, replies);
    if j == 1 {
        assert(r == replies[0]);
        assert(pane_in_tab(t.panes, sel[0].tab_id, 0) is Some);
    } else {
        let k = j - 1;
        lemma_plans_from_some(t, sel, replies, k, n);
        lemma_plans_from_some(t, sel, replies, k - 1, n);
        assert(prev[0] == replies[0]);
        let plans = s.phase->Planning_plans;
        assert(s.phase->Planning_topology == t);
        assert(s.phase->Planning_selected == sel);
        let plan = plan_tab(t, sel[k - 1], r->Layout_0->Ok_0)->Ok_0;
        assert(plans_from(t, sel, replies, k)->Some_0 == plans_from(t, sel, replies, k - 1)->Some_0.push(plan));
        assert(all.take(k)[k - 1] == all[k - 1]);
        assert(plan == all[k - 1]);
        assert(all[k - 1].pane_count <= usize::MAX);
        if k < n {
            assert(pane_in_tab(t.panes, sel[k].tab_id, 0) is Some);
        }
    }
    lemma_tab_run_step(req, prev, s, step, r);
    lemma_tab_wf_kept(s, r);
    lemma_tab_run_accepts(req, replies, j);
    if j == n + 1 {
        lemma_tab_checks_prefix(req, replies, j);
    }
}


proof fn lemma_tab_good_moving(req: MoveTabView, replies: Seq<ReplyView>, j: int)
    requires
        tab_answers_succeed(req, replies),
        req.tab_ids.len() + 2 <= j <= req.tab_ids.len() + plan_panes_exact(
            checked_plans(req, replies),
            req.tab_ids.len() as int,
        ) + 1,
        tab_good_at(req, replies, j - 1),
    ensures
        tab_good_at(req, replies, j),
{
    let n = req.tab_ids.len() as int;
    let plans = checked_plans(req, replies);
    let p = plan_panes_exact(plans, n);
    let first = landed(replies[n + 1]);
    let prev = replies.take(j - 1);
    let cur = replies.take(j);
    let before = tab_run(req, prev);
    let s = before.last().0;
    let step = before.last().1;
    let kk = j - n - 2;
    let r = replies[n + 1 + kk];
    assert(r == replies[j - 1]);
    assert(r is Moved && r->Moved_0 is Ok);
    let m = landed(r);
    assert(r == ReplyView::Moved(Ok(m)));
    lemma_tab_good_basics(req, replies);
    lemma_tab_checks_prefix(req, replies, j - 1);
    lemma_tab_checks_prefix(req, replies, j);
    let okp = ok_moves(prev);
    assert(okp.len() == kk);
    if s.phase is First {
        let index = s.phase->First_index;
        assert(plan_panes_exact(plans, index) == kk);
        assert(tab_first_reply(req, replies, index) == r);
        assert(landed(tab_first_reply(req, replies, index)).workspace_id == first.workspace_id);
        if index == 0 {
            assert(r == replies[n + 1]);
        }
    }
    lemma_tab_replay_never_misses_an_anchor(s, m);
    lemma_tab_run_step(req, prev, s, step, r);
    lemma_tab_wf_kept(s, r);
    lemma_tab_run_accepts(req, replies, j);
    let s2 = tab_move_next(s, r).0;
    let ok = ok_moves(cur);
    assert(ok == okp.push(m));
    assert(cur.last() == r);
    if kk == 0 {
        assert(ok[0] == m);
    } else {
        assert(ok[0] == okp[0]);
    }
    if j == n + p + 1 {
        if s2.phase is First {
            lemma_plan_panes_exact_grows(plans, s2.phase->First_index, n);
        }
        if s2.phase is Placing {
            let i2 = s2.phase->Placing_index;
            lemma_plan_panes_exact_grows(plans, i2 + 1, n);
            assert(plan_panes_exact(plans, i2 + 1) == plan_panes_exact(plans, i2) + plans[i2].pane_count);
        }
    }
}


proof fn lemma_tab_good_focus(req: MoveTabView, replies: Seq<ReplyView>, j: int)
    requires
        tab_answers_succeed(req, replies),
        req.tab_ids.len() + plan_panes_exact(checked_plans(req, replies), req.tab_ids.len() as int) + 2 <= j
            <= replies.len(),
        tab_good_at(req, replies, j - 1),
    ensures
        tab_good_at(req, replies, j),
{
    let n = req.tab_ids.len() as int;
    let plans = checked_plans(req, replies);
    let prev = replies.take(j - 1);
    let before = tab_run(req, prev);
    let s = before.last().0;
    let step = before.last().1;
    let r = replies[j - 1];
    lemma_tab_good_basics(req, replies);
    lemma_tab_checks_prefix(req, replies, j - 1);
    lemma_tab_checks_prefix(req, replies, j);
    lemma_tab_run_step(req, prev, s, step, r);
    lemma_tab_wf_kept(s, r);
    lemma_tab_run_accepts(req, replies, j);
}

proof fn lemma_tab_good_prefix(req: MoveTabView, replies: Seq<ReplyView>, j: int)
    requires
        tab_answers_succeed(req, replies),
        0 <= j <= replies.len(),
    ensures
        tab_good_at(req, replies, j),
    decreases j,
{
    let n = req.tab_ids.len() as int;
    let p = plan_panes_exact(checked_plans(req, replies), n);
    if j == 0 {
        assert(replies.take(0) =~= Seq::<ReplyView>::empty());
        lemma_ok_moves_push(Seq::empty(), replies[0]);
    } else {
        lemma_tab_good_prefix(req, replies, j - 1);
        if j <= n + 1 {
            lemma_tab_good_checking(req, replies, j);
        } else if j <= n + p + 1 {
            lemma_tab_good_moving(req, replies, j);
        } else {
            lemma_tab_good_focus(req, replies, j);
        }
    }
}

/// When Herdr answers every call of a tab move with success and each tab's first pane
/// lands in the workspace of the very first (the destination workspace when one was
/// named), the move takes every answer and succeeds. Every selected tab was checked and
/// planned, in selection order, with one leaf per pane Herdr lists in it; the move asked
/// for one pane move per pane of those tabs, all after the topology and every layout and
/// before the two focuses, and Herdr reported each as done; the report counts every
/// selected tab and all of those moves (up to `usize::MAX`), names the workspace and tab
/// where the first pane landed, and its message names that workspace. The tabs were moved in selection order,
/// each starting with its tree's first leaf: the first tab where the request asked, each
/// later one into a new tab of that workspace; the last two calls were the focus of that
/// workspace and then of that tab.
#[verifier::spinoff_prover]
#[verifier::rlimit(40)]
pub proof fn lemma_tab_run_succeeds_on_good_answers(req: MoveTabView, replies: Seq<ReplyView>)
    requires
        tab_answers_succeed(req, replies),
    ensures
        ({
            let n = req.tab_ids.len() as int;
            let t = replies[0]->Topology_0->Ok_0;
            let plans = checked_plans(req, replies);
            let p = plan_panes_exact(plans, n);
            let first = landed(replies[n + 1]);
            let run = tab_run(req, replies);
            let summary = tab_summary(plans, first.workspace_id, first.tab_id, plan_panes(plans, n));
            &&& run.len() == replies.len() + 1
            &&& run.last().1 == StepView::Finish(Ok(summary))
            &&& plans_for(plans, req.tab_ids)
            &&& forall|k: int| 0 <= k < n ==> (#[trigger] plans[k]).pane_count == leaf_ids(plans[k].root).len()
                && source_matches(t, plans[k].root, req.tab_ids[k])
            &&& ok_moves(replies).len() == p
            &&& summary.moved_tabs == #[verifier::truncate] (n as usize)
            &&& summary.moved_panes == (if p > usize::MAX { usize::MAX as int } else { p })
            &&& summary.destination_workspace_id == first.workspace_id
            &&& summary.destination_tab_id == first.tab_id
            &&& summary.message == if n == 1 {
                "Tab “"@ + plans[0].label + "” moved to "@ + first.workspace_id
            } else {
                decimal(n as nat) + " tabs moved to "@ + first.workspace_id
            }
            &&& forall|i: int| 0 <= i < n ==> tab_run(req, replies.take(n + 1 + plan_panes_exact(plans, i))).last().1
                == StepView::Call(
                first_move_call(
                    req,
                    #[trigger] plans[i],
                    if i == 0 { initial_workspace(req.destination) } else { Some(first.workspace_id) },
                ),
            )
            &&& tab_run(req, replies.take(n + p + 1)).last().1 == StepView::Call(
                CallView::FocusWorkspace { workspace_id: first.workspace_id },
            )
            &&& tab_run(req, replies.take(n + p + 2)).last().1 == StepView::Call(
                CallView::FocusTab { tab_id: first.tab_id },
            )
            &&& forall|j: int| 0 <= j < replies.len() ==> (#[trigger] tab_run(req, replies.take(j))).last().1 is Call && (
            moved_by(tab_run(req, replies.take(j)).last().1->Call_0) is Some <==> n + 1 <= j <= n + p)
        }),
{
    let n = req.tab_ids.len() as int;
    let t = replies[0]->Topology_0->Ok_0;
    let sel = check_tabs(t, req.tab_ids, n)->Ok_0;
    let plans = checked_plans(req, replies);
    let p = plan_panes_exact(plans, n);
    lemma_tab_good_basics(req, replies);
    lemma_tab_good_prefix(req, replies, replies.len() as int);
    lemma_tab_good_prefix(req, replies, n + p + 1);
    lemma_tab_good_prefix(req, replies, n + p + 2);
    assert(replies.take(replies.len() as int) =~= replies);
    lemma_tab_checks_prefix(req, replies, n + p + 1);
    lemma_tab_checks_prefix(req, replies, n + p + 2);
    let before = replies.take(n + p + 1);
    lemma_ok_moves_push(before, replies[n + p + 1]);
    lemma_ok_moves_push(before.push(replies[n + p + 1]), replies[n + p + 2]);
    assert(before.push(replies[n + p + 1]).push(replies[n + p + 2]) =~= replies);
    lemma_plan_panes_saturate(plans, n);
    lemma_plans_from_sources(t, sel, replies, n);
    lemma_check_tabs_ok(t, req.tab_ids, n);
    assert forall|i: int| 0 <= i < n implies tab_run(req, replies.take(n + 1 + plan_panes_exact(plans, i))).last().1
        == StepView::Call(
        first_move_call(
            req,
            #[trigger] plans[i],
            if i == 0 { initial_workspace(req.destination) } else { Some(landed(replies[n + 1]).workspace_id) },
        ),
    ) by {
        lemma_tab_first_call(req, replies, i);
    }
    assert forall|j: int| 0 <= j < replies.len() implies (#[trigger] tab_run(req, replies.take(j))).last().1 is Call && (
    moved_by(tab_run(req, replies.take(j)).last().1->Call_0) is Some <==> n + 1 <= j <= n + p) by {
        lemma_tab_good_prefix(req, replies, j);
    }
}

proof fn lemma_plans_from_sources(t: TopologyView, selected: Seq<TabView>, seen: Seq<ReplyView>, k: int)
    ensures
        plans_from(t, selected, seen, k) is Some ==> forall|i: int|
            0 <= i < plans_from(t, selected, seen, k)->Some_0.len() ==> source_matches(
                t,
                (#[trigger] plans_from(t, selected, seen, k)->Some_0[i]).root,
                selected[i].tab_id,
            ) && plans_from(t, selected, seen, k)->Some_0[i].tab_id == selected[i].tab_id,
    decreases k,
{
    if k > 0 {
        lemma_plans_from_sources(t, selected, seen, k - 1);
        if plans_from(t, selected, seen, k) is Some {
            lemma_plans_from_some(t, selected, seen, k - 1, k);
            let before = plans_from(t, selected, seen, k - 1)->Some_0;
            let all = plans_from(t, selected, seen, k)->Some_0;
            let plan = plan_tab(t, selected[k - 1], seen[k]->Layout_0->Ok_0)->Ok_0;
            assert(all == before.push(plan));
            assert forall|i: int| 0 <= i < all.len() implies source_matches(t, (#[trigger] all[i]).root, selected[i].tab_id)
                && all[i].tab_id == selected[i].tab_id by {
                if i < before.len() {
                    assert(all[i] == before[i]);
                } else {
                    assert(all[i] == plan);
                }
            }
        }
    }
}


proof fn lemma_tab_first_call(req: MoveTabView, replies: Seq<ReplyView>, i: int)
    requires
        tab_answers_succeed(req, replies),
        0 <= i < req.tab_ids.len(),
    ensures
        ({
            let n = req.tab_ids.len() as int;
            let plans = checked_plans(req, replies);
            let first = landed(replies[n + 1]);
            tab_run(req, replies.take(n + 1 + plan_panes_exact(plans, i))).last().1 == StepView::Call(
                first_move_call(req, plans[i], if i == 0 { initial_workspace(req.destination) } else { Some(first.workspace_id) }),
            )
        }),
{
    let n = req.tab_ids.len() as int;
    let plans = checked_plans(req, replies);
    let p = plan_panes_exact(plans, n);
    let j = n + 1 + plan_panes_exact(plans, i);
    lemma_tab_good_basics(req, replies);
    lemma_plan_panes_exact_grows(plans, i + 1, n);
    lemma_plan_panes_exact_grows(plans, 0, i);
    assert(plan_panes_exact(plans, i + 1) == plan_panes_exact(plans, i) + plans[i].pane_count);
    lemma_tab_good_prefix(req, replies, j);
    lemma_tab_checks_prefix(req, replies, j);
    let s = tab_run(req, replies.take(j)).last().0;
    if s.phase is Placing {
        let i2 = s.phase->Placing_index;
        assert(plan_panes_exact(plans, i2 + 1) == plan_panes_exact(plans, i2) + plans[i2].pane_count);
        if i <= i2 {
            lemma_plan_panes_exact_grows(plans, i, i2);
        } else {
            lemma_plan_panes_exact_grows(plans, i2 + 1, i);
        }
    } else {
        let i2 = s.phase->First_index;
        if i2 < i {
            lemma_plan_panes_exact_grows(plans, i2, i);
        } else if i2 > i {
            lemma_plan_panes_exact_grows(plans, i, i2);
        }
    }
}


/// Whether a step asks Herdr to move a pane or to focus a workspace or tab.
pub open spec fn asks_move_or_focus(step: StepView) -> bool {
    step is Call && (moved_by(step->Call_0) is Some || step->Call_0 is FocusWorkspace || step->Call_0 is FocusTab)
}

/// Whether Herdr lists a pane that a tab move can ask the layout of tab `tab` through.
pub open spec fn tab_lists_pane(t: TopologyView, tab: Seq<char>) -> bool {
    focused_pane_in_tab(t.panes, tab, 0) is Some || pane_in_tab(t.panes, tab, 0) is Some
}

/// Whether the first answers in `seen` pass every check of a tab move and list a pane in
/// every selected tab.
pub open spec fn tab_answers_pass(req: MoveTabView, seen: Seq<ReplyView>) -> bool {
    &&& tab_checks_passed(req, seen)
    &&& forall|i: int| 0 <= i < req.tab_ids.len() ==> tab_lists_pane(
        seen[0]->Topology_0->Ok_0,
        (#[trigger] check_tabs(seen[0]->Topology_0->Ok_0, req.tab_ids, req.tab_ids.len() as int)->Ok_0[i]).tab_id,
    )
}

/// What a tab move in state `s` has seen of the panes of the selected tabs.
pub open spec fn tab_sources_inv(req: MoveTabView, seen: Seq<ReplyView>, s: TabMoveView) -> bool {
    match s.phase {
        TabPhaseView::Planning { topology, selected, index, .. } => forall|i: int|
            0 <= i <= index ==> tab_lists_pane(topology, (#[trigger] selected[i]).tab_id),
        TabPhaseView::Topology => true,
        TabPhaseView::Done => true,
        _ => forall|i: int| 0 <= i < req.tab_ids.len() ==> tab_lists_pane(
            seen[0]->Topology_0->Ok_0,
            (#[trigger] check_tabs(seen[0]->Topology_0->Ok_0, req.tab_ids, req.tab_ids.len() as int)->Ok_0[i]).tab_id,
        ),
    }
}

proof fn lemma_tab_plan_from_sources(req: MoveTabView, seen: Seq<ReplyView>, t: TopologyView, selected: Seq<TabView>, i: int, plans: Seq<PlanView>)
    requires
        0 <= i <= selected.len(),
        seen.len() >= 1,
        seen[0] == ReplyView::Topology(Ok(t)),
        check_tabs(t, req.tab_ids, req.tab_ids.len() as int) == Ok::<Seq<TabView>, Seq<char>>(selected),
        selected.len() == req.tab_ids.len(),
        forall|k: int| 0 <= k < i ==> tab_lists_pane(t, (#[trigger] selected[k]).tab_id),
    ensures
        tab_sources_inv(req, seen, tab_plan_from(req, t, selected, i, plans).0),
{
    if i < selected.len() && tab_lists_pane(t, selected[i].tab_id) {
        assert forall|k: int| 0 <= k <= i implies tab_lists_pane(t, (#[trigger] selected[k]).tab_id) by {
            if k < i {
                assert(tab_lists_pane(t, selected[k].tab_id));
            }
        }
    }
}

proof fn lemma_tab_sources_step(req: MoveTabView, seen: Seq<ReplyView>, s: TabMoveView, step: StepView, r: ReplyView)
    requires
        tab_run_inv(req, seen, s, step),
        tab_sources_inv(req, seen, s),
        tab_move_awaits(s, r),
    ensures
        tab_sources_inv(req, seen.push(r), tab_move_next(s, r).0),
{
    let seen2 = seen.push(r);
    let n = req.tab_ids.len() as int;
    match (s.phase, r) {
        (TabPhaseView::Topology, ReplyView::Topology(Ok(t))) => {
            assert(seen2[0] == r);
            lemma_check_tabs_ok(t, req.tab_ids, n);
            if let Ok(selected) = check_tabs(t, req.tab_ids, n) {
                lemma_tab_plan_from_sources(req, seen2, t, selected, 0, Seq::empty());
            }
        },
        (TabPhaseView::Planning { topology, selected, index, plans }, ReplyView::Layout(Ok(snapshot))) => {
            assert(seen2[0] == seen[0]);
            lemma_check_tabs_ok(topology, req.tab_ids, n);
            if let Ok(plan) = plan_tab(topology, selected[index], snapshot) {
                lemma_tab_plan_from_sources(req, seen2, topology, selected, index + 1, plans.push(plan));
            }
        },
        _ => {
            if seen.len() > 0 {
                assert(seen2[0] == seen[0]);
            }
        },
    }
}

proof fn lemma_tab_run_sources(req: MoveTabView, replies: Seq<ReplyView>)
    ensures
        ({
            let run = tab_run(req, replies);
            tab_sources_inv(req, replies.take(run.len() - 1), run.last().0)
        }),
    decreases replies.len(),
{
    if replies.len() > 0 {
        let rest = replies.drop_last();
        lemma_tab_run_sources(req, rest);
        lemma_tab_run(req, rest);
        let before = tab_run(req, rest);
        let seen = rest.take(before.len() - 1);
        if before.len() == replies.len() && tab_move_awaits(before.last().0, replies.last()) {
            assert(seen =~= rest);
            assert(replies.take(before.len() as int) =~= rest.push(replies.last()));
            lemma_tab_sources_step(req, seen, before.last().0, before.last().1, replies.last());
        } else {
            assert(replies.take(before.len() - 1) =~= seen);
        }
    }
}

proof fn lemma_tab_pass_prefix(req: MoveTabView, replies: Seq<ReplyView>, j: int)
    requires
        0 <= j <= replies.len(),
        tab_answers_pass(req, replies.take(j)),
    ensures
        tab_answers_pass(req, replies),
{
    let t = replies[0]->Topology_0->Ok_0;
    let n = req.tab_ids.len() as int;
    assert(replies.take(j)[0] == replies[0]);
    lemma_plans_from_prefix(t, check_tabs(t, req.tab_ids, n)->Ok_0, replies, j, n);
}

proof fn lemma_tab_run_entries(req: MoveTabView, replies: Seq<ReplyView>)
    ensures
        ({
            let run = tab_run(req, replies);
            &&& forall|i: int| 0 <= i < run.len() && asks_move_or_focus(#[trigger] run[i].1) ==> tab_answers_pass(req, replies)
            &&& run.last().1 is Finish && run.last().1->Finish_0 is Ok ==> tab_answers_pass(req, replies)
        }),
    decreases replies.len(),
{
    let run = tab_run(req, replies);
    lemma_tab_run(req, replies);
    lemma_tab_run_sources(req, replies);
    lemma_tab_run_checks_before_moving(req, replies);
    let seen = replies.take(run.len() - 1);
    if asks_move_or_focus(run.last().1) {
        lemma_tab_pass_prefix(req, replies, run.len() - 1);
    }
    if replies.len() > 0 {
        let rest = replies.drop_last();
        lemma_tab_run_entries(req, rest);
        lemma_tab_run(req, rest);
        let before = tab_run(req, rest);
        if tab_answers_pass(req, rest) {
            assert(rest =~= replies.take(rest.len() as int));
            lemma_tab_pass_prefix(req, replies, rest.len() as int);
        }
        if before.len() == replies.len() && tab_move_awaits(before.last().0, replies.last()) {
            assert(run == before.push(tab_move_next(before.last().0, replies.last())));
            assert forall|i: int| 0 <= i < run.len() && asks_move_or_focus(#[trigger] run[i].1) implies tab_answers_pass(req, replies) by {
                if i < before.len() {
                    assert(run[i] == before[i]);
                }
            }
            if run.last().1 is Finish && run.last().1->Finish_0 is Ok {
                assert(before.last().0.phase is FocusTab);
                assert(before[before.len() - 1].1 == before.last().1);
            }
        } else {
            assert(run == before);
        }
    }
}

/// A tab move whose answers fail one of its checks never asks Herdr to move a pane or to
/// focus anything, and if it ends, it ends with an error: that is so when nothing is
/// selected, when the topology answer is an error, lists a selected tab twice or not at
/// all, or names a destination workspace that is gone or already holds a selected tab,
/// when Herdr lists no pane in a selected tab, and when a selected tab's layout answer
/// is an error, names another tab, is zoomed, cannot be rebuilt into a split tree, or has
/// leaves other than the panes Herdr lists in that tab.
pub proof fn lemma_tab_run_rejects_before_moving(req: MoveTabView, replies: Seq<ReplyView>)
    requires
        !tab_answers_pass(req, replies),
    ensures
        ({
            let run = tab_run(req, replies);
            &&& forall|i: int| 0 <= i < run.len() ==> !asks_move_or_focus(#[trigger] run[i].1)
            &&& run.last().1 is Finish ==> run.last().1->Finish_0 is Err
        }),
{
    lemma_tab_run_entries(req, replies);
}


/// Whether the first answers in `seen` pass every check of a pane move and list a pane in
/// every tab whose layout it checks.
pub open spec fn pane_answers_pass(req: MovePaneView, seen: Seq<ReplyView>) -> bool {
    &&& pane_checks_passed(req, seen)
    &&& forall|i: int| 0 <= i < pane_zoom_checks_of(req, seen).len() ==> pane_in_tab(
        seen[0]->Topology_0->Ok_0.panes,
        (#[trigger] pane_zoom_checks_of(req, seen)[i]).0,
        0,
    ) is Some
}

/// What a pane move in state `s` has seen of the panes of the tabs it checks.
pub open spec fn pane_sources_inv(req: MovePaneView, seen: Seq<ReplyView>, s: PaneMoveView) -> bool {
    match s.phase {
        PanePhaseView::Zoom { topology, checks, index } => forall|i: int|
            0 <= i <= index ==> pane_in_tab(topology.panes, (#[trigger] checks[i]).0, 0) is Some,
        PanePhaseView::Topology => true,
        PanePhaseView::Done => true,
        _ => forall|i: int| 0 <= i < pane_zoom_checks_of(req, seen).len() ==> pane_in_tab(
            seen[0]->Topology_0->Ok_0.panes,
            (#[trigger] pane_zoom_checks_of(req, seen)[i]).0,
            0,
        ) is Some,
    }
}

proof fn lemma_pane_zoom_from_sources(req: MovePaneView, seen: Seq<ReplyView>, t: TopologyView, checks: Seq<(Seq<char>, bool)>, i: int)
    requires
        0 <= i <= checks.len(),
        seen.len() >= 1,
        seen[0] == ReplyView::Topology(Ok(t)),
        check_sources(t, req.sources, req.sources.len() as int) is Ok,
        checks == zoom_checks(check_sources(t, req.sources, req.sources.len() as int)->Ok_0, req.destination),
        forall|k: int| 0 <= k < i ==> pane_in_tab(t.panes, (#[trigger] checks[k]).0, 0) is Some,
    ensures
        pane_sources_inv(req, seen, pane_zoom_from(req, t, checks, i).0),
{
    if i < checks.len() && pane_in_tab(t.panes, checks[i].0, 0) is Some {
        assert forall|k: int| 0 <= k <= i implies pane_in_tab(t.panes, (#[trigger] checks[k]).0, 0) is Some by {
            if k < i {
                assert(pane_in_tab(t.panes, checks[k].0, 0) is Some);
            }
        }
    }
}

proof fn lemma_pane_sources_step(req: MovePaneView, seen: Seq<ReplyView>, s: PaneMoveView, step: StepView, r: ReplyView)
    requires
        pane_run_inv(req, seen, s, step),
        pane_sources_inv(req, seen, s),
        pane_move_awaits(s, r),
    ensures
        pane_sources_inv(req, seen.push(r), pane_move_next(s, r).0),
{
    let seen2 = seen.push(r);
    let n = req.sources.len() as int;
    match (s.phase, r) {
        (PanePhaseView::Topology, ReplyView::Topology(Ok(t))) => {
            assert(seen2[0] == r);
            if let Ok(tabs) = check_sources(t, req.sources, n) {
                lemma_pane_zoom_from_sources(req, seen2, t, zoom_checks(tabs, req.destination), 0);
            }
        },
        (PanePhaseView::Zoom { topology, checks, index }, ReplyView::Layout(Ok(snapshot))) => {
            assert(seen2[0] == seen[0]);
            lemma_pane_zoom_from_sources(req, seen2, topology, checks, index + 1);
        },
        _ => {
            if seen.len() > 0 {
                assert(seen2[0] == seen[0]);
            }
        },
    }
}

proof fn lemma_pane_run_sources(req: MovePaneView, replies: Seq<ReplyView>)
    ensures
        ({
            let run = pane_run(req, replies);
            pane_sources_inv(req, replies.take(run.len() - 1), run.last().0)
        }),
    decreases replies.len(),
{
    if replies.len() > 0 {
        let rest = replies.drop_last();
        lemma_pane_run_sources(req, rest);
        lemma_pane_run(req, rest);
        let before = pane_run(req, rest);
        let seen = rest.take(before.len() - 1);
        if before.len() == replies.len() && pane_move_awaits(before.last().0, replies.last()) {
            assert(seen =~= rest);
            assert(replies.take(before.len() as int) =~= rest.push(replies.last()));
            lemma_pane_sources_step(req, seen, before.last().0, before.last().1, replies.last());
        } else {
            assert(replies.take(before.len() - 1) =~= seen);
        }
    }
}

proof fn lemma_pane_pass_prefix(req: MovePaneView, replies: Seq<ReplyView>, j: int)
    requires
        0 <= j <= replies.len(),
        pane_answers_pass(req, replies.take(j)),
    ensures
        pane_answers_pass(req, replies),
{
    let cur = replies.take(j);
    assert(cur[0] == replies[0]);
    let t = replies[0]->Topology_0->Ok_0;
    let checks = pane_zoom_checks_of(req, replies);
    assert forall|k: int| 0 <= k < checks.len() implies zoom_passed(#[trigger] replies[k + 1], checks[k]) by {
        assert(zoom_passed(cur[k + 1], checks[k]));
        assert(cur[k + 1] == replies[k + 1]);
    }
}

proof fn lemma_pane_run_entries(req: MovePaneView, replies: Seq<ReplyView>)
    ensures
        ({
            let run = pane_run(req, replies);
            &&& forall|i: int| 0 <= i < run.len() && asks_move_or_focus(#[trigger] run[i].1) ==> pane_answers_pass(req, replies)
            &&& run.last().1 is Finish && run.last().1->Finish_0 is Ok ==> pane_answers_pass(req, replies)
        }),
    decreases replies.len(),
{
    let run = pane_run(req, replies);
    lemma_pane_run(req, replies);
    lemma_pane_run_sources(req, replies);
    lemma_pane_run_checks_before_moving(req, replies);
    if asks_move_or_focus(run.last().1) {
        lemma_pane_pass_prefix(req, replies, run.len() - 1);
    }
    if replies.len() > 0 {
        let rest = replies.drop_last();
        lemma_pane_run_entries(req, rest);
        lemma_pane_run(req, rest);
        let before = pane_run(req, rest);
        if pane_answers_pass(req, rest) {
            assert(rest =~= replies.take(rest.len() as int));
            lemma_pane_pass_prefix(req, replies, rest.len() as int);
        }
        if before.len() == replies.len() && pane_move_awaits(before.last().0, replies.last()) {
            assert(run == before.push(pane_move_next(before.last().0, replies.last())));
            assert forall|i: int| 0 <= i < run.len() && asks_move_or_focus(#[trigger] run[i].1) implies pane_answers_pass(req, replies) by {
                if i < before.len() {
                    assert(run[i] == before[i]);
                }
            }
            if run.last().1 is Finish && run.last().1->Finish_0 is Ok {
                assert(before.last().0.phase is FocusTab);
                assert(before[before.len() - 1].1 == before.last().1);
            }
        } else {
            assert(run == before);
        }
    }
}

/// A pane move whose answers fail one of its checks never asks Herdr to move a pane or
/// to focus anything, and if it ends, it ends with an error: that is so when nothing is
/// selected, when the topology answer is an error, lists a selected pane twice, not at
/// all or in another tab than it was selected in, or names a destination that is gone or
/// is one of the source tabs, when Herdr lists no pane in a tab whose layout the move
/// checks, and when such a layout answer is an error, names another tab or is zoomed.
pub proof fn lemma_pane_run_rejects_before_moving(req: MovePaneView, replies: Seq<ReplyView>)
    requires
        !pane_answers_pass(req, replies),
    ensures
        ({
            let run = pane_run(req, replies);
            &&& forall|i: int| 0 <= i < run.len() ==> !asks_move_or_focus(#[trigger] run[i].1)
            &&& run.last().1 is Finish ==> run.last().1->Finish_0 is Err
        }),
{
    lemma_pane_run_entries(req, replies);
}


/// The last state of a tab move over any answers waits for no answer once it has ended.
pub proof fn lemma_tab_run_last_waits(req: MoveTabView, replies: Seq<ReplyView>)
    ensures
        ({
            let run = tab_run(req, replies);
            &&& 1 <= run.len() <= replies.len() + 1
            &&& run.last().1 is Finish ==> forall|r: ReplyView| !tab_move_awaits(run.last().0, r)
            &&& run.last().1 is Call ==> !(run.last().0.phase is Done)
        }),
{
    lemma_tab_run(req, replies);
}


/// Whether one of the answers `seen` after the first is a layout of tab `tab`, not zoomed.
pub open spec fn unzoomed_layout_seen(seen: Seq<ReplyView>, tab: Seq<char>) -> bool {
    exists|k: int|
        1 <= k < seen.len() && (#[trigger] seen[k]) is Layout && seen[k]->Layout_0 is Ok
            && seen[k]->Layout_0->Ok_0.tab_id@ == tab && !seen[k]->Layout_0->Ok_0.zoomed
}

proof fn lemma_check_sources_tabs(t: TopologyView, srcs: Seq<PaneSourceView>, k: int)
    requires
        0 <= k <= srcs.len(),
    ensures
        check_sources(t, srcs, k) is Ok ==> forall|i: int|
            0 <= i < k ==> check_sources(t, srcs, k)->Ok_0.contains(#[trigger] srcs[i].expected_tab_id),
    decreases k,
{
    if k > 0 {
        lemma_check_sources_tabs(t, srcs, k - 1);
        if check_sources(t, srcs, k) is Ok {
            let before = check_sources(t, srcs, k - 1)->Ok_0;
            let after = check_sources(t, srcs, k)->Ok_0;
            assert forall|i: int| 0 <= i < k implies after.contains(#[trigger] srcs[i].expected_tab_id) by {
                if i < k - 1 {
                    let w = choose|w: int| 0 <= w < before.len() && before[w] == srcs[i].expected_tab_id;
                    if after != before {
                        assert(after[w] == before[w]);
                    }
                } else {
                    if after != before {
                        assert(after[before.len() as int] == srcs[i].expected_tab_id);
                    }
                }
            }
        }
    }
}

/// A pane move moves or focuses nothing before Herdr has answered a layout request, not
/// zoomed, for the tab of every selected pane and, when the panes go into an existing
/// tab, for that tab.
pub proof fn lemma_pane_move_checks_the_destination_layout(req: MovePaneView, replies: Seq<ReplyView>)
    ensures
        ({
            let run = pane_run(req, replies);
            let seen = replies.take(run.len() - 1);
            asks_move_or_focus(run.last().1) ==> {
                &&& forall|i: int| 0 <= i < req.sources.len() ==> unzoomed_layout_seen(seen, #[trigger] req.sources[i].expected_tab_id)
                &&& req.destination is ExistingTab ==> unzoomed_layout_seen(seen, req.destination->ExistingTab_tab_id)
            }
        }),
{
    lemma_pane_run_checks_before_moving(req, replies);
    let run = pane_run(req, replies);
    let seen = replies.take(run.len() - 1);
    if asks_move_or_focus(run.last().1) {
        let t = seen[0]->Topology_0->Ok_0;
        let n = req.sources.len() as int;
        let tabs = check_sources(t, req.sources, n)->Ok_0;
        let checks = zoom_checks(tabs, req.destination);
        lemma_check_sources_tabs(t, req.sources, n);
        assert forall|i: int| 0 <= i < n implies unzoomed_layout_seen(seen, #[trigger] req.sources[i].expected_tab_id) by {
            let tab = req.sources[i].expected_tab_id;
            assert(tabs.contains(tab));
            let w = choose|w: int| 0 <= w < tabs.len() && tabs[w] == tab;
            assert(checks[w] == (tab, true));
            assert(zoom_passed(seen[w + 1], checks[w]));
        }
        if req.destination is ExistingTab {
            let k = checks.len() - 1;
            assert(checks[k] == (req.destination->ExistingTab_tab_id, false));
            assert(zoom_passed(seen[k + 1], checks[k]));
        }
    }
}

/// Whenever a pane move takes a layout answer that reports a zoomed tab, it ends at once
/// with an error.
pub proof fn lemma_pane_move_stops_at_a_zoomed_layout(req: MovePaneView, replies: Seq<ReplyView>)
    ensures
        ({
            let run = pane_run(req, replies);
            (replies.len() > 0 && run.len() == replies.len() + 1 && replies.last() is Layout
                && replies.last()->Layout_0 is Ok && replies.last()->Layout_0->Ok_0.zoomed) ==> run.last().1 is Finish
                && run.last().1->Finish_0 is Err
        }),
{
    if replies.len() > 0 {
        let rest = replies.drop_last();
        lemma_pane_run(req, rest);
        let before = pane_run(req, rest);
        if before.len() == replies.len() && pane_move_awaits(before.last().0, replies.last()) {
            assert(before.last().0.phase is Zoom || !(replies.last() is Layout));
        }
    }
}


/// Whether the tree `n` has a split in `direction`, with ratio bits `ratio_bits`, whose
/// second child starts with the pane `pane`.
pub open spec fn splits_off(n: LayoutNode, pane: Seq<char>, direction: SplitDirection, ratio_bits: u32) -> bool
    decreases n,
{
    match n {
        LayoutNode::Pane { .. } => false,
        LayoutNode::Split { direction: d, ratio_bits: r, first, second } => (anchor_of(*second) == pane && d == direction
            && r == ratio_bits) || splits_off(*first, pane, direction, ratio_bits) || splits_off(
            *second,
            pane,
            direction,
            ratio_bits,
        ),
    }
}

proof fn lemma_placements_are_splits(n: LayoutNode, k: int)
    requires
        0 <= k < placements(n).len(),
    ensures
        splits_off(n, placements(n)[k].second_anchor, placements(n)[k].direction, placements(n)[k].ratio_bits),
    decreases n,
{
    match n {
        LayoutNode::Pane { .. } => {},
        LayoutNode::Split { direction, ratio_bits, first, second } => {
            let pf = placements(*first);
            let ps = placements(*second);
            if k > 0 {
                if k - 1 < pf.len() {
                    assert(placements(n)[k] == pf[k - 1]);
                    lemma_placements_are_splits(*first, k - 1);
                } else {
                    assert(placements(n)[k] == ps[k - 1 - pf.len()]);
                    lemma_placements_are_splits(*second, k - 1 - pf.len());
                }
            }
        },
    }
}

/// Each split a tab move replays keeps its direction and ratio: whatever Herdr answers,
/// when the move asks to place a pane next to another in a tab it is rebuilding, the
/// direction and ratio it asks for are those of a split, in the tree rebuilt from the
/// layout Herdr reported for one of the selected tabs, whose second child starts with
/// that pane.
pub proof fn lemma_tab_replay_keeps_each_split(req: MoveTabView, replies: Seq<ReplyView>)
    ensures
        ({
            let run = tab_run(req, replies);
            let seen = replies.take(run.len() - 1);
            let step = run.last().1;
            let plans = checked_plans(req, seen);
            (step is Call && step->Call_0 is MoveToTab) ==> {
                &&& step->Call_0->MoveToTab_ratio_bits is Some
                &&& exists|i: int|
                    0 <= i < plans.len() && splits_off(
                        (#[trigger] plans[i]).root,
                        step->Call_0->MoveToTab_pane_id,
                        step->Call_0->MoveToTab_direction,
                        step->Call_0->MoveToTab_ratio_bits->Some_0,
                    )
            }
        }),
{
    lemma_tab_run(req, replies);
    let run = tab_run(req, replies);
    let s = run.last().0;
    let step = run.last().1;
    if step is Call && step->Call_0 is MoveToTab {
        lemma_tab_run_last_waits(req, replies);
        if s.phase is Placing {
            let plans = s.phase->Placing_plans;
            let index = s.phase->Placing_index;
            lemma_placements_are_splits(plans[index].root, s.phase->Placing_step);
        }
    }
}

} // verus!
