use vstd::prelude::*;

use crate::app::{MergeView, MergeWorkspaceRequest, MoveTabRequest, MoveTabView, TabDestination, TabDestinationView};
use crate::herdr::{Failure, HerdrCall, HerdrReply, ReplyView, TabInfo, TabView, TopologyView, WorkspaceInfo, WorkspaceView};
use crate::labels::{workspace_name, workspace_name_of};
use crate::move_ops::{
    fail, tab_move_awaits, tab_move_next, tab_move_start, views, MoveSummary, Step, StepView, SummaryView, TabMove,
    TabMoveView,
};
use crate::text::{decimal, decimal_text};

verus! {

// ---------------------------------------------------------------------------
// Appending every tab of one workspace to another: a tab move of the source
// workspace's tabs, in the order Herdr lists them, into the destination workspace.

/// Index of the first workspace at or after `i` whose id is `id`.
pub open spec fn workspace_at(ws: Seq<WorkspaceView>, id: Seq<char>, i: int) -> Option<int>
    decreases ws.len() - i,
{
    if i < 0 || i >= ws.len() {
        None
    } else if ws[i].workspace_id == id {
        Some(i)
    } else {
        workspace_at(ws, id, i + 1)
    }
}

/// The ids of the first `k` listed tabs that are in workspace `ws`, in listed order.
pub open spec fn workspace_tab_ids(tabs: Seq<TabView>, ws: Seq<char>, k: int) -> Seq<Seq<char>>
    decreases k,
{
    if k <= 0 {
        Seq::empty()
    } else {
        let before = workspace_tab_ids(tabs, ws, k - 1);
        if tabs[k - 1].workspace_id == ws { before.push(tabs[k - 1].tab_id) } else { before }
    }
}

/// The tab move that a merge makes once Herdr listed the topology `t`.
pub open spec fn merge_tab_request(t: TopologyView, req: MergeView) -> MoveTabView {
    MoveTabView {
        tab_ids: workspace_tab_ids(t.tabs, req.source_workspace_id, t.tabs.len() as int),
        destination: TabDestinationView::Workspace { workspace_id: req.destination_workspace_id },
    }
}

/// What a finished merge says: "Workspace “S” merged into “T” · n tabs".
pub open spec fn merge_message(source: Seq<char>, destination: Seq<char>, tabs: usize) -> Seq<char> {
    "Workspace “"@ + source + "” merged into “"@ + destination + "” · "@ + decimal(tabs as nat) + if tabs == 1 {
        " tab"@
    } else {
        " tabs"@
    }
}

pub ghost enum MergePhaseView {
    Listing,
    Moving { inner: TabMoveView, source_name: Seq<char>, destination_name: Seq<char> },
    Done,
}

pub ghost struct MergeMoveView {
    pub request: MergeView,
    pub phase: MergePhaseView,
}

pub open spec fn merge_state(request: MergeView, phase: MergePhaseView) -> MergeMoveView {
    MergeMoveView { request, phase }
}

/// Carries a step of the inner tab move over to the merge: its calls are the merge's
/// calls, its failure the merge's failure, and its report, under the merge's message.
pub open spec fn merge_lift(
    req: MergeView,
    inner: (TabMoveView, StepView),
    source_name: Seq<char>,
    destination_name: Seq<char>,
) -> (MergeMoveView, StepView) {
    match inner.1 {
        StepView::Call(c) => (
            merge_state(req, MergePhaseView::Moving { inner: inner.0, source_name, destination_name }),
            StepView::Call(c),
        ),
        StepView::Finish(Err(e)) => (merge_state(req, MergePhaseView::Done), fail(e)),
        StepView::Finish(Ok(s)) => (
            merge_state(req, MergePhaseView::Done),
            StepView::Finish(
                Ok(SummaryView { message: merge_message(source_name, destination_name, s.moved_tabs), ..s }),
            ),
        ),
    }
}

/// How a merge starts: by listing the topology.
pub open spec fn merge_start(req: MergeView) -> (MergeMoveView, StepView) {
    (merge_state(req, MergePhaseView::Listing), StepView::Call(crate::herdr::CallView::Topology))
}

/// Whether `reply` answers the call that a merge in state `s` is waiting for.
pub open spec fn merge_awaits(s: MergeMoveView, reply: ReplyView) -> bool {
    match s.phase {
        MergePhaseView::Listing => reply is Topology,
        MergePhaseView::Moving { inner, .. } => tab_move_awaits(inner, reply),
        MergePhaseView::Done => false,
    }
}

/// How a merge goes on from state `s` once Herdr answered `reply`: the topology names
/// both workspaces and the source's tabs, which then move as one tab move.
pub open spec fn merge_next(s: MergeMoveView, reply: ReplyView) -> (MergeMoveView, StepView) {
    let req = s.request;
    let done = merge_state(req, MergePhaseView::Done);
    match (s.phase, reply) {
        (MergePhaseView::Listing, ReplyView::Topology(Err(e))) => (done, fail(e)),
        (MergePhaseView::Listing, ReplyView::Topology(Ok(t))) => match workspace_at(t.workspaces, req.source_workspace_id, 0) {
            None => (done, fail("the source workspace no longer exists"@)),
            Some(a) => match workspace_at(t.workspaces, req.destination_workspace_id, 0) {
                None => (done, fail("the destination workspace no longer exists"@)),
                Some(b) => merge_lift(
                    req,
                    tab_move_start(merge_tab_request(t, req)),
                    workspace_name(t.workspaces[a]),
                    workspace_name(t.workspaces[b]),
                ),
            },
        },
        (MergePhaseView::Moving { inner, source_name, destination_name }, r) => merge_lift(
            req,
            tab_move_next(inner, r),
            source_name,
            destination_name,
        ),
        _ => (s, fail(Seq::empty())),
    }
}

enum MergePhase {
    Listing,
    Moving { inner: TabMove, source_name: String, destination_name: String },
    Done,
}

/// A merge of one workspace into another, under way: what it was asked, and where it
/// stands.
pub struct MergeMove {
    request: MergeWorkspaceRequest,
    phase: MergePhase,
}

impl View for MergeMove {
    type V = MergeMoveView;

    closed spec fn view(&self) -> MergeMoveView {
        MergeMoveView {
            request: self.request@,
            phase: match self.phase {
                MergePhase::Listing => MergePhaseView::Listing,
                MergePhase::Moving { inner, source_name, destination_name } => MergePhaseView::Moving {
                    inner: inner@,
                    source_name: source_name@,
                    destination_name: destination_name@,
                },
                MergePhase::Done => MergePhaseView::Done,
            },
        }
    }
}

fn find_workspace(ws: &Vec<WorkspaceInfo>, id: &String) -> (r: Option<usize>)
    ensures
        r is None ==> workspace_at(ws@.map_values(|w: WorkspaceInfo| w@), id@, 0) is None,
        r matches Some(i) ==> i < ws@.len() && workspace_at(ws@.map_values(|w: WorkspaceInfo| w@), id@, 0) == Some(
            i as int,
        ),
{
    let ghost v = ws@.map_values(|w: WorkspaceInfo| w@);
    let mut i: usize = 0;
    while i < ws.len()
        invariant
            i <= ws@.len(),
            v == ws@.map_values(|w: WorkspaceInfo| w@),
            workspace_at(v, id@, 0) == workspace_at(v, id@, i as int),
        decreases ws.len() - i,
    {
        if ws[i].workspace_id == *id {
            assert(v[i as int].workspace_id == id@);
            return Some(i);
        }
        assert(v[i as int].workspace_id != id@);
        i += 1;
    }
    None
}

fn workspace_tabs(tabs: &Vec<TabInfo>, ws: &String) -> (r: Vec<String>)
    ensures
        views(r@) == workspace_tab_ids(tabs@.map_values(|t: TabInfo| t@), ws@, tabs@.len() as int),
{
    let ghost v = tabs@.map_values(|t: TabInfo| t@);
    let mut r: Vec<String> = Vec::new();
    let mut i: usize = 0;
    while i < tabs.len()
        invariant
            i <= tabs@.len(),
            v == tabs@.map_values(|t: TabInfo| t@),
            views(r@) == workspace_tab_ids(v, ws@, i as int),
        decreases tabs.len() - i,
    {
        assert(v[i as int] == tabs@[i as int]@);
        if tabs[i].workspace_id == *ws {
            r.push(tabs[i].tab_id.clone());
        }
        assert(views(r@) =~= workspace_tab_ids(v, ws@, i + 1));
        i += 1;
    }
    r
}

fn merge_message_text(source: &String, destination: &String, tabs: usize) -> (r: String)
    ensures
        r@ == merge_message(source@, destination@, tabs),
{
    let mut m = "Workspace “".to_owned();
    m.append(source.as_str());
    m.append("” merged into “");
    m.append(destination.as_str());
    m.append("” · ");
    m.append(decimal_text(tabs).as_str());
    if tabs == 1 {
        m.append(" tab");
    } else {
        m.append(" tabs");
    }
    m
}

impl MergeMove {
    fn lift(
        request: MergeWorkspaceRequest,
        inner: TabMove,
        step: Step,
        source_name: String,
        destination_name: String,
    ) -> (r: (MergeMove, Step))
        ensures
            (r.0@, r.1@) == merge_lift(request@, (inner@, step@), source_name@, destination_name@),
    {
        match step {
            Step::Call(c) => (
                MergeMove { request, phase: MergePhase::Moving { inner, source_name, destination_name } },
                Step::Call(c),
            ),
            Step::Finish(Err(e)) => (MergeMove { request, phase: MergePhase::Done }, Step::Finish(Err(e))),
            Step::Finish(Ok(s)) => {
                let message = merge_message_text(&source_name, &destination_name, s.moved_tabs);
                let summary = MoveSummary {
                    message,
                    moved_panes: s.moved_panes,
                    moved_tabs: s.moved_tabs,
                    destination_workspace_id: s.destination_workspace_id,
                    destination_tab_id: s.destination_tab_id,
                };
                (MergeMove { request, phase: MergePhase::Done }, Step::Finish(Ok(summary)))
            },
        }
    }

    /// Starts merging the workspaces of `request` by asking for the topology.
    pub fn begin(request: MergeWorkspaceRequest) -> (r: (MergeMove, Step))
        ensures
            (r.0@, r.1@) == merge_start(request@),
    {
        (MergeMove { request, phase: MergePhase::Listing }, Step::Call(HerdrCall::Topology))
    }

    /// Whether `reply` is what this merge waits for.
    pub open spec fn awaits(&self, reply: ReplyView) -> bool {
        merge_awaits(self@, reply)
    }

    /// Whether `reply` answers the call this merge waits for, so that `advance` may take it.
    pub fn answers(&self, reply: &HerdrReply) -> (b: bool)
        ensures
            b == self.awaits(reply@),
    {
        match (&self.phase, reply) {
            (MergePhase::Listing, HerdrReply::Topology(_)) => true,
            (MergePhase::Moving { inner, .. }, _) => inner.answers(reply),
            _ => false,
        }
    }

    /// Goes on with Herdr's answer to the last call.
    pub fn advance(self, reply: HerdrReply) -> (r: (MergeMove, Step))
        requires
            self.awaits(reply@),
        ensures
            (r.0@, r.1@) == merge_next(self@, reply@),
    {
        let MergeMove { request, phase } = self;
        match phase {
            MergePhase::Listing => match reply {
                HerdrReply::Topology(Err(e)) => (MergeMove { request, phase: MergePhase::Done }, Step::Finish(Err(e))),
                HerdrReply::Topology(Ok(t)) => match find_workspace(&t.workspaces, &request.source_workspace_id) {
                    None => (
                        MergeMove { request, phase: MergePhase::Done },
                        Step::Finish(Err(Failure::new("the source workspace no longer exists".to_owned()))),
                    ),
                    Some(a) => match find_workspace(&t.workspaces, &request.destination_workspace_id) {
                        None => (
                            MergeMove { request, phase: MergePhase::Done },
                            Step::Finish(Err(Failure::new("the destination workspace no longer exists".to_owned()))),
                        ),
                        Some(b) => {
                            let source_name = workspace_name_of(&t.workspaces[a]);
                            let destination_name = workspace_name_of(&t.workspaces[b]);
                            let tab_ids = workspace_tabs(&t.tabs, &request.source_workspace_id);
                            let tab_request = MoveTabRequest {
                                tab_ids,
                                destination: TabDestination::Workspace {
                                    workspace_id: request.destination_workspace_id.clone(),
                                },
                            };
                            assert(tab_request@ == merge_tab_request(t@, request@));
                            let (inner, step) = TabMove::begin(tab_request);
                            MergeMove::lift(request, inner, step, source_name, destination_name)
                        },
                    },
                },
                _ => (MergeMove { request, phase: MergePhase::Done }, Step::Finish(Err(Failure::new(String::new())))),
            },
            MergePhase::Moving { inner, source_name, destination_name } => {
                let (inner, step) = inner.advance(reply);
                MergeMove::lift(request, inner, step, source_name, destination_name)
            },
            MergePhase::Done => (MergeMove { request, phase: MergePhase::Done }, Step::Finish(Err(Failure::new(String::new())))),
        }
    }
}


/// The states and steps of a merge as Herdr answers `replies` in turn: its start, then
/// one entry per answer, as long as each answers the call asked just before it.
pub open spec fn merge_run(req: MergeView, replies: Seq<ReplyView>) -> Seq<(MergeMoveView, StepView)>
    decreases replies.len(),
{
    if replies.len() == 0 {
        seq![merge_start(req)]
    } else {
        let before = merge_run(req, replies.drop_last());
        if before.len() == replies.len() && merge_awaits(before.last().0, replies.last()) {
            before.push(merge_next(before.last().0, replies.last()))
        } else {
            before
        }
    }
}

/// Once Herdr's topology answer lists both workspaces, a merge is the tab move of the
/// source workspace's tabs, in the order Herdr lists them, into the destination
/// workspace: over any later answers it asks the same calls as that tab move, fails with
/// the same errors, and succeeds with the same report under the message
/// "Workspace “S” merged into “T” · n tabs", S and T the two workspaces' names.
pub proof fn lemma_merge_is_a_tab_move(req: MergeView, replies: Seq<ReplyView>)
    requires
        replies.len() >= 1,
        replies[0] is Topology,
        replies[0]->Topology_0 is Ok,
        workspace_at(replies[0]->Topology_0->Ok_0.workspaces, req.source_workspace_id, 0) is Some,
        workspace_at(replies[0]->Topology_0->Ok_0.workspaces, req.destination_workspace_id, 0) is Some,
    ensures
        ({
            let t = replies[0]->Topology_0->Ok_0;
            let source = workspace_name(t.workspaces[workspace_at(t.workspaces, req.source_workspace_id, 0)->Some_0]);
            let destination = workspace_name(
                t.workspaces[workspace_at(t.workspaces, req.destination_workspace_id, 0)->Some_0],
            );
            let moves = crate::move_ops::tab_run(merge_tab_request(t, req), replies.drop_first());
            let merged = merge_run(req, replies);
            &&& merged.len() == moves.len() + 1
            &&& merged[0] == merge_start(req)
            &&& forall|i: int| 0 <= i < moves.len() ==> #[trigger] merged[i + 1] == merge_lift(req, moves[i], source, destination)
        }),
    decreases replies.len(),
{
    let t = replies[0]->Topology_0->Ok_0;
    let treq = merge_tab_request(t, req);
    let source = workspace_name(t.workspaces[workspace_at(t.workspaces, req.source_workspace_id, 0)->Some_0]);
    let destination = workspace_name(t.workspaces[workspace_at(t.workspaces, req.destination_workspace_id, 0)->Some_0]);
    let rest = replies.drop_first();
    if replies.len() == 1 {
        assert(replies.drop_last() =~= Seq::<ReplyView>::empty());
        assert(rest =~= Seq::<ReplyView>::empty());
        let merged = merge_run(req, replies);
        assert(merge_run(req, replies.drop_last()) == seq![merge_start(req)]);
        assert(merged == seq![merge_start(req)].push(merge_next(merge_start(req).0, replies[0])));
    } else {
        let shorter = replies.drop_last();
        assert(shorter[0] == replies[0]);
        lemma_merge_is_a_tab_move(req, shorter);
        assert(shorter.drop_first() =~= rest.drop_last());
        let before = crate::move_ops::tab_run(treq, rest.drop_last());
        let mbefore = merge_run(req, shorter);
        crate::move_ops::lemma_tab_run_last_waits(treq, rest.drop_last());
        let r = replies.last();
        assert(rest.last() == r);
        assert(mbefore.last() == mbefore[(before.len() - 1) + 1]);
        assert(mbefore.last() == merge_lift(req, before.last(), source, destination));
        let tab_goes = before.len() == rest.len() && crate::move_ops::tab_move_awaits(before.last().0, r);
        let merge_goes = mbefore.len() == replies.len() && merge_awaits(mbefore.last().0, r);
        assert(tab_goes == merge_goes);
        let moves = crate::move_ops::tab_run(treq, rest);
        let merged = merge_run(req, replies);
        if tab_goes {
            assert(moves == before.push(crate::move_ops::tab_move_next(before.last().0, r)));
            assert(merged == mbefore.push(merge_next(mbefore.last().0, r)));
        } else {
            assert(moves == before);
            assert(merged == mbefore);
        }
        assert forall|i: int| 0 <= i < moves.len() implies #[trigger] merged[i + 1] == merge_lift(req, moves[i], source, destination) by {
            if i < before.len() {
                assert(moves[i] == before[i]);
                assert(merged[i + 1] == mbefore[i + 1]);
            }
        }
        assert(merged[0] == mbefore[0]);
    }
}

} // verus!
