use vstd::prelude::*;

use crate::herdr::{PaneInfo, PaneView, TabInfo, TabView, Topology, TopologyView, WorkspaceInfo, WorkspaceView};
use crate::text::{is_blank, trimmed};

verus! {

/// What `Path::file_name` gives for the path `p`, as text (`None` when the path has no
/// final name, as for `/` or a path ending in `..`).
pub uninterp spec fn path_file_name(p: Seq<char>) -> Option<Seq<char>>;

/// `Path::file_name` of the path `p`; the result is the named final component.
#[verifier::external_body]
pub(crate) fn file_name(p: &str) -> (r: Option<String>)
    ensures
        match path_file_name(p@) {
            Some(n) => r matches Some(s) && s@ == n,
            None => r is None,
        },
{
    std::path::Path::new(p).file_name().and_then(|n| n.to_str()).map(|n| n.to_owned())
}

pub open spec fn blank(s: Seq<char>) -> bool {
    trimmed(s).len() == 0
}

/// A workspace's display name: its label, or its id when the label is blank.
pub open spec fn workspace_name(w: WorkspaceView) -> Seq<char> {
    if blank(w.label) { w.workspace_id } else { w.label }
}

/// A tab's display name: its label, or its id when the label is blank.
pub open spec fn tab_name(t: TabView) -> Seq<char> {
    if blank(t.label) { t.tab_id } else { t.label }
}

/// `Some(v)` when `o` holds text that is not blank.
pub open spec fn non_blank(o: Option<Seq<char>>) -> Option<Seq<char>> {
    match o {
        Some(v) if !blank(v) => Some(v),
        _ => None,
    }
}

pub open spec fn or_else(a: Option<Seq<char>>, b: Option<Seq<char>>) -> Option<Seq<char>> {
    match a {
        Some(v) => Some(v),
        None => b,
    }
}

/// A pane's display name: its label when not blank, else its agent or its terminal
/// title (the first present) when not blank, else the last component of its working
/// directory, else its id.
pub open spec fn pane_name(p: PaneView) -> Seq<char> {
    match non_blank(or_else(or_else(non_blank(p.label), p.agent), p.terminal_title_stripped)) {
        Some(v) => v,
        None => match p.cwd {
            Some(c) => match path_file_name(c) {
                Some(n) => n,
                None => p.pane_id,
            },
            None => p.pane_id,
        },
    }
}

/// First workspace at or after `i` with id `id`.
pub open spec fn workspace_index(ws: Seq<WorkspaceView>, id: Seq<char>, i: int) -> Option<int>
    decreases ws.len() - i,
{
    if i < 0 || i >= ws.len() {
        None
    } else if ws[i].workspace_id == id {
        Some(i)
    } else {
        workspace_index(ws, id, i + 1)
    }
}

pub proof fn lemma_workspace_index(ws: Seq<WorkspaceView>, id: Seq<char>, i: int)
    requires
        0 <= i,
    ensures
        workspace_index(ws, id, i) matches Some(j) ==> i <= j < ws.len() && ws[j].workspace_id == id,
    decreases ws.len() - i,
{
    if i < ws.len() && ws[i].workspace_id != id {
        lemma_workspace_index(ws, id, i + 1);
    }
}

/// The display name of the workspace with id `id`, or the id itself when it is unknown.
pub open spec fn workspace_label(t: TopologyView, id: Seq<char>) -> Seq<char> {
    match workspace_index(t.workspaces, id, 0) {
        Some(i) => workspace_name(t.workspaces[i]),
        None => id,
    }
}

/// The display name of the tab with id `id`, or the id itself when it is unknown.
pub open spec fn tab_label_by_id(t: TopologyView, id: Seq<char>) -> Seq<char> {
    match crate::move_ops::tab_with_id(t.tabs, id, 0) {
        Some(i) => tab_name(t.tabs[i]),
        None => id,
    }
}

/// The number of the workspace with id `id`, or `usize::MAX` when it is unknown.
pub open spec fn workspace_number(t: TopologyView, id: Seq<char>) -> usize {
    match workspace_index(t.workspaces, id, 0) {
        Some(i) => t.workspaces[i].number,
        None => usize::MAX,
    }
}

/// The number of the tab with id `id`, or `usize::MAX` when it is unknown.
pub open spec fn tab_number(t: TopologyView, id: Seq<char>) -> usize {
    match crate::move_ops::tab_with_id(t.tabs, id, 0) {
        Some(i) => t.tabs[i].number,
        None => usize::MAX,
    }
}

pub fn workspace_name_of(w: &WorkspaceInfo) -> (r: String)
    ensures
        r@ == workspace_name(w@),
{
    if is_blank(w.label.as_str()) {
        w.workspace_id.clone()
    } else {
        w.label.clone()
    }
}

pub fn tab_name_of(t: &TabInfo) -> (r: String)
    ensures
        r@ == tab_name(t@),
{
    if is_blank(t.label.as_str()) {
        t.tab_id.clone()
    } else {
        t.label.clone()
    }
}

fn non_blank_of(o: Option<&String>) -> (r: Option<&String>)
    ensures
        non_blank(match o { Some(s) => Some(s@), None => None }) == match r { Some(s) => Some(s@), None => None },
{
    match o {
        Some(v) => if is_blank(v.as_str()) { None } else { Some(v) },
        None => None,
    }
}

pub fn pane_name_of(p: &PaneInfo) -> (r: String)
    ensures
        r@ == pane_name(p@),
{
    let first = non_blank_of(p.label.as_ref());
    let second = match first {
        Some(v) => Some(v),
        None => p.agent.as_ref(),
    };
    let third = match second {
        Some(v) => Some(v),
        None => p.terminal_title_stripped.as_ref(),
    };
    match non_blank_of(third) {
        Some(v) => v.clone(),
        None => match &p.cwd {
            Some(c) => match file_name(c.as_str()) {
                Some(n) => n,
                None => p.pane_id.clone(),
            },
            None => p.pane_id.clone(),
        },
    }
}

pub fn find_workspace(ws: &Vec<WorkspaceInfo>, id: &str) -> (r: Option<usize>)
    ensures
        r is None ==> workspace_index(ws@.map_values(|w: WorkspaceInfo| w@), id@, 0) is None,
        r matches Some(i) ==> i < ws@.len() && workspace_index(ws@.map_values(|w: WorkspaceInfo| w@), id@, 0)
            == Some(i as int),
{
    let ghost v = ws@.map_values(|w: WorkspaceInfo| w@);
    let key = id.to_owned();
    let mut i: usize = 0;
    while i < ws.len()
        invariant
            i <= ws@.len(),
            v == ws@.map_values(|w: WorkspaceInfo| w@),
            key@ == id@,
            workspace_index(v, id@, 0) == workspace_index(v, id@, i as int),
        decreases ws.len() - i,
    {
        if ws[i].workspace_id == key {
            return Some(i);
        }
        i += 1;
    }
    None
}

fn find_tab(tabs: &Vec<TabInfo>, id: &str) -> (r: Option<usize>)
    ensures
        r is None ==> crate::move_ops::tab_with_id(tabs@.map_values(|t: TabInfo| t@), id@, 0) is None,
        r matches Some(i) ==> i < tabs@.len() && crate::move_ops::tab_with_id(tabs@.map_values(|t: TabInfo| t@), id@, 0)
            == Some(i as int),
{
    let ghost v = tabs@.map_values(|t: TabInfo| t@);
    let key = id.to_owned();
    let mut i: usize = 0;
    while i < tabs.len()
        invariant
            i <= tabs@.len(),
            v == tabs@.map_values(|t: TabInfo| t@),
            key@ == id@,
            crate::move_ops::tab_with_id(v, id@, 0) == crate::move_ops::tab_with_id(v, id@, i as int),
        decreases tabs.len() - i,
    {
        if tabs[i].tab_id == key {
            return Some(i);
        }
        i += 1;
    }
    None
}

pub fn workspace_label_of(t: &Topology, id: &str) -> (r: String)
    ensures
        r@ == workspace_label(t@, id@),
{
    match find_workspace(&t.workspaces, id) {
        Some(i) => workspace_name_of(&t.workspaces[i]),
        None => id.to_owned(),
    }
}

pub fn tab_label_by_id_of(t: &Topology, id: &str) -> (r: String)
    ensures
        r@ == tab_label_by_id(t@, id@),
{
    match find_tab(&t.tabs, id) {
        Some(i) => tab_name_of(&t.tabs[i]),
        None => id.to_owned(),
    }
}

pub fn workspace_number_of(t: &Topology, id: &str) -> (r: usize)
    ensures
        r == workspace_number(t@, id@),
{
    match find_workspace(&t.workspaces, id) {
        Some(i) => t.workspaces[i].number,
        None => usize::MAX,
    }
}

pub fn tab_number_of(t: &Topology, id: &str) -> (r: usize)
    ensures
        r == tab_number(t@, id@),
{
    match find_tab(&t.tabs, id) {
        Some(i) => t.tabs[i].number,
        None => usize::MAX,
    }
}


/// Which name a pane shows: a label that is not blank wins; without one, the agent
/// running in the pane when there is one (and a blank agent names nothing), and only
/// when there is no agent the terminal title, when not blank; failing those, the last
/// component of the working directory, and failing that the pane's id.
pub proof fn lemma_pane_name_order(p: PaneView)
    ensures
        p.label is Some && !blank(p.label->Some_0) ==> pane_name(p) == p.label->Some_0,
        (p.label is None || blank(p.label->Some_0)) && p.agent is Some && !blank(p.agent->Some_0) ==> pane_name(p)
            == p.agent->Some_0,
        (p.label is None || blank(p.label->Some_0)) && p.agent is None && p.terminal_title_stripped is Some && !blank(
            p.terminal_title_stripped->Some_0,
        ) ==> pane_name(p) == p.terminal_title_stripped->Some_0,
        ((p.label is None || blank(p.label->Some_0)) && ((p.agent is Some && blank(p.agent->Some_0)) || (p.agent is None
            && (p.terminal_title_stripped is None || blank(p.terminal_title_stripped->Some_0))))) ==> pane_name(p) == (
        if p.cwd is Some && path_file_name(p.cwd->Some_0) is Some {
            path_file_name(p.cwd->Some_0)->Some_0
        } else {
            p.pane_id
        }),
{
}

} // verus!
