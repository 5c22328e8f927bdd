use vstd::prelude::*;

use crate::layout::{LayoutSnapshot, SplitDirection};
use crate::text::{char_is_control, chars_of, is_control, trimmed, trim};

verus! {

/// A failure, described by its full message (outer context first).
#[derive(Debug, PartialEq, Eq)]
pub struct Failure {
    pub message: String,
}

impl Failure {
    pub fn new(message: String) -> (r: Failure)
        ensures
            r.message@ == message@,
    {
        Failure { message }
    }
}

pub open spec fn opt_view(o: Option<String>) -> Option<Seq<char>> {
    match o {
        Some(s) => Some(s@),
        None => None,
    }
}

pub fn clone_opt(o: &Option<String>) -> (r: Option<String>)
    ensures
        r == *o,
{
    match o {
        Some(s) => Some(s.clone()),
        None => None,
    }
}

/// A workspace as Herdr lists it.
#[derive(Debug, PartialEq, Eq)]
pub struct WorkspaceInfo {
    pub workspace_id: String,
    pub label: String,
    pub number: usize,
    pub tab_count: usize,
    pub pane_count: usize,
    pub focused: bool,
}

pub ghost struct WorkspaceView {
    pub workspace_id: Seq<char>,
    pub label: Seq<char>,
    pub number: usize,
    pub tab_count: usize,
    pub pane_count: usize,
    pub focused: bool,
}

impl View for WorkspaceInfo {
    type V = WorkspaceView;

    open spec fn view(&self) -> WorkspaceView {
        WorkspaceView {
            workspace_id: self.workspace_id@,
            label: self.label@,
            number: self.number,
            tab_count: self.tab_count,
            pane_count: self.pane_count,
            focused: self.focused,
        }
    }
}

impl Clone for WorkspaceInfo {
    fn clone(&self) -> (r: Self)
        ensures
            r == *self,
    {
        WorkspaceInfo {
            workspace_id: self.workspace_id.clone(),
            label: self.label.clone(),
            number: self.number,
            tab_count: self.tab_count,
            pane_count: self.pane_count,
            focused: self.focused,
        }
    }
}

/// A tab as Herdr lists it.
#[derive(Debug, PartialEq, Eq)]
pub struct TabInfo {
    pub tab_id: String,
    pub workspace_id: String,
    pub label: String,
    pub number: usize,
    pub pane_count: usize,
    pub focused: bool,
}

pub ghost struct TabView {
    pub tab_id: Seq<char>,
    pub workspace_id: Seq<char>,
    pub label: Seq<char>,
    pub number: usize,
    pub pane_count: usize,
    pub focused: bool,
}

impl View for TabInfo {
    type V = TabView;

    open spec fn view(&self) -> TabView {
        TabView {
            tab_id: self.tab_id@,
            workspace_id: self.workspace_id@,
            label: self.label@,
            number: self.number,
            pane_count: self.pane_count,
            focused: self.focused,
        }
    }
}

impl Clone for TabInfo {
    fn clone(&self) -> (r: Self)
        ensures
            r == *self,
    {
        TabInfo {
            tab_id: self.tab_id.clone(),
            workspace_id: self.workspace_id.clone(),
            label: self.label.clone(),
            number: self.number,
            pane_count: self.pane_count,
            focused: self.focused,
        }
    }
}

/// A pane as Herdr lists it.
#[derive(Debug, PartialEq, Eq)]
pub struct PaneInfo {
    pub pane_id: String,
    pub tab_id: String,
    pub workspace_id: String,
    pub label: Option<String>,
    pub terminal_title_stripped: Option<String>,
    pub cwd: Option<String>,
    pub agent: Option<String>,
    pub agent_status: String,
    pub focused: bool,
}

pub ghost struct PaneView {
    pub pane_id: Seq<char>,
    pub tab_id: Seq<char>,
    pub workspace_id: Seq<char>,
    pub label: Option<Seq<char>>,
    pub terminal_title_stripped: Option<Seq<char>>,
    pub cwd: Option<Seq<char>>,
    pub agent: Option<Seq<char>>,
    pub agent_status: Seq<char>,
    pub focused: bool,
}

impl View for PaneInfo {
    type V = PaneView;

    open spec fn view(&self) -> PaneView {
        PaneView {
            pane_id: self.pane_id@,
            tab_id: self.tab_id@,
            workspace_id: self.workspace_id@,
            label: opt_view(self.label),
            terminal_title_stripped: opt_view(self.terminal_title_stripped),
            cwd: opt_view(self.cwd),
            agent: opt_view(self.agent),
            agent_status: self.agent_status@,
            focused: self.focused,
        }
    }
}

impl Clone for PaneInfo {
    fn clone(&self) -> (r: Self)
        ensures
            r == *self,
    {
        PaneInfo {
            pane_id: self.pane_id.clone(),
            tab_id: self.tab_id.clone(),
            workspace_id: self.workspace_id.clone(),
            label: clone_opt(&self.label),
            terminal_title_stripped: clone_opt(&self.terminal_title_stripped),
            cwd: clone_opt(&self.cwd),
            agent: clone_opt(&self.agent),
            agent_status: self.agent_status.clone(),
            focused: self.focused,
        }
    }
}

/// Everything Herdr lists: workspaces, tabs and panes.
#[derive(Debug, PartialEq, Eq)]
pub struct Topology {
    pub workspaces: Vec<WorkspaceInfo>,
    pub tabs: Vec<TabInfo>,
    pub panes: Vec<PaneInfo>,
}

pub ghost struct TopologyView {
    pub workspaces: Seq<WorkspaceView>,
    pub tabs: Seq<TabView>,
    pub panes: Seq<PaneView>,
}

impl View for Topology {
    type V = TopologyView;

    open spec fn view(&self) -> TopologyView {
        TopologyView {
            workspaces: self.workspaces@.map_values(|w: WorkspaceInfo| w@),
            tabs: self.tabs@.map_values(|t: TabInfo| t@),
            panes: self.panes@.map_values(|p: PaneInfo| p@),
        }
    }
}

pub fn clone_workspaces(v: &Vec<WorkspaceInfo>) -> (r: Vec<WorkspaceInfo>)
    ensures
        r@ == v@,
{
    let r = v.clone();
    assert(r@ =~= v@);
    r
}

pub fn clone_tabs(v: &Vec<TabInfo>) -> (r: Vec<TabInfo>)
    ensures
        r@ == v@,
{
    let r = v.clone();
    assert(r@ =~= v@);
    r
}

pub fn clone_panes(v: &Vec<PaneInfo>) -> (r: Vec<PaneInfo>)
    ensures
        r@ == v@,
{
    let r = v.clone();
    assert(r@ =~= v@);
    r
}

impl Clone for Topology {
    fn clone(&self) -> (r: Self)
        ensures
            r@ == self@,
            r.workspaces@ == self.workspaces@,
            r.tabs@ == self.tabs@,
            r.panes@ == self.panes@,
    {
        Topology {
            workspaces: clone_workspaces(&self.workspaces),
            tabs: clone_tabs(&self.tabs),
            panes: clone_panes(&self.panes),
        }
    }
}

/// Where a moved pane ended up.
#[derive(Debug, PartialEq, Eq)]
pub struct MovedPane {
    pub pane_id: String,
    pub tab_id: String,
    pub workspace_id: String,
}

pub ghost struct MovedView {
    pub pane_id: Seq<char>,
    pub tab_id: Seq<char>,
    pub workspace_id: Seq<char>,
}

impl View for MovedPane {
    type V = MovedView;

    open spec fn view(&self) -> MovedView {
        MovedView { pane_id: self.pane_id@, tab_id: self.tab_id@, workspace_id: self.workspace_id@ }
    }
}

impl Clone for MovedPane {
    fn clone(&self) -> (r: Self)
        ensures
            r == *self,
    {
        MovedPane {
            pane_id: self.pane_id.clone(),
            tab_id: self.tab_id.clone(),
            workspace_id: self.workspace_id.clone(),
        }
    }
}

/// What Herdr tells a plugin about where it was invoked.
#[derive(Debug, PartialEq, Eq)]
pub struct InvocationContext {
    pub focused_pane_id: Option<String>,
}

/// A usable pane id: not empty, and without control characters.
pub open spec fn valid_pane_id(id: Seq<char>) -> bool {
    id.len() > 0 && forall|i: int| 0 <= i < id.len() ==> !char_is_control(#[trigger] id[i])
}

fn has_control(s: &str) -> (r: bool)
    ensures
        r == exists|i: int| 0 <= i < s@.len() && char_is_control(#[trigger] s@[i]),
{
    let v = chars_of(s);
    let mut i: usize = 0;
    while i < v.len()
        invariant
            i <= v@.len(),
            v@ == s@,
            forall|k: int| 0 <= k < i ==> !char_is_control(#[trigger] s@[k]),
        decreases v.len() - i,
    {
        if is_control(v[i]) {
            return true;
        }
        i += 1;
    }
    false
}

impl InvocationContext {
    /// The pane Ferry was invoked from: the focused pane id, trimmed, when that is usable.
    pub fn source_pane_id(&self) -> (r: Result<&str, Failure>)
        ensures
            match self.focused_pane_id {
                Some(id) if valid_pane_id(trimmed(id@)) => r matches Ok(s) && s@ == trimmed(id@),
                _ => r matches Err(e) && e.message@ == "plugin context has no valid focused pane"@,
            },
    {
        match &self.focused_pane_id {
            Some(id) => {
                let t = trim(id.as_str());
                if !t.is_empty() && !has_control(t) {
                    return Ok(t);
                }
            },
            None => {},
        }
        Err(Failure::new("plugin context has no valid focused pane".to_owned()))
    }
}

/// One request to Herdr that a move needs; the caller performs it and answers with a
/// `HerdrReply` of the matching kind.
#[derive(Debug, PartialEq, Eq)]
pub enum HerdrCall {
    /// List workspaces, tabs and panes.
    Topology,
    /// Report the layout of the tab that holds `pane_id`.
    Layout { pane_id: String },
    /// Move a pane into an existing tab (the ratio as the bits of an `f32`).
    MoveToTab {
        pane_id: String,
        tab_id: String,
        direction: SplitDirection,
        target_pane_id: Option<String>,
        ratio_bits: Option<u32>,
        focus: bool,
    },
    /// Move a pane into a new tab of a workspace.
    MoveToNewTab { pane_id: String, workspace_id: String, label: Option<String>, focus: bool },
    /// Move a pane into a new workspace.
    MoveToNewWorkspace { pane_id: String, label: Option<String>, tab_label: Option<String>, focus: bool },
    /// Focus a workspace.
    FocusWorkspace { workspace_id: String },
    /// Focus a tab.
    FocusTab { tab_id: String },
}

pub ghost enum CallView {
    Topology,
    Layout { pane_id: Seq<char> },
    MoveToTab {
        pane_id: Seq<char>,
        tab_id: Seq<char>,
        direction: SplitDirection,
        target_pane_id: Option<Seq<char>>,
        ratio_bits: Option<u32>,
        focus: bool,
    },
    MoveToNewTab { pane_id: Seq<char>, workspace_id: Seq<char>, label: Option<Seq<char>>, focus: bool },
    MoveToNewWorkspace { pane_id: Seq<char>, label: Option<Seq<char>>, tab_label: Option<Seq<char>>, focus: bool },
    FocusWorkspace { workspace_id: Seq<char> },
    FocusTab { tab_id: Seq<char> },
}

impl View for HerdrCall {
    type V = CallView;

    open spec fn view(&self) -> CallView {
        match self {
            HerdrCall::Topology => CallView::Topology,
            HerdrCall::Layout { pane_id } => CallView::Layout { pane_id: pane_id@ },
            HerdrCall::MoveToTab { pane_id, tab_id, direction, target_pane_id, ratio_bits, focus } =>
                CallView::MoveToTab {
                    pane_id: pane_id@,
                    tab_id: tab_id@,
                    direction: *direction,
                    target_pane_id: opt_view(*target_pane_id),
                    ratio_bits: *ratio_bits,
                    focus: *focus,
                },
            HerdrCall::MoveToNewTab { pane_id, workspace_id, label, focus } => CallView::MoveToNewTab {
                pane_id: pane_id@,
                workspace_id: workspace_id@,
                label: opt_view(*label),
                focus: *focus,
            },
            HerdrCall::MoveToNewWorkspace { pane_id, label, tab_label, focus } => CallView::MoveToNewWorkspace {
                pane_id: pane_id@,
                label: opt_view(*label),
                tab_label: opt_view(*tab_label),
                focus: *focus,
            },
            HerdrCall::FocusWorkspace { workspace_id } => CallView::FocusWorkspace { workspace_id: workspace_id@ },
            HerdrCall::FocusTab { tab_id } => CallView::FocusTab { tab_id: tab_id@ },
        }
    }
}

/// Herdr's answer to a `HerdrCall`.
pub enum HerdrReply {
    Topology(Result<Topology, Failure>),
    Layout(Result<LayoutSnapshot, Failure>),
    Moved(Result<MovedPane, Failure>),
    Focused(Result<(), Failure>),
}

pub ghost enum ReplyView {
    Topology(Result<TopologyView, Seq<char>>),
    Layout(Result<LayoutSnapshot, Seq<char>>),
    Moved(Result<MovedView, Seq<char>>),
    Focused(Result<(), Seq<char>>),
}

impl View for HerdrReply {
    type V = ReplyView;

    open spec fn view(&self) -> ReplyView {
        match self {
            HerdrReply::Topology(r) => ReplyView::Topology(match r {
                Ok(t) => Ok(t@),
                Err(e) => Err(e.message@),
            }),
            HerdrReply::Layout(r) => ReplyView::Layout(match r {
                Ok(s) => Ok(*s),
                Err(e) => Err(e.message@),
            }),
            HerdrReply::Moved(r) => ReplyView::Moved(match r {
                Ok(m) => Ok(m@),
                Err(e) => Err(e.message@),
            }),
            HerdrReply::Focused(r) => ReplyView::Focused(match r {
                Ok(()) => Ok(()),
                Err(e) => Err(e.message@),
            }),
        }
    }
}

/// The characters of each argument.
pub open spec fn arg_views(v: Seq<String>) -> Seq<Seq<char>> {
    v.map_values(|a: String| a@)
}

fn push_arg(args: &mut Vec<String>, a: &str)
    ensures
        arg_views(final(args)@) == arg_views(old(args)@).push(a@),
{
    args.push(a.to_owned());
    assert(arg_views(args@) =~= arg_views(old(args)@).push(a@));
}

pub open spec fn focus_flag(focus: bool) -> Seq<char> {
    if focus { "--focus"@ } else { "--no-focus"@ }
}

/// `key value` when `value` is present and not empty; nothing otherwise.
pub open spec fn optional_pair(key: Seq<char>, value: Option<Seq<char>>) -> Seq<Seq<char>> {
    match value {
        Some(v) if v.len() > 0 => seq![key, v],
        _ => Seq::empty(),
    }
}

pub open spec fn opt_str_view(o: Option<&str>) -> Option<Seq<char>> {
    match o {
        Some(s) => Some(s@),
        None => None,
    }
}

fn push_value(args: &mut Vec<String>, key: &str, value: Option<&str>)
    ensures
        arg_views(final(args)@) == arg_views(old(args)@) + optional_pair(key@, opt_str_view(value)),
{
    match value {
        Some(v) => {
            if !v.is_empty() {
                push_arg(args, key);
                push_arg(args, v);
                assert(arg_views(args@) =~= arg_views(old(args)@) + optional_pair(key@, opt_str_view(value)));
                return;
            }
        },
        None => {},
    }
    assert(arg_views(args@) =~= arg_views(old(args)@) + optional_pair(key@, opt_str_view(value)));
}

/// Arguments of the three listing commands behind a topology: workspaces, tabs, panes.
pub fn topology_args() -> (r: Vec<Vec<String>>)
    ensures
        r@.len() == 3,
        arg_views(r@[0]@) == seq!["workspace"@, "list"@],
        arg_views(r@[1]@) == seq!["tab"@, "list"@],
        arg_views(r@[2]@) == seq!["pane"@, "list"@],
{
    let mut w: Vec<String> = Vec::new();
    push_arg(&mut w, "workspace");
    push_arg(&mut w, "list");
    let mut t: Vec<String> = Vec::new();
    push_arg(&mut t, "tab");
    push_arg(&mut t, "list");
    let mut p: Vec<String> = Vec::new();
    push_arg(&mut p, "pane");
    push_arg(&mut p, "list");
    let mut r: Vec<Vec<String>> = Vec::new();
    r.push(w);
    r.push(t);
    r.push(p);
    r
}

/// Arguments that ask Herdr for one pane.
pub fn pane_args(pane_id: &str) -> (r: Vec<String>)
    ensures
        arg_views(r@) == seq!["pane"@, "get"@, pane_id@],
{
    let mut r: Vec<String> = Vec::new();
    push_arg(&mut r, "pane");
    push_arg(&mut r, "get");
    push_arg(&mut r, pane_id);
    r
}

/// Arguments that ask Herdr for the layout of the tab holding `pane_id`.
pub fn layout_args(pane_id: &str) -> (r: Vec<String>)
    ensures
        arg_views(r@) == seq!["pane"@, "layout"@, "--pane"@, pane_id@],
{
    let mut r: Vec<String> = Vec::new();
    push_arg(&mut r, "pane");
    push_arg(&mut r, "layout");
    push_arg(&mut r, "--pane");
    push_arg(&mut r, pane_id);
    r
}

/// Arguments that open the picker popup, passing the source pane in its environment.
pub fn launch_picker_args(source_pane_id: &str) -> (r: Vec<String>)
    ensures
        arg_views(r@) == seq![
            "plugin"@, "pane"@, "open"@, "--plugin"@, crate::PLUGIN_ID@, "--entrypoint"@,
            "picker"@, "--placement"@, "popup"@, "--width"@, "76"@, "--height"@, "24"@,
            "--env"@, "HERDR_FERRY_SOURCE_PANE_ID="@ + source_pane_id@,
        ],
{
    let source = crate::text::concat("HERDR_FERRY_SOURCE_PANE_ID=", source_pane_id);
    let mut r: Vec<String> = Vec::new();
    push_arg(&mut r, "plugin");
    push_arg(&mut r, "pane");
    push_arg(&mut r, "open");
    push_arg(&mut r, "--plugin");
    push_arg(&mut r, crate::PLUGIN_ID);
    push_arg(&mut r, "--entrypoint");
    push_arg(&mut r, "picker");
    push_arg(&mut r, "--placement");
    push_arg(&mut r, "popup");
    push_arg(&mut r, "--width");
    push_arg(&mut r, "76");
    push_arg(&mut r, "--height");
    push_arg(&mut r, "24");
    push_arg(&mut r, "--env");
    push_arg(&mut r, source.as_str());
    r
}

/// Arguments that move `pane_id` into the existing tab `tab_id`, splitting `direction`,
/// next to `target_pane_id` when given, with the split ratio text when given.
pub fn move_to_tab_args(
    pane_id: &str,
    tab_id: &str,
    direction: SplitDirection,
    target_pane_id: Option<&str>,
    ratio_text: Option<&str>,
    focus: bool,
) -> (r: Vec<String>)
    ensures
        arg_views(r@) == seq!["pane"@, "move"@, pane_id@, "--tab"@, tab_id@, "--split"@, direction.text()]
            + (match target_pane_id { Some(t) => seq!["--target-pane"@, t@], None => Seq::empty() })
            + (match ratio_text { Some(t) => seq!["--ratio"@, t@], None => Seq::empty() })
            + seq![focus_flag(focus)],
{
    let mut r: Vec<String> = Vec::new();
    push_arg(&mut r, "pane");
    push_arg(&mut r, "move");
    push_arg(&mut r, pane_id);
    push_arg(&mut r, "--tab");
    push_arg(&mut r, tab_id);
    push_arg(&mut r, "--split");
    push_arg(&mut r, direction.as_str());
    let ghost base = arg_views(r@);
    match target_pane_id {
        Some(t) => {
            push_arg(&mut r, "--target-pane");
            push_arg(&mut r, t);
        },
        None => {},
    }
    let ghost with_target = arg_views(r@);
    assert(with_target =~= base + (match target_pane_id { Some(t) => seq!["--target-pane"@, t@], None => Seq::<Seq<char>>::empty() }));
    match ratio_text {
        Some(t) => {
            push_arg(&mut r, "--ratio");
            push_arg(&mut r, t);
        },
        None => {},
    }
    assert(arg_views(r@) =~= with_target + (match ratio_text { Some(t) => seq!["--ratio"@, t@], None => Seq::<Seq<char>>::empty() }));
    if focus {
        push_arg(&mut r, "--focus");
    } else {
        push_arg(&mut r, "--no-focus");
    }
    r
}

/// Arguments that move `pane_id` into a new tab of `workspace_id`.
pub fn move_to_new_tab_args(pane_id: &str, workspace_id: &str, label: Option<&str>, focus: bool) -> (r: Vec<String>)
    ensures
        arg_views(r@) == seq!["pane"@, "move"@, pane_id@, "--new-tab"@, "--workspace"@, workspace_id@]
            + optional_pair("--label"@, opt_str_view(label)) + seq![focus_flag(focus)],
{
    let mut r: Vec<String> = Vec::new();
    push_arg(&mut r, "pane");
    push_arg(&mut r, "move");
    push_arg(&mut r, pane_id);
    push_arg(&mut r, "--new-tab");
    push_arg(&mut r, "--workspace");
    push_arg(&mut r, workspace_id);
    push_value(&mut r, "--label", label);
    if focus {
        push_arg(&mut r, "--focus");
    } else {
        push_arg(&mut r, "--no-focus");
    }
    r
}

/// Arguments that move `pane_id` into a new workspace.
pub fn move_to_new_workspace_args(pane_id: &str, label: Option<&str>, tab_label: Option<&str>, focus: bool) -> (r: Vec<String>)
    ensures
        arg_views(r@) == seq!["pane"@, "move"@, pane_id@, "--new-workspace"@]
            + optional_pair("--label"@, opt_str_view(label))
            + optional_pair("--tab-label"@, opt_str_view(tab_label)) + seq![focus_flag(focus)],
{
    let mut r: Vec<String> = Vec::new();
    push_arg(&mut r, "pane");
    push_arg(&mut r, "move");
    push_arg(&mut r, pane_id);
    push_arg(&mut r, "--new-workspace");
    push_value(&mut r, "--label", label);
    push_value(&mut r, "--tab-label", tab_label);
    if focus {
        push_arg(&mut r, "--focus");
    } else {
        push_arg(&mut r, "--no-focus");
    }
    r
}

/// Arguments that focus a workspace.
pub fn focus_workspace_args(workspace_id: &str) -> (r: Vec<String>)
    ensures
        arg_views(r@) == seq!["workspace"@, "focus"@, workspace_id@],
{
    let mut r: Vec<String> = Vec::new();
    push_arg(&mut r, "workspace");
    push_arg(&mut r, "focus");
    push_arg(&mut r, workspace_id);
    r
}

/// Arguments that focus a tab.
pub fn focus_tab_args(tab_id: &str) -> (r: Vec<String>)
    ensures
        arg_views(r@) == seq!["tab"@, "focus"@, tab_id@],
{
    let mut r: Vec<String> = Vec::new();
    push_arg(&mut r, "tab");
    push_arg(&mut r, "focus");
    push_arg(&mut r, tab_id);
    r
}

/// Arguments that make Herdr reload its configuration.
pub fn reload_config_args() -> (r: Vec<String>)
    ensures
        arg_views(r@) == seq!["server"@, "reload-config"@],
{
    let mut r: Vec<String> = Vec::new();
    push_arg(&mut r, "server");
    push_arg(&mut r, "reload-config");
    r
}

/// Longest notification body, in characters.
pub const NOTIFY_LIMIT: usize = 220;

/// The first `NOTIFY_LIMIT` characters of `body`.
pub open spec fn notification_body(body: Seq<char>) -> Seq<char> {
    if body.len() <= NOTIFY_LIMIT { body } else { body.take(NOTIFY_LIMIT as int) }
}

/// Arguments that show a Ferry notification with `body`, cut to its first 220 characters.
pub fn notify_args(body: &str) -> (r: Vec<String>)
    ensures
        arg_views(r@) == seq!["notification"@, "show"@, "Ferry"@, "--body"@, notification_body(body@)],
{
    let chars = chars_of(body);
    let mut kept: Vec<char> = Vec::new();
    let mut i: usize = 0;
    while i < chars.len() && i < NOTIFY_LIMIT
        invariant
            chars@ == body@,
            i <= chars@.len(),
            i <= NOTIFY_LIMIT,
            kept@ == body@.take(i as int),
        decreases chars.len() - i,
    {
        kept.push(chars[i]);
        assert(body@.take(i as int).push(body@[i as int]) =~= body@.take(i + 1));
        i += 1;
    }
    assert(kept@ =~= notification_body(body@));
    let text = crate::text::string_of(&kept);
    let mut r: Vec<String> = Vec::new();
    push_arg(&mut r, "notification");
    push_arg(&mut r, "show");
    push_arg(&mut r, "Ferry");
    push_arg(&mut r, "--body");
    push_arg(&mut r, text.as_str());
    r
}

/// The outcome of a move as Herdr answered it: the pane where it landed, or, when Herdr
/// reports that nothing changed, a failure that gives its reason.
pub fn move_outcome(changed: bool, reason: Option<String>, pane: PaneInfo) -> (r: Result<MovedPane, Failure>)
    ensures
        changed ==> (r matches Ok(m) && m.pane_id == pane.pane_id && m.tab_id == pane.tab_id
            && m.workspace_id == pane.workspace_id),
        !changed ==> (r matches Err(e) && e.message@ == "Herdr declined the move: "@ + (match reason {
            Some(t) => t@,
            None => "unknown reason"@,
        })),
{
    if !changed {
        let reason = match reason {
            Some(t) => t,
            None => "unknown reason".to_owned(),
        };
        return Err(Failure::new(crate::text::concat("Herdr declined the move: ", reason.as_str())));
    }
    Ok(MovedPane { pane_id: pane.pane_id, tab_id: pane.tab_id, workspace_id: pane.workspace_id })
}

/// The failure for a Herdr command that ended with `status` (as the exit status is
/// written) after printing `stderr`, whose surrounding whitespace is dropped.
pub fn command_failure(status: &str, stderr: &str) -> (r: Failure)
    ensures
        r.message@ == "Herdr command failed with "@ + status@ + ": "@ + trimmed(stderr@),
{
    let mut m = "Herdr command failed with ".to_owned();
    m.append(status);
    m.append(": ");
    m.append(trim(stderr));
    Failure::new(m)
}

} // verus!
