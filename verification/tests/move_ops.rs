use herdr_ferry::app::{MovePaneRequest, MoveTabRequest, PaneDestination, PaneSource, TabDestination};
use herdr_ferry::herdr::{
    focus_tab_args, focus_workspace_args, layout_args, move_outcome, move_to_new_tab_args,
    move_to_new_workspace_args, move_to_tab_args, Failure, HerdrCall, HerdrReply, PaneInfo, TabInfo, Topology,
    WorkspaceInfo,
};
use herdr_ferry::app::MergeWorkspaceRequest;
use herdr_ferry::layout::{LayoutNode, LayoutSnapshot, Rect, SnapshotPane, SnapshotSplit, SplitDirection};
use herdr_ferry::merge::MergeMove;
use herdr_ferry::move_ops::{tab_label, validate_tab_source, MoveSummary, PaneMove, Step, TabMove};

fn pane_info(pane_id: &str, tab_id: &str, workspace_id: &str, focused: bool) -> PaneInfo {
    PaneInfo {
        pane_id: pane_id.into(),
        tab_id: tab_id.into(),
        workspace_id: workspace_id.into(),
        label: None,
        terminal_title_stripped: None,
        cwd: None,
        agent: None,
        agent_status: "unknown".into(),
        focused,
    }
}

fn tab_info(tab_id: &str, workspace_id: &str, label: &str, pane_count: usize, focused: bool) -> TabInfo {
    TabInfo {
        tab_id: tab_id.into(),
        workspace_id: workspace_id.into(),
        label: label.into(),
        number: 1,
        pane_count,
        focused,
    }
}

fn topology() -> Topology {
    Topology {
        workspaces: vec![WorkspaceInfo {
            workspace_id: "w1".into(),
            label: "one".into(),
            number: 1,
            tab_count: 1,
            pane_count: 2,
            focused: true,
        }],
        tabs: vec![tab_info("w1:t1", "w1", "main", 2, true)],
        panes: vec![
            pane_info("w1:p1", "w1:t1", "w1", true),
            pane_info("w1:p2", "w1:t1", "w1", false),
        ],
    }
}

#[test]
fn source_validation_requires_exact_layout_membership() {
    let root = LayoutNode::Split {
        direction: SplitDirection::Right,
        ratio_bits: 0.5f32.to_bits(),
        first: Box::new(LayoutNode::Pane {
            pane_id: "w1:p1".into(),
        }),
        second: Box::new(LayoutNode::Pane {
            pane_id: "w1:p2".into(),
        }),
    };

    assert!(validate_tab_source(&topology(), &root, &"w1:t1".to_string()).is_ok());
    assert!(validate_tab_source(&topology(), &root, &"w2:t1".to_string()).is_err());

    let mut topology = topology();
    topology.panes.push(PaneInfo {
        pane_id: "w1:p3".into(),
        tab_id: "w1:t1".into(),
        workspace_id: "w1".into(),
        label: None,
        terminal_title_stripped: None,
        cwd: None,
        agent: None,
        agent_status: "unknown".into(),
        focused: false,
    });
    assert!(validate_tab_source(&topology, &root, &"w1:t1".to_string()).is_err());
}

#[test]
fn source_validation_refuses_a_pane_twice() {
    let root = LayoutNode::Split {
        direction: SplitDirection::Right,
        ratio_bits: 0.5f32.to_bits(),
        first: Box::new(LayoutNode::Pane {
            pane_id: "w1:p1".into(),
        }),
        second: Box::new(LayoutNode::Pane {
            pane_id: "w1:p1".into(),
        }),
    };
    let error = validate_tab_source(&topology(), &root, &"w1:t1".to_string()).unwrap_err();
    assert_eq!(error.message, "the source tab layout changed while Ferry was open");
}

#[test]
fn moved_tabs_keep_their_trimmed_label() {
    assert_eq!(tab_label("  logs "), "logs");
    assert_eq!(tab_label("   "), "moved");
}

// A scripted Herdr session with two workspaces: it answers each call as the server would
// and logs the command line of every call.

struct Script {
    log: Vec<String>,
    fail_second_tab: bool,
}

fn area() -> Rect {
    Rect {
        x: 0,
        y: 0,
        width: 100,
        height: 20,
    }
}

fn snapshot_pane(pane_id: &str, x: u16, width: u16, focused: bool) -> SnapshotPane {
    SnapshotPane {
        pane_id: pane_id.into(),
        rect: Rect {
            x,
            y: 0,
            width,
            height: 20,
        },
        focused,
    }
}

fn single_pane_layout(workspace_id: &str, tab_id: &str, pane_id: &str) -> LayoutSnapshot {
    LayoutSnapshot {
        workspace_id: workspace_id.into(),
        tab_id: tab_id.into(),
        zoomed: false,
        area: area(),
        focused_pane_id: pane_id.into(),
        panes: vec![snapshot_pane(pane_id, 0, 100, false)],
        splits: Vec::new(),
    }
}

fn session() -> Topology {
    let mut w1 = pane_info("w1:p1", "w1:t1", "w1", true);
    w1.agent_status = String::new();
    let listed = |p: &str, t: &str, w: &str| {
        let mut pane = pane_info(p, t, w, false);
        pane.agent_status = String::new();
        pane
    };
    Topology {
        workspaces: vec![
            WorkspaceInfo {
                workspace_id: "w1".into(),
                label: "source".into(),
                number: 0,
                tab_count: 0,
                pane_count: 0,
                focused: false,
            },
            WorkspaceInfo {
                workspace_id: "w2".into(),
                label: "target".into(),
                number: 0,
                tab_count: 0,
                pane_count: 0,
                focused: false,
            },
        ],
        tabs: vec![
            TabInfo {
                number: 0,
                ..tab_info("w1:t1", "w1", "main", 2, false)
            },
            TabInfo {
                number: 0,
                ..tab_info("w1:t2", "w1", "logs", 1, false)
            },
            TabInfo {
                number: 0,
                ..tab_info("w2:t1", "w2", "target", 1, false)
            },
        ],
        panes: vec![
            w1,
            listed("w1:p2", "w1:t1", "w1"),
            listed("w1:p3", "w1:t2", "w1"),
            listed("w2:p1", "w2:t1", "w2"),
        ],
    }
}

fn landed(pane_id: &str, tab_id: &str, workspace_id: &str) -> HerdrReply {
    HerdrReply::Moved(move_outcome(true, None, pane_info(pane_id, tab_id, workspace_id, false)))
}

fn command_failed(code: u8, stderr: &str) -> Failure {
    Failure {
        message: format!("Herdr command failed with exit status: {code}: {stderr}"),
    }
}

impl Script {
    fn new() -> Self {
        Script {
            log: Vec::new(),
            fail_second_tab: false,
        }
    }

    fn log_text(&self) -> String {
        self.log.iter().map(|line| format!("{line}\n")).collect()
    }

    fn answer(&mut self, call: &HerdrCall) -> HerdrReply {
        match call {
            HerdrCall::Topology => {
                self.log.push("workspace list".into());
                self.log.push("tab list".into());
                self.log.push("pane list".into());
                HerdrReply::Topology(Ok(session()))
            }
            HerdrCall::Layout { pane_id } => {
                self.log.push(layout_args(pane_id).join(" "));
                HerdrReply::Layout(match pane_id.as_str() {
                    "w1:p1" | "w1:p2" => Ok(LayoutSnapshot {
                        workspace_id: "w1".into(),
                        tab_id: "w1:t1".into(),
                        zoomed: false,
                        area: area(),
                        focused_pane_id: "w1:p1".into(),
                        panes: vec![snapshot_pane("w1:p1", 0, 50, true), snapshot_pane("w1:p2", 50, 50, false)],
                        splits: vec![SnapshotSplit {
                            direction: SplitDirection::Right,
                            ratio_bits: 0.5f32.to_bits(),
                            rect: area(),
                        }],
                    }),
                    "w1:p3" => Ok(single_pane_layout("w1", "w1:t2", "w1:p3")),
                    "w2:p1" => Ok(single_pane_layout("w2", "w2:t1", "w2:p1")),
                    _ => Err(command_failed(3, "")),
                })
            }
            HerdrCall::MoveToTab {
                pane_id,
                tab_id,
                direction,
                target_pane_id,
                ratio_bits,
                focus,
            } => {
                let ratio = ratio_bits.map(|bits| f32::from_bits(bits).to_string());
                let line = move_to_tab_args(
                    pane_id,
                    tab_id,
                    *direction,
                    target_pane_id.as_deref(),
                    ratio.as_deref(),
                    *focus,
                )
                .join(" ");
                self.answer_move(line)
            }
            HerdrCall::MoveToNewTab {
                pane_id,
                workspace_id,
                label,
                focus,
            } => {
                let line = move_to_new_tab_args(pane_id, workspace_id, label.as_deref(), *focus).join(" ");
                self.answer_move(line)
            }
            HerdrCall::MoveToNewWorkspace {
                pane_id,
                label,
                tab_label,
                focus,
            } => {
                let line =
                    move_to_new_workspace_args(pane_id, label.as_deref(), tab_label.as_deref(), *focus).join(" ");
                self.answer_move(line)
            }
            HerdrCall::FocusWorkspace { workspace_id } => {
                self.log.push(focus_workspace_args(workspace_id).join(" "));
                HerdrReply::Focused(Ok(()))
            }
            HerdrCall::FocusTab { tab_id } => {
                self.log.push(focus_tab_args(tab_id).join(" "));
                HerdrReply::Focused(Ok(()))
            }
        }
    }

    fn answer_move(&mut self, line: String) -> HerdrReply {
        self.log.push(line.clone());
        if line.contains("w1:p1 --new-workspace") {
            landed("w3:p1", "w3:t1", "w3")
        } else if line.contains("w1:p2 --tab w3:t1") {
            landed("w3:p2", "w3:t1", "w3")
        } else if line.contains("w1:p3 --new-tab --workspace w3") {
            landed("w3:p3", "w3:t2", "w3")
        } else if line.contains("w1:p1 --tab w2:t1") {
            landed("w2:p9", "w2:t1", "w2")
        } else if line.contains("w1:p3 --tab w2:t1") {
            landed("w2:p8", "w2:t1", "w2")
        } else if line.contains("w1:p3 --new-tab --workspace w2") {
            if self.fail_second_tab {
                HerdrReply::Moved(Err(command_failed(4, "injected second-tab failure")))
            } else {
                landed("w2:p7", "w2:t8", "w2")
            }
        } else if line.contains("w2:p1 --new-tab --workspace w1") {
            landed("w1:p9", "w1:t9", "w1")
        } else if line.contains("--new-tab") {
            landed("w2:p9", "w2:t9", "w2")
        } else if line.contains("--tab w2:t9") {
            landed("w2:p8", "w2:t9", "w2")
        } else {
            HerdrReply::Moved(Err(command_failed(3, "")))
        }
    }

    fn move_pane(&mut self, request: MovePaneRequest) -> Result<MoveSummary, Failure> {
        let (mut machine, mut step) = PaneMove::begin(request);
        loop {
            match step {
                Step::Finish(result) => return result,
                Step::Call(call) => {
                    let reply = self.answer(&call);
                    assert!(machine.answers(&reply));
                    (machine, step) = machine.advance(reply);
                }
            }
        }
    }

    fn merge_workspace(&mut self, request: MergeWorkspaceRequest) -> Result<MoveSummary, Failure> {
        let (mut machine, mut step) = MergeMove::begin(request);
        loop {
            match step {
                Step::Finish(result) => return result,
                Step::Call(call) => {
                    let reply = self.answer(&call);
                    assert!(machine.answers(&reply));
                    (machine, step) = machine.advance(reply);
                }
            }
        }
    }

    fn move_tab(&mut self, request: MoveTabRequest) -> Result<MoveSummary, Failure> {
        let (mut machine, mut step) = TabMove::begin(request);
        loop {
            match step {
                Step::Finish(result) => return result,
                Step::Call(call) => {
                    let reply = self.answer(&call);
                    assert!(machine.answers(&reply));
                    (machine, step) = machine.advance(reply);
                }
            }
        }
    }
}

#[test]
fn whole_tab_move_replays_the_reported_split_with_returned_pane_ids() {
    let mut herdr = Script::new();

    let summary = herdr
        .move_tab(MoveTabRequest {
            tab_ids: vec!["w1:t1".into()],
            destination: TabDestination::Workspace {
                workspace_id: "w2".into(),
            },
        })
        .unwrap();

    assert_eq!(summary.message, "Tab “main” moved to w2");
    assert_eq!(summary.moved_panes, 2);
    assert_eq!(summary.moved_tabs, 1);
    let log = herdr.log_text();
    assert!(log.contains("pane move w1:p1 --new-tab --workspace w2 --label main --no-focus"));
    assert!(log.contains("pane move w1:p2 --tab w2:t9 --split right --target-pane w2:p9 --ratio 0.5 --no-focus"));
    assert!(log.ends_with("workspace focus w2\ntab focus w2:t9\n"));
}

#[test]
fn multiple_panes_append_in_selection_order_and_focus_once() {
    let mut herdr = Script::new();

    let summary = herdr
        .move_pane(MovePaneRequest {
            sources: vec![
                PaneSource {
                    pane_id: "w1:p1".into(),
                    expected_tab_id: "w1:t1".into(),
                },
                PaneSource {
                    pane_id: "w1:p3".into(),
                    expected_tab_id: "w1:t2".into(),
                },
            ],
            direction: SplitDirection::Down,
            destination: PaneDestination::ExistingTab {
                tab_id: "w2:t1".into(),
            },
        })
        .unwrap();

    assert_eq!(summary.message, "2 panes moved to w2:t1");
    let log = herdr.log_text();
    assert!(log.contains("pane move w1:p1 --tab w2:t1 --split down --no-focus"));
    assert!(log.contains("pane move w1:p3 --tab w2:t1 --split down --target-pane w2:p9 --no-focus"));
    assert_eq!(log.matches("workspace focus").count(), 1);
    assert_eq!(log.matches("tab focus").count(), 1);
}

#[test]
fn multiple_tabs_append_to_one_new_workspace() {
    let mut herdr = Script::new();

    let summary = herdr
        .move_tab(MoveTabRequest {
            tab_ids: vec!["w1:t1".into(), "w1:t2".into()],
            destination: TabDestination::NewWorkspace {
                label: Some("combined".into()),
            },
        })
        .unwrap();

    assert_eq!(summary.message, "2 tabs moved to w3");
    assert_eq!(summary.moved_panes, 3);
    assert_eq!(summary.moved_tabs, 2);
    let log = herdr.log_text();
    let first = log
        .find("pane move w1:p1 --new-workspace --label combined --tab-label main --no-focus")
        .unwrap();
    let second = log.find("pane move w1:p3 --new-tab --workspace w3 --label logs --no-focus").unwrap();
    assert!(first < second);
    assert!(log.contains("pane move w1:p2 --tab w3:t1 --split right --target-pane w3:p1 --ratio 0.5 --no-focus"));
    assert!(log.ends_with("workspace focus w3\ntab focus w3:t1\n"));
}

#[test]
fn invalid_batch_is_rejected_before_any_move() {
    let mut herdr = Script::new();

    let error = herdr
        .move_tab(MoveTabRequest {
            tab_ids: vec!["w1:t1".into(), "missing".into()],
            destination: TabDestination::Workspace {
                workspace_id: "w2".into(),
            },
        })
        .unwrap_err();

    assert!(error.message.contains("selected tab no longer exists"));
    assert!(!herdr.log_text().contains("pane move"));
}

#[test]
fn partial_batch_failure_reports_completed_work() {
    let mut herdr = Script::new();
    herdr.fail_second_tab = true;

    let error = herdr
        .move_tab(MoveTabRequest {
            tab_ids: vec!["w1:t1".into(), "w1:t2".into()],
            destination: TabDestination::Workspace {
                workspace_id: "w2".into(),
            },
        })
        .unwrap_err();

    assert!(error.message.contains("after 1/2 tabs and 2/3 panes"));
    assert!(error.message.contains("all moved panes are still live"));
    assert!(!herdr.log_text().contains("workspace focus"));
}

#[test]
fn empty_selections_are_refused_without_a_call() {
    let (_, step) = PaneMove::begin(MovePaneRequest {
        sources: Vec::new(),
        direction: SplitDirection::Right,
        destination: PaneDestination::NewWorkspace { label: None },
    });
    let Step::Finish(Err(error)) = step else {
        panic!("expected refusal");
    };
    assert_eq!(error.message, "select at least one pane");

    let (_, step) = TabMove::begin(MoveTabRequest {
        tab_ids: Vec::new(),
        destination: TabDestination::NewWorkspace { label: None },
    });
    let Step::Finish(Err(error)) = step else {
        panic!("expected refusal");
    };
    assert_eq!(error.message, "select at least one tab");
}

#[test]
fn a_pane_that_moved_away_is_reported_before_any_move() {
    let mut herdr = Script::new();
    let error = herdr
        .move_pane(MovePaneRequest {
            sources: vec![PaneSource {
                pane_id: "w9:p9".into(),
                expected_tab_id: "w9:t9".into(),
            }],
            direction: SplitDirection::Right,
            destination: PaneDestination::ExistingTab {
                tab_id: "w2:t1".into(),
            },
        })
        .unwrap_err();
    assert_eq!(error.message, "selected pane no longer exists: w9:p9");
    assert!(!herdr.log_text().contains("pane move"));
}

#[test]
fn a_failed_first_pane_move_names_the_pane() {
    let mut herdr = Script::new();
    let error = herdr
        .move_pane(MovePaneRequest {
            sources: vec![PaneSource {
                pane_id: "w1:p2".into(),
                expected_tab_id: "w1:t1".into(),
            }],
            direction: SplitDirection::Right,
            destination: PaneDestination::ExistingTab {
                tab_id: "w2:t1".into(),
            },
        })
        .unwrap_err();
    assert_eq!(
        error.message,
        "could not move pane 1/1 (w1:p2): Herdr command failed with exit status: 3: "
    );
}

#[test]
fn a_tab_already_in_the_destination_is_refused() {
    let mut herdr = Script::new();
    let error = herdr
        .move_tab(MoveTabRequest {
            tab_ids: vec!["w2:t1".into()],
            destination: TabDestination::Workspace {
                workspace_id: "w2".into(),
            },
        })
        .unwrap_err();
    assert_eq!(error.message, "tab w2:t1 is already in the destination workspace");
}

#[test]
fn a_move_takes_only_the_answer_to_its_call() {
    let (machine, step) = PaneMove::begin(MovePaneRequest {
        sources: vec![PaneSource {
            pane_id: "w1:p1".into(),
            expected_tab_id: "w1:t1".into(),
        }],
        direction: SplitDirection::Right,
        destination: PaneDestination::NewWorkspace { label: None },
    });
    assert!(matches!(step, Step::Call(HerdrCall::Topology)));
    assert!(!machine.answers(&HerdrReply::Focused(Ok(()))));
    assert!(machine.answers(&HerdrReply::Topology(Ok(session()))));

    let (machine, _) = TabMove::begin(MoveTabRequest {
        tab_ids: vec!["w1:t1".into()],
        destination: TabDestination::NewWorkspace { label: None },
    });
    assert!(!machine.answers(&HerdrReply::Moved(Err(command_failed(1, "")))));
    assert!(machine.answers(&HerdrReply::Topology(Ok(session()))));
}

#[test]
fn workspace_merge_appends_every_tab_in_source_order() {
    let mut herdr = Script::new();

    let summary = herdr
        .merge_workspace(MergeWorkspaceRequest {
            source_workspace_id: "w1".into(),
            destination_workspace_id: "w2".into(),
        })
        .unwrap();

    assert_eq!(summary.message, "Workspace “source” merged into “target” · 2 tabs");
    assert_eq!(summary.moved_tabs, 2);
    let log = herdr.log_text();
    let first = log.find("pane move w1:p1 --new-tab --workspace w2 --label main --no-focus").unwrap();
    let second = log.find("pane move w1:p3 --new-tab --workspace w2 --label logs --no-focus").unwrap();
    assert!(first < second);
}

#[test]
fn merging_a_missing_workspace_is_refused_before_any_move() {
    let mut herdr = Script::new();

    let error = herdr
        .merge_workspace(MergeWorkspaceRequest {
            source_workspace_id: "gone".into(),
            destination_workspace_id: "w2".into(),
        })
        .unwrap_err();

    assert_eq!(error.message, "the source workspace no longer exists");
    assert!(!herdr.log_text().contains("pane move"));

    let error = herdr
        .merge_workspace(MergeWorkspaceRequest {
            source_workspace_id: "w1".into(),
            destination_workspace_id: "gone".into(),
        })
        .unwrap_err();
    assert_eq!(error.message, "the destination workspace no longer exists");
    assert!(!herdr.log_text().contains("pane move"));
}

#[test]
fn merging_one_tab_names_it_in_the_singular() {
    let mut herdr = Script::new();

    let summary = herdr
        .merge_workspace(MergeWorkspaceRequest {
            source_workspace_id: "w2".into(),
            destination_workspace_id: "w1".into(),
        })
        .unwrap();

    assert_eq!(summary.message, "Workspace “target” merged into “source” · 1 tab");
    assert_eq!(summary.moved_tabs, 1);
    assert_eq!(summary.moved_panes, 1);
}
