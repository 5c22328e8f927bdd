use herdr_ferry::app::{
    App, InputEvent, InputOutcome, KeyCode, KeyEvent, KeyEventKind, KeyModifiers, MergeWorkspaceRequest,
    MovePaneRequest, PaneDestination, PaneSource, RowTone, TabDestination,
};
use herdr_ferry::herdr::{PaneInfo, TabInfo, Topology, WorkspaceInfo};
use herdr_ferry::layout::SplitDirection;

fn key(code: KeyCode) -> KeyEvent {
    KeyEvent::new(code, KeyModifiers::none())
}

fn topology() -> Topology {
    Topology {
        workspaces: vec![
            WorkspaceInfo {
                workspace_id: "w1".into(),
                label: "source".into(),
                number: 1,
                tab_count: 2,
                pane_count: 3,
                focused: true,
            },
            WorkspaceInfo {
                workspace_id: "w2".into(),
                label: "target".into(),
                number: 2,
                tab_count: 1,
                pane_count: 1,
                focused: false,
            },
        ],
        tabs: vec![
            TabInfo {
                tab_id: "w1:t1".into(),
                workspace_id: "w1".into(),
                label: "main".into(),
                number: 1,
                pane_count: 2,
                focused: true,
            },
            TabInfo {
                tab_id: "w1:t2".into(),
                workspace_id: "w1".into(),
                label: "logs".into(),
                number: 2,
                pane_count: 1,
                focused: false,
            },
            TabInfo {
                tab_id: "w2:t1".into(),
                workspace_id: "w2".into(),
                label: "api".into(),
                number: 1,
                pane_count: 1,
                focused: false,
            },
        ],
        panes: vec![
            PaneInfo {
                pane_id: "w1:p1".into(),
                tab_id: "w1:t1".into(),
                workspace_id: "w1".into(),
                label: Some("focused-pane".into()),
                terminal_title_stripped: None,
                cwd: Some("/tmp/source".into()),
                agent: Some("codex".into()),
                agent_status: "working".into(),
                focused: true,
            },
            PaneInfo {
                pane_id: "w1:p2".into(),
                tab_id: "w1:t1".into(),
                workspace_id: "w1".into(),
                label: Some("other-pane".into()),
                terminal_title_stripped: None,
                cwd: None,
                agent: None,
                agent_status: "unknown".into(),
                focused: false,
            },
            PaneInfo {
                pane_id: "w1:p3".into(),
                tab_id: "w1:t2".into(),
                workspace_id: "w1".into(),
                label: Some("logger".into()),
                terminal_title_stripped: None,
                cwd: None,
                agent: None,
                agent_status: "unknown".into(),
                focused: false,
            },
            PaneInfo {
                pane_id: "w2:p1".into(),
                tab_id: "w2:t1".into(),
                workspace_id: "w2".into(),
                label: Some("api-server".into()),
                terminal_title_stripped: None,
                cwd: None,
                agent: None,
                agent_status: "unknown".into(),
                focused: false,
            },
        ],
    }
}

fn opened() -> App {
    App::new(topology(), "w1:p1".to_string()).unwrap()
}

#[test]
fn invoked_pane_and_tab_are_the_default_sources() {
    let mut app = opened();
    app.handle_key(key(KeyCode::Enter));

    assert_eq!(app.rows()[0].title, "focused-pane");
    assert_eq!(app.rows()[0].tone, RowTone::Current);

    app.handle_key(key(KeyCode::Esc));
    app.handle_key(key(KeyCode::Down));
    app.handle_key(key(KeyCode::Enter));

    assert!(app.rows()[0].title.contains("source / main"));
    assert_eq!(app.rows()[0].tone, RowTone::Current);
}

#[test]
fn workspace_merge_defaults_to_the_current_workspace() {
    let mut app = opened();
    app.handle_key(key(KeyCode::Char('w')));

    assert_eq!(app.rows()[0].title, "source");
    assert_eq!(app.rows()[0].tone, RowTone::Current);

    app.handle_key(key(KeyCode::Enter));
    assert_eq!(app.heading(), "Merge source into…");
    assert_eq!(app.rows().len(), 1);
    assert_eq!(app.rows()[0].title, "target");

    assert_eq!(
        app.handle_key(key(KeyCode::Enter)),
        InputOutcome::MergeWorkspace(MergeWorkspaceRequest {
            source_workspace_id: "w1".into(),
            destination_workspace_id: "w2".into(),
        })
    );
}

#[test]
fn fuzzy_source_filter_searches_labels_and_workspace_context() {
    let mut app = opened();
    app.handle_key(key(KeyCode::Enter));
    for character in "api".chars() {
        app.handle_key(key(KeyCode::Char(character)));
    }

    assert_eq!(app.rows().len(), 1);
    assert_eq!(app.rows()[0].title, "api-server");
}

#[test]
fn pane_flow_supports_existing_tabs_and_alt_down() {
    let mut app = opened();
    app.handle_key(key(KeyCode::Enter));
    app.handle_key(key(KeyCode::Enter));
    app.handle_key(key(KeyCode::Down));

    let outcome = app.handle_key(KeyEvent::new(KeyCode::Char('d'), KeyModifiers::alt()));

    assert_eq!(
        outcome,
        InputOutcome::MovePane(MovePaneRequest {
            sources: vec![PaneSource {
                pane_id: "w1:p1".into(),
                expected_tab_id: "w1:t1".into(),
            }],
            direction: SplitDirection::Down,
            destination: PaneDestination::ExistingTab {
                tab_id: "w2:t1".into()
            },
        })
    );
}

#[test]
fn pane_sources_support_ordered_multi_selection() {
    let mut app = opened();
    app.handle_key(key(KeyCode::Enter));
    app.handle_key(key(KeyCode::Char(' ')));
    app.handle_key(key(KeyCode::Down));
    app.handle_key(key(KeyCode::Char(' ')));
    app.handle_key(key(KeyCode::Enter));

    assert_eq!(app.heading(), "Move 2 panes to…");
    assert!(!app.rows().iter().any(|row| row.title.contains("source / main")));

    app.selected = app.rows().len() - 1;
    let InputOutcome::MovePane(request) = app.handle_key(key(KeyCode::Enter)) else {
        panic!("expected pane move");
    };
    assert_eq!(
        request.sources,
        vec![
            PaneSource {
                pane_id: "w1:p1".into(),
                expected_tab_id: "w1:t1".into(),
            },
            PaneSource {
                pane_id: "w1:p2".into(),
                expected_tab_id: "w1:t1".into(),
            },
        ]
    );
}

#[test]
fn tab_sources_support_ordered_multi_selection() {
    let mut app = opened();
    app.handle_key(key(KeyCode::Down));
    app.handle_key(key(KeyCode::Enter));
    app.handle_key(key(KeyCode::Char(' ')));
    app.handle_key(key(KeyCode::Down));
    app.handle_key(key(KeyCode::Char(' ')));
    app.handle_key(key(KeyCode::Enter));

    let InputOutcome::MoveTab(request) = app.handle_key(key(KeyCode::Enter)) else {
        panic!("expected tab move");
    };
    assert_eq!(request.tab_ids, vec!["w1:t1", "w1:t2"]);
    assert_eq!(
        request.destination,
        TabDestination::Workspace {
            workspace_id: "w2".into()
        }
    );
}

#[test]
fn selected_sources_remain_visible_while_filtering() {
    let mut app = opened();
    app.handle_key(key(KeyCode::Enter));
    app.handle_key(key(KeyCode::Char(' ')));
    for character in "api".chars() {
        app.handle_key(key(KeyCode::Char(character)));
    }

    assert_eq!(app.rows().len(), 2);
    assert_eq!(app.rows()[0].title, "focused-pane");
    assert!(app.rows()[0].checked);
    assert_eq!(app.rows()[1].title, "api-server");
}

#[test]
fn tab_advances_in_filtered_order_after_selection_reorders() {
    let mut app = opened();
    app.handle_key(key(KeyCode::Enter));
    app.handle_key(key(KeyCode::Char(' ')));
    app.handle_key(key(KeyCode::Char('e')));
    app.selected = 2;
    let rows = app.rows();
    let expected = rows[3].title.clone();

    app.handle_key(key(KeyCode::Tab));

    assert_eq!(app.rows()[app.selected].title, expected);
}

#[test]
fn ctrl_a_toggles_all_visible_sources() {
    let mut app = opened();
    app.handle_key(key(KeyCode::Enter));
    app.handle_key(KeyEvent::new(KeyCode::Char('a'), KeyModifiers::control()));

    assert!(app.rows().iter().all(|row| row.checked));

    app.handle_key(KeyEvent::new(KeyCode::Char('a'), KeyModifiers::control()));
    assert!(app.rows().iter().all(|row| !row.checked));
}

#[test]
fn destination_query_names_a_new_workspace() {
    let mut app = opened();
    app.handle_key(key(KeyCode::Down));
    app.handle_key(key(KeyCode::Enter));
    app.handle_key(key(KeyCode::Enter));
    for character in "new-home".chars() {
        app.handle_key(key(KeyCode::Char(character)));
    }
    let last = app.rows().len() - 1;
    app.selected = last;

    let InputOutcome::MoveTab(request) = app.handle_key(key(KeyCode::Enter)) else {
        panic!("expected tab move");
    };
    assert_eq!(
        request.destination,
        TabDestination::NewWorkspace {
            label: Some("new-home".into())
        }
    );
}

#[test]
fn escape_steps_back_before_closing() {
    let mut app = opened();
    app.handle_key(key(KeyCode::Enter));
    app.handle_key(key(KeyCode::Enter));

    assert_eq!(app.step(), 3);
    assert_eq!(app.handle_key(key(KeyCode::Esc)), InputOutcome::Continue);
    assert_eq!(app.step(), 2);
    assert_eq!(app.handle_key(key(KeyCode::Esc)), InputOutcome::Continue);
    assert_eq!(app.step(), 1);
    assert_eq!(app.handle_key(key(KeyCode::Esc)), InputOutcome::Cancel);
}

#[test]
fn rejects_missing_invocation_panes() {
    assert!(App::new(topology(), "missing".to_string()).is_err());
}

#[test]
fn missing_invocation_pane_is_named_in_the_failure() {
    let error = App::new(topology(), "missing".to_string()).err().unwrap();
    assert_eq!(error.message, "source pane is no longer available: missing");
}

#[test]
fn first_screen_offers_the_three_moves_with_their_context() {
    let app = opened();
    let rows = app.rows();
    assert_eq!(rows.len(), 3);
    assert_eq!(rows[0].title, "Move a pane");
    assert_eq!(rows[0].detail, "focused · focused-pane");
    assert_eq!(rows[1].title, "Move a whole tab");
    assert_eq!(rows[1].detail, "current · source / main · 2 panes");
    assert_eq!(rows[2].title, "Merge a workspace");
    assert_eq!(rows[2].detail, "current · source · 2 tabs · 3 panes");
    assert_eq!(app.heading(), "What should cross?");
    assert_eq!(app.prompt(), "");
    assert_eq!(app.step(), 1);
    assert_eq!(app.trail(), "move  ›  source  ›  destination");
    assert_eq!(app.footer(), "↑↓ navigate   enter choose   p/t shortcut   esc close");
    assert!(!app.is_searchable());
    assert_eq!(app.selected(), Some(0));
}

#[test]
fn ctrl_c_closes_even_while_working() {
    let mut app = opened();
    app.set_working("moving".to_string());
    assert_eq!(app.handle_key(key(KeyCode::Down)), InputOutcome::Continue);
    assert_eq!(app.selected, 0);
    assert_eq!(app.handle_key(KeyEvent::new(KeyCode::Char('c'), KeyModifiers::control())), InputOutcome::Cancel);
}

#[test]
fn released_keys_and_other_events_are_ignored() {
    let mut app = opened();
    let released = KeyEvent {
        code: KeyCode::Down,
        modifiers: KeyModifiers::none(),
        kind: KeyEventKind::Release,
    };
    assert_eq!(app.handle_key(released), InputOutcome::Continue);
    assert_eq!(app.selected, 0);
    assert_eq!(app.handle_event(InputEvent::Other), InputOutcome::Continue);
    assert_eq!(app.handle_event(InputEvent::Key(key(KeyCode::Down))), InputOutcome::Continue);
    assert_eq!(app.selected, 1);
}

#[test]
fn navigation_wraps_around_the_list() {
    let mut app = opened();
    app.handle_key(key(KeyCode::Up));
    assert_eq!(app.selected, 2);
    app.handle_key(key(KeyCode::Down));
    assert_eq!(app.selected, 0);
    app.handle_key(key(KeyCode::PageDown));
    assert_eq!(app.selected, 2);
    app.handle_key(key(KeyCode::PageUp));
    assert_eq!(app.selected, 0);
    app.handle_key(key(KeyCode::End));
    assert_eq!(app.selected, 2);
    app.handle_key(key(KeyCode::Home));
    assert_eq!(app.selected, 0);
}

#[test]
fn space_checks_and_unchecks_the_highlighted_source() {
    let mut app = opened();
    app.handle_key(key(KeyCode::Char('p')));
    assert_eq!(app.heading(), "Choose one or more panes");
    app.handle_key(key(KeyCode::Char(' ')));
    assert!(app.rows()[0].checked);
    assert_eq!(app.heading(), "1 pane selected");
    app.handle_key(key(KeyCode::Char(' ')));
    assert!(!app.rows()[0].checked);
    assert_eq!(app.heading(), "Choose one or more panes");
}

#[test]
fn typing_and_backspace_edit_the_query() {
    let mut app = opened();
    app.handle_key(key(KeyCode::Char('t')));
    assert_eq!(app.prompt(), "search tabs");
    app.handle_key(key(KeyCode::Char('l')));
    app.handle_key(key(KeyCode::Char('o')));
    assert_eq!(app.query(), "lo");
    app.handle_key(key(KeyCode::Backspace));
    assert_eq!(app.query(), "l");
    app.handle_key(key(KeyCode::Backspace));
    app.handle_key(key(KeyCode::Backspace));
    assert_eq!(app.query(), "");
}

#[test]
fn failures_and_progress_replace_each_other() {
    let mut app = opened();
    app.set_failure("Move failed: source changed".to_string());
    assert_eq!(app.failure(), Some("Move failed: source changed"));
    assert_eq!(app.working(), None);
    app.set_working("Moving…".to_string());
    assert_eq!(app.failure(), None);
    assert_eq!(app.working(), Some("Moving…"));
    app.set_failure("again".to_string());
    assert_eq!(app.working(), None);
}

#[test]
fn a_key_clears_the_failure_shown() {
    let mut app = opened();
    app.set_failure("boom".to_string());
    app.handle_key(key(KeyCode::Down));
    assert_eq!(app.failure(), None);
}

#[test]
fn new_tab_destination_takes_the_trimmed_query_as_its_label() {
    let mut app = opened();
    app.handle_key(key(KeyCode::Enter));
    app.handle_key(key(KeyCode::Enter));
    assert_eq!(app.prompt(), "search destinations or name a new one");
    for character in " notes ".chars() {
        app.handle_key(key(KeyCode::Char(character)));
    }
    let rows = app.rows();
    let index = rows.iter().position(|row| row.title == "New tab in source").unwrap();
    assert_eq!(rows[index].tone, RowTone::Create);
    assert_eq!(rows[index].detail, "create “notes”");
    app.selected = index;
    let InputOutcome::MovePane(request) = app.handle_key(key(KeyCode::Enter)) else {
        panic!("expected pane move");
    };
    assert_eq!(
        request.destination,
        PaneDestination::NewTab {
            workspace_id: "w1".into(),
            label: Some("notes".into())
        }
    );
    assert_eq!(request.direction, SplitDirection::Right);
}

#[test]
fn unnamed_panes_are_named_after_their_directory() {
    let mut topology = topology();
    topology.panes[1].label = None;
    topology.panes[1].cwd = Some("/home/me/projects/ferry".into());
    topology.panes[2].label = Some("   ".into());
    let mut app = App::new(topology, "w1:p1".to_string()).unwrap();
    app.handle_key(key(KeyCode::Char('p')));
    let titles: Vec<String> = app.rows().into_iter().map(|row| row.title).collect();
    assert_eq!(titles, vec!["focused-pane", "ferry", "w1:p3", "api-server"]);
}
