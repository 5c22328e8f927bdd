use herdr_ferry::app::{
    App, DisplayRow, InputOutcome, KeyCode, KeyEvent, KeyModifiers, MergeWorkspaceRequest, MovePaneRequest,
    MoveTabRequest, PaneDestination, PaneSource, RowTone, TabDestination,
};
use herdr_ferry::herdr::{PaneInfo, TabInfo, Topology, WorkspaceInfo};
use herdr_ferry::layout::SplitDirection;
use herdr_ferry::picker::progress_note;
use herdr_ferry::ui::{
    column_after, cursor_column, prompt_line, row_marker, status_line, step_badge, Marker, StatusLine,
};

fn app() -> App {
    App::new(
        Topology {
            workspaces: vec![WorkspaceInfo {
                workspace_id: "w1".into(),
                label: "source".into(),
                number: 1,
                tab_count: 1,
                pane_count: 1,
                focused: true,
            }],
            tabs: vec![TabInfo {
                tab_id: "w1:t1".into(),
                workspace_id: "w1".into(),
                label: "main".into(),
                number: 1,
                pane_count: 1,
                focused: true,
            }],
            panes: vec![PaneInfo {
                pane_id: "w1:p1".into(),
                tab_id: "w1:t1".into(),
                workspace_id: "w1".into(),
                label: Some("agent".into()),
                terminal_title_stripped: None,
                cwd: None,
                agent: Some("codex".into()),
                agent_status: "working".into(),
                focused: true,
            }],
        },
        "w1:p1".to_string(),
    )
    .unwrap()
}

fn row(tone: RowTone, checked: bool) -> DisplayRow {
    DisplayRow {
        title: "t".into(),
        detail: "d".into(),
        tone,
        checked,
    }
}

#[test]
fn entry_screen_shows_the_first_step() {
    let app = app();
    assert_eq!(step_badge(&app), "1/3 ");
    assert_eq!(app.heading(), "What should cross?");
    let titles: Vec<String> = app.rows().into_iter().map(|row| row.title).collect();
    assert!(titles.contains(&"Move a pane".to_string()));
    assert!(titles.contains(&"Move a whole tab".to_string()));
    assert!(app.footer().contains("p/t shortcut"));
}

#[test]
fn failures_show_on_the_status_line() {
    let mut app = app();
    assert_eq!(status_line(&app), StatusLine::Clear);
    app.set_working("Moving 1 pane…".to_string());
    assert_eq!(status_line(&app), StatusLine::Working("Moving 1 pane…".into()));
    app.set_failure("source changed".to_string());
    assert_eq!(status_line(&app), StatusLine::Failed("Move failed: source changed".into()));
}

#[test]
fn prompt_line_shows_the_hint_until_something_is_typed() {
    let mut app = app();
    app.handle_key(KeyEvent::new(KeyCode::Char('p'), KeyModifiers::none()));
    assert_eq!(prompt_line(&app), ("search panes".to_string(), true));
    app.handle_key(KeyEvent::new(KeyCode::Char('a'), KeyModifiers::none()));
    assert_eq!(prompt_line(&app), ("a".to_string(), false));
    assert_eq!(step_badge(&app), "2/3 ");
}

#[test]
fn rows_are_marked_by_check_then_tone() {
    assert_eq!(row_marker(&row(RowTone::Normal, false)), Marker::Blank);
    assert_eq!(row_marker(&row(RowTone::Current, false)), Marker::Current);
    assert_eq!(row_marker(&row(RowTone::Create, false)), Marker::Create);
    assert_eq!(row_marker(&row(RowTone::Current, true)), Marker::Checked);
    assert_eq!(Marker::Checked.symbol(), "✓ ");
    assert_eq!(Marker::Blank.symbol(), "  ");
    assert_eq!(Marker::Current.symbol(), "● ");
    assert_eq!(Marker::Create.symbol(), "＋ ");
}

#[test]
fn cursor_sits_behind_the_query_in_columns() {
    assert_eq!(cursor_column(1, 75, ""), 3);
    assert_eq!(cursor_column(1, 75, "api"), 6);
    assert_eq!(cursor_column(1, 75, "ｈｉ"), 7);
    assert_eq!(cursor_column(1, 10, "a long query"), 9);
}

#[test]
fn cursor_column_stays_on_the_line() {
    assert_eq!(column_after(0, 0, 5), 0);
    assert_eq!(column_after(65000, 65535, 1000), 65534);
    assert_eq!(column_after(10, 20, usize::MAX), 19);
    assert_eq!(column_after(10, 100, 3), 15);
}

#[test]
fn progress_notes_name_what_moves() {
    let one_pane = InputOutcome::MovePane(MovePaneRequest {
        sources: vec![PaneSource {
            pane_id: "w1:p1".into(),
            expected_tab_id: "w1:t1".into(),
        }],
        direction: SplitDirection::Right,
        destination: PaneDestination::NewWorkspace { label: None },
    });
    assert_eq!(progress_note(&one_pane), Some("Moving 1 pane…".to_string()));
    let two_tabs = InputOutcome::MoveTab(MoveTabRequest {
        tab_ids: vec!["w1:t1".into(), "w1:t2".into()],
        destination: TabDestination::NewWorkspace { label: None },
    });
    assert_eq!(progress_note(&two_tabs), Some("Moving 2 tabs with their live panes…".to_string()));
    let one_tab = InputOutcome::MoveTab(MoveTabRequest {
        tab_ids: vec!["w1:t1".into()],
        destination: TabDestination::NewWorkspace { label: None },
    });
    assert_eq!(progress_note(&one_tab), Some("Moving 1 tab with its live panes…".to_string()));
    let merge = InputOutcome::MergeWorkspace(MergeWorkspaceRequest {
        source_workspace_id: "w1".into(),
        destination_workspace_id: "w2".into(),
    });
    assert_eq!(
        progress_note(&merge),
        Some("Appending every source tab to the destination…".to_string())
    );
    assert_eq!(progress_note(&InputOutcome::Continue), None);
    assert_eq!(progress_note(&InputOutcome::Cancel), None);
}
