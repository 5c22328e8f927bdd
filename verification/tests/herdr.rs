use herdr_ferry::herdr::{
    focus_tab_args, focus_workspace_args, launch_picker_args, layout_args, move_outcome, move_to_new_tab_args,
    move_to_new_workspace_args, move_to_tab_args, notify_args, pane_args, reload_config_args, topology_args,
    InvocationContext, PaneInfo,
};
use herdr_ferry::layout::SplitDirection;
use herdr_ferry::PLUGIN_ID;

fn context(focused_pane_id: Option<&str>) -> InvocationContext {
    InvocationContext {
        focused_pane_id: focused_pane_id.map(String::from),
    }
}

fn line(args: &[String]) -> String {
    args.join(" ")
}

#[test]
fn invocation_context_requires_a_valid_focused_pane() {
    let context_with_pane = context(Some("w1:p2"));

    assert_eq!(context_with_pane.source_pane_id().unwrap(), "w1:p2");
    assert!(context(None).source_pane_id().is_err());
    assert!(context(Some("  ")).source_pane_id().is_err());
}

#[test]
fn invocation_context_trims_and_refuses_control_characters() {
    assert_eq!(context(Some("  w1:p2\n")).source_pane_id().unwrap(), "w1:p2");
    let error = context(Some("w1:\u{7}p2")).source_pane_id().unwrap_err();
    assert_eq!(error.message, "plugin context has no valid focused pane");
}

#[test]
fn launch_opens_the_native_popup_with_source_context() {
    assert_eq!(
        line(&launch_picker_args("w1:p1")),
        "plugin pane open --plugin shadowfax.ferry --entrypoint picker --placement popup --width 76 --height 24 --env HERDR_FERRY_SOURCE_PANE_ID=w1:p1"
    );
    assert_eq!(PLUGIN_ID, "shadowfax.ferry");
}

#[test]
fn listing_commands_name_what_they_list() {
    let lists: Vec<String> = topology_args().iter().map(|args| line(args)).collect();
    assert_eq!(lists, vec!["workspace list", "tab list", "pane list"]);
    assert_eq!(line(&pane_args("w1:p1")), "pane get w1:p1");
    assert_eq!(line(&layout_args("w1:p1")), "pane layout --pane w1:p1");
    assert_eq!(line(&reload_config_args()), "server reload-config");
    assert_eq!(line(&focus_workspace_args("w2")), "workspace focus w2");
    assert_eq!(line(&focus_tab_args("w2:t1")), "tab focus w2:t1");
}

#[test]
fn move_commands_carry_their_options() {
    assert_eq!(
        line(&move_to_tab_args("w1:p2", "w2:t9", SplitDirection::Right, Some("w2:p9"), Some("0.5"), false)),
        "pane move w1:p2 --tab w2:t9 --split right --target-pane w2:p9 --ratio 0.5 --no-focus"
    );
    assert_eq!(
        line(&move_to_tab_args("w1:p1", "w2:t1", SplitDirection::Down, None, None, true)),
        "pane move w1:p1 --tab w2:t1 --split down --focus"
    );
    assert_eq!(
        line(&move_to_new_tab_args("w1:p1", "w2", Some("main"), false)),
        "pane move w1:p1 --new-tab --workspace w2 --label main --no-focus"
    );
    assert_eq!(
        line(&move_to_new_tab_args("w1:p1", "w2", Some(""), false)),
        "pane move w1:p1 --new-tab --workspace w2 --no-focus"
    );
    assert_eq!(
        line(&move_to_new_workspace_args("w1:p1", Some("combined"), Some("main"), false)),
        "pane move w1:p1 --new-workspace --label combined --tab-label main --no-focus"
    );
    assert_eq!(
        line(&move_to_new_workspace_args("w1:p1", None, None, true)),
        "pane move w1:p1 --new-workspace --focus"
    );
}

#[test]
fn notifications_keep_the_first_220_characters() {
    let long: String = std::iter::repeat('é').take(300).collect();
    let args = notify_args(&long);
    assert_eq!(args[..4].join(" "), "notification show Ferry --body");
    assert_eq!(args[4].chars().count(), 220);
    assert_eq!(line(&notify_args("short")), "notification show Ferry --body short");
}

fn landed() -> PaneInfo {
    PaneInfo {
        pane_id: "w2:p9".into(),
        tab_id: "w2:t1".into(),
        workspace_id: "w2".into(),
        label: None,
        terminal_title_stripped: None,
        cwd: None,
        agent: None,
        agent_status: String::new(),
        focused: false,
    }
}

#[test]
fn a_changed_move_reports_where_the_pane_landed() {
    let moved = move_outcome(true, None, landed()).unwrap();
    assert_eq!(moved.pane_id, "w2:p9");
    assert_eq!(moved.tab_id, "w2:t1");
    assert_eq!(moved.workspace_id, "w2");
}

#[test]
fn a_declined_move_gives_its_reason() {
    let error = move_outcome(false, Some("tab is full".into()), landed()).unwrap_err();
    assert_eq!(error.message, "Herdr declined the move: tab is full");
    let error = move_outcome(false, None, landed()).unwrap_err();
    assert_eq!(error.message, "Herdr declined the move: unknown reason");
}

#[test]
fn failed_commands_report_status_and_trimmed_errors() {
    let failure = herdr_ferry::herdr::command_failure("exit status: 4", "  injected second-tab failure\n");
    assert_eq!(failure.message, "Herdr command failed with exit status: 4: injected second-tab failure");
}
