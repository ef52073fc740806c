use termua::assistant_targets::{
    AssistantCommandOutputState, AssistantTerminalContextState, FocusedTerminalState,
    TerminalRegistryState,
};

#[test]
fn terminal_context_keeps_trimmed_text_and_forgets_blank_text() {
    let mut s = AssistantTerminalContextState::new();
    s.upsert_snapshot(1, "  $ ls\nfile  \n");
    assert_eq!(s.get_snapshot_text(1).as_deref(), Some("$ ls\nfile"));
    s.upsert_snapshot(1, "   ");
    assert_eq!(s.get_snapshot_text(1), None);
    let long = "x".repeat(12_050);
    s.upsert_snapshot(2, &long);
    assert_eq!(s.get_snapshot_text(2).map(|t| t.chars().count()), Some(12_000));
}

#[test]
fn command_output_remembers_its_block() {
    let mut s = AssistantCommandOutputState::new();
    s.upsert_snapshot(3, 7, " ok ");
    assert_eq!(s.get_snapshot_block_id(3), Some(7));
    assert_eq!(s.get_snapshot_text(3).as_deref(), Some("ok"));
    s.upsert_snapshot(3, 8, "\n");
    assert_eq!(s.get_snapshot_block_id(3), None);
}

#[test]
fn targets_are_listed_by_label_then_panel() {
    let mut r = TerminalRegistryState::new();
    r.upsert_target(5, "zsh");
    r.upsert_target(2, "bash");
    r.upsert_target(9, "bash");
    r.upsert_target(1, "fish");
    let listed: Vec<(usize, String)> =
        r.list_targets().into_iter().map(|t| (t.panel_id, t.label)).collect();
    assert_eq!(
        listed,
        vec![(2, "bash".into()), (9, "bash".into()), (1, "fish".into()), (5, "zsh".into())]
    );
    r.upsert_target(9, "aaa");
    r.remove_target(1);
    let listed: Vec<usize> = r.list_targets().into_iter().map(|t| t.panel_id).collect();
    assert_eq!(listed, vec![9, 2, 5]);
    assert_eq!(r.get(9).as_deref(), Some("aaa"));
    assert_eq!(r.get(1), None);
    let mut f = FocusedTerminalState::new();
    f.set_focused(Some(9));
    assert_eq!(f.focused_panel_id, Some(9));
}
