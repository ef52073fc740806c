use termua::app_state::{PendingCommand, TermuaAppState};
use termua::store::TerminalBackend;

#[test]
fn enqueue_pending_command_coalesces_singleton_commands() {
    let mut state = TermuaAppState::default();

    state.pending_command(PendingCommand::ReloadSessionsSidebar);
    state.pending_command(PendingCommand::ReloadSessionsSidebar);
    state.pending_command(PendingCommand::OpenCastPicker);
    state.pending_command(PendingCommand::OpenCastPicker);
    state.pending_command(PendingCommand::OpenJoinSharingDialog);
    state.pending_command(PendingCommand::OpenJoinSharingDialog);

    assert_eq!(state.pending_commands.len(), 3);
    assert!(matches!(state.pending_commands[0], PendingCommand::ReloadSessionsSidebar));
    assert!(matches!(state.pending_commands[1], PendingCommand::OpenCastPicker));
    assert!(matches!(state.pending_commands[2], PendingCommand::OpenJoinSharingDialog));
}

#[test]
fn enqueue_pending_command_keeps_repeatable_commands() {
    let mut state = TermuaAppState::default();

    state.pending_command(PendingCommand::OpenLocalTerminal {
        backend_type: TerminalBackend::Wezterm,
        env: Vec::new(),
    });
    state.pending_command(PendingCommand::OpenLocalTerminal {
        backend_type: TerminalBackend::Wezterm,
        env: Vec::new(),
    });

    assert_eq!(state.pending_commands.len(), 2);
}

#[test]
fn default_state_shows_the_sessions_sidebar() {
    let state = TermuaAppState::default();
    assert!(state.sessions_sidebar_visible);
    assert!(!state.multi_exec_enabled);
    assert_eq!(state.sessions_sidebar_width, 280);
    assert!(state.pending_commands.is_empty());
    assert!(PendingCommand::OpenCastPicker.coalesces_with(&PendingCommand::OpenCastPicker));
    assert!(!PendingCommand::OpenCastPicker.coalesces_with(&PendingCommand::ReloadSessionsSidebar));
}
