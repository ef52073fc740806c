use termua::sharing::{effective_relay_url, local_relay_args, DEFAULT_RELAY_URL};

#[test]
fn local_relay_command_uses_current_exe_and_run_relay_flag() {
    assert_eq!(
        local_relay_args("127.0.0.1:7231"),
        vec!["--run-relay".to_string(), "--listen".to_string(), "127.0.0.1:7231".to_string()]
    );
}

#[test]
fn configured_relay_wins_when_not_blank() {
    assert_eq!(effective_relay_url(Some("  wss://relay.example/ws "), Some("ws://env/ws")), "wss://relay.example/ws");
    assert_eq!(effective_relay_url(Some("   "), Some("ws://env/ws")), "ws://env/ws");
    assert_eq!(effective_relay_url(None, Some("ws://env/ws")), "ws://env/ws");
    assert_eq!(effective_relay_url(None, None), DEFAULT_RELAY_URL);
    assert_eq!(effective_relay_url(Some(""), None), "ws://127.0.0.1:7231/ws");
}
