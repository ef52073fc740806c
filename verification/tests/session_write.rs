use termua::session_write::{
    session_from_row, wants_password, ColumnError, PasswordAction, SessionColumns, SessionWrite,
    StoredRow,
};
use termua::store::{
    SerialFlowControl, SerialParity, SerialStopBits, SessionEnvVar, SessionType, SshAuthType,
    SshJumpHop, SshProxyEnvVar, SshProxyMode, TerminalBackend,
};

fn row_from(cols: SessionColumns, id: i64) -> StoredRow {
    StoredRow {
        id,
        protocol: cols.protocol.to_string(),
        group_path: cols.group_path,
        label: cols.label,
        backend: cols.backend.to_string(),
        session_env: cols.session_env,
        shell_program: cols.shell_program,
        ssh_host: cols.ssh_host,
        ssh_port: cols.ssh_port,
        ssh_auth_type: cols.ssh_auth_type.map(|s| s.to_string()),
        ssh_user: cols.ssh_user,
        ssh_credential_username: None,
        ssh_tcp_nodelay: cols.ssh_tcp_nodelay,
        ssh_tcp_keepalive: cols.ssh_tcp_keepalive,
        ssh_proxy_mode: cols.ssh_proxy_mode.map(|s| s.to_string()),
        ssh_proxy_command: cols.ssh_proxy_command,
        ssh_proxy_workdir: cols.ssh_proxy_workdir,
        ssh_proxy_env: cols.ssh_proxy_env,
        ssh_proxy_jump: cols.ssh_proxy_jump,
        serial_port: cols.serial_port,
        serial_baud: cols.serial_baud,
        serial_data_bits: cols.serial_data_bits,
        serial_parity: cols.serial_parity.map(|s| s.to_string()),
        serial_stop_bits: cols.serial_stop_bits,
        serial_flow_control: cols.serial_flow_control.map(|s| s.to_string()),
    }
}

#[test]
fn sessions_can_be_saved_and_loaded() {
    let w = SessionWrite::local("local>dev", "bash", TerminalBackend::Wezterm, "bash", "xterm-256color", None, "UTF-8", Vec::new());
    let (cols, action) = w.into_columns(false);
    assert_eq!(action, PasswordAction::Keep);
    assert_eq!(cols.protocol, "local");
    assert_eq!(cols.backend, "wezterm");
    let s = session_from_row(row_from(cols, 1), None).unwrap();
    assert_eq!(s.id, 1);
    assert_eq!(s.protocol, SessionType::Local);
    assert_eq!(s.group_path, "local>dev");
    assert_eq!(s.label, "bash");
    assert_eq!(s.shell_program.as_deref(), Some("bash"));
    assert_eq!(s.term(), "xterm-256color");
    assert_eq!(s.charset(), "UTF-8");
    assert_eq!(s.colorterm(), None);
}

#[test]
fn ssh_password_sessions_do_not_store_password_in_plaintext() {
    let w = SessionWrite::ssh_password(
        "ssh", "prod", TerminalBackend::Alacritty, "example.com", 2222, "alice", "s3cret",
        "xterm", Some("truecolor"), "UTF-8", Vec::new(), true, false, SshProxyMode::Inherit,
        None, None, Vec::new(), Vec::new(),
    );
    let (cols, action) = w.into_columns(false);
    assert_eq!(action, PasswordAction::Store("s3cret".to_string()));
    assert_eq!(cols.ssh_auth_type, Some("password"));
    assert_eq!(cols.ssh_port, Some(2222));
    assert_eq!(cols.ssh_tcp_nodelay, 1);
    assert_eq!(cols.ssh_proxy_env, None);
    let row = row_from(cols, 7);
    assert!(wants_password(Some(SshAuthType::Password), true));
    assert!(!wants_password(Some(SshAuthType::Password), false));
    let s = session_from_row(row, Some("s3cret".to_string())).unwrap();
    assert_eq!(s.ssh_auth_type, Some(SshAuthType::Password));
    assert_eq!(s.ssh_user.as_deref(), Some("alice"));
    assert_eq!(s.ssh_password.as_deref(), Some("s3cret"));
    assert_eq!(s.colorterm(), Some("truecolor"));
}

#[test]
fn ssh_jumpserver_proxy_settings_roundtrip() {
    let hops = vec![SshJumpHop { host: "bastion".into(), user: Some("ops".into()), port: Some(22) }];
    let env = vec![SshProxyEnvVar { name: "A".into(), value: "1".into() }];
    let w = SessionWrite::ssh_config(
        "g", "l", TerminalBackend::Wezterm, "db", 22, "xterm", None, "UTF-8",
        vec![SessionEnvVar { name: "LANG".into(), value: "C".into() }], false, true,
        SshProxyMode::JumpServer, None, Some("~/w"), env.clone(), hops.clone(),
    );
    let (cols, action) = w.into_columns(true);
    assert_eq!(action, PasswordAction::Delete);
    assert_eq!(cols.ssh_proxy_jump, Some(hops.clone()));
    let s = session_from_row(row_from(cols, 3), None).unwrap();
    assert_eq!(s.ssh_proxy_mode, Some(SshProxyMode::JumpServer));
    assert_eq!(s.ssh_proxy_jump, Some(hops));
    assert_eq!(s.ssh_proxy_env, Some(env));
    assert_eq!(s.ssh_proxy_workdir.as_deref(), Some("~/w"));
    assert!(s.ssh_tcp_keepalive && !s.ssh_tcp_nodelay);

    let w = SessionWrite::ssh_config(
        "g", "l", TerminalBackend::Wezterm, "db", 22, "xterm", None, "UTF-8", Vec::new(), false,
        false, SshProxyMode::Command, Some("nc %h %p"), None, Vec::new(),
        vec![SshJumpHop { host: "x".into(), user: None, port: None }],
    );
    let (cols, _) = w.into_columns(false);
    assert_eq!(cols.ssh_proxy_jump, None);
    assert_eq!(cols.ssh_proxy_mode, Some("command"));
}

#[test]
fn serial_sessions_roundtrip_and_bad_columns_are_reported() {
    let w = SessionWrite::serial(
        "serial", "usb", TerminalBackend::Alacritty, "/dev/ttyUSB0", 115200, 8,
        SerialParity::NoParity, SerialStopBits::One, SerialFlowControl::NoFlowControl, "xterm", "UTF-8",
    );
    let (cols, action) = w.into_columns(true);
    assert_eq!(action, PasswordAction::Delete);
    let mut row = row_from(cols, 5);
    let s = session_from_row(row_from(
        SessionWrite::serial(
            "serial", "usb", TerminalBackend::Alacritty, "/dev/ttyUSB0", 115200, 8,
            SerialParity::NoParity, SerialStopBits::One, SerialFlowControl::NoFlowControl, "xterm", "UTF-8",
        ).into_columns(false).0,
        5,
    ), None).unwrap();
    assert_eq!(s.serial_baud, Some(115200));
    assert_eq!(s.serial_parity, Some(SerialParity::NoParity));
    assert_eq!(s.serial_stop_bits, Some(SerialStopBits::One));
    row.serial_stop_bits = Some(3);
    assert!(matches!(session_from_row(row, None), Err(ColumnError::Integer { column: 23, value: 3 })));
    let mut bad = row_from(SessionWrite::local("", "x", TerminalBackend::Wezterm, "sh", "t", None, "c", Vec::new()).into_columns(false).0, 1);
    bad.backend = "kitty".to_string();
    assert!(matches!(session_from_row(bad, None), Err(ColumnError::Text { column: 4, .. })));
}
