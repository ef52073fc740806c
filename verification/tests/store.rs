use termua::store::{
    merge_terminal_fields_into_env, protocol_from_str, protocol_to_str, serial_parity_from_str,
    serial_stop_bits_from_i64, session_env_value, upsert_session_env_var, SerialParity,
    SerialStopBits, SessionEnvVar, SessionType,
};

fn var(name: &str, value: &str) -> SessionEnvVar {
    SessionEnvVar { name: name.to_string(), value: value.to_string() }
}

#[test]
fn protocol_from_str_accepts_serial() {
    assert_eq!(protocol_from_str("serial").unwrap(), SessionType::Serial);
}

#[test]
fn protocol_text_round_trips_and_unknown_is_refused() {
    for p in [SessionType::Local, SessionType::Ssh, SessionType::Serial] {
        assert_eq!(protocol_from_str(protocol_to_str(&p)).unwrap(), p);
    }
    assert!(protocol_from_str("telnet").is_err());
    assert!(protocol_from_str("Serial").is_err());
}

#[test]
fn serial_settings_parse_from_stored_forms() {
    assert_eq!(serial_parity_from_str("none").unwrap(), SerialParity::NoParity);
    assert_eq!(serial_parity_from_str("even").unwrap(), SerialParity::Even);
    assert!(serial_parity_from_str("mark").is_err());
    assert_eq!(serial_stop_bits_from_i64(2).unwrap(), SerialStopBits::Two);
    assert!(serial_stop_bits_from_i64(3).is_err());
}

#[test]
fn upsert_replaces_existing_and_appends_new_names() {
    let mut env = vec![var("A", "1"), var("B", "2")];
    upsert_session_env_var(&mut env, "B", "3".to_string());
    upsert_session_env_var(&mut env, "C", "4".to_string());
    assert_eq!(env, vec![var("A", "1"), var("B", "3"), var("C", "4")]);
    assert_eq!(session_env_value(Some(&env), "B"), Some("3"));
    assert_eq!(session_env_value(Some(&env), "D"), None);
    assert_eq!(session_env_value(None, "A"), None);
}

#[test]
fn explicit_session_env_overrides_terminal_fields() {
    let env = vec![var("TERM", "dumb"), var("  ", "x"), var("EDITOR", "vi")];
    let merged = merge_terminal_fields_into_env("xterm-256color", Some("truecolor"), "UTF-8", env);
    assert_eq!(session_env_value(Some(&merged), "TERM"), Some("dumb"));
    assert_eq!(session_env_value(Some(&merged), "COLORTERM"), Some("truecolor"));
    assert_eq!(session_env_value(Some(&merged), "CHARSET"), Some("UTF-8"));
    assert_eq!(session_env_value(Some(&merged), "EDITOR"), Some("vi"));
}

#[test]
fn blank_colorterm_is_not_stored() {
    let merged = merge_terminal_fields_into_env("xterm", Some("  "), "UTF-8", Vec::new());
    assert_eq!(merged, vec![var("TERM", "xterm"), var("CHARSET", "UTF-8")]);
}
