use termua::sharing::{
    compose_share_key, gen_join_key, gen_room_id, parse_share_key, relay_listen_candidate,
    valid_share_code, RelayUrlError, ShareKeyError, JOIN_KEY_LEN, ROOM_ID_LEN,
};

#[test]
fn compose_share_key_roundtrips_via_parse() {
    let share_key = compose_share_key("AbC234xYz", "k3Y9a2");

    assert_eq!(share_key, "AbC234xYz-k3Y9a2");
    assert_eq!(
        parse_share_key(&share_key).expect("expected share key to parse"),
        ("AbC234xYz".to_string(), "k3Y9a2".to_string())
    );
}

#[test]
fn parse_share_key_accepts_compact_and_spaced_forms() {
    assert_eq!(
        parse_share_key(" AbC234xYz k3Y9a2 ").expect("expected compact share key to parse"),
        ("AbC234xYz".to_string(), "k3Y9a2".to_string())
    );
    assert_eq!(
        parse_share_key("AbC234xYz:k3Y9a2").expect("expected colon share key to parse"),
        ("AbC234xYz".to_string(), "k3Y9a2".to_string())
    );
}

#[test]
fn parse_share_key_rejects_invalid_segments() {
    assert!(parse_share_key("bad-key").is_err());
    assert!(parse_share_key("AbC234xYz-00OOIl").is_err());
    assert!(parse_share_key("AbC234xY-k3Y9a2").is_err());
}

#[test]
fn parse_share_key_errors_use_share_key_wording_only() {
    let err = parse_share_key("AbC234xYz-00OOIl")
        .expect_err("expected invalid share key to fail")
        .message();

    assert!(err.contains("Share Key"));
    assert!(!err.contains("Room ID"));
    assert!(!err.contains("Join Key"));
}

#[test]
fn parse_share_key_reports_wrong_length() {
    assert_eq!(parse_share_key("bad-key"), Err(ShareKeyError::WrongLength));
    assert_eq!(
        ShareKeyError::WrongLength.message(),
        "Share Key must be 15 chars total (excluding separators)."
    );
    assert_eq!(parse_share_key("AbC234xYz-00OOIl"), Err(ShareKeyError::Invalid));
}

#[test]
fn generated_codes_are_valid() {
    let room = gen_room_id();
    let join = gen_join_key();
    assert!(valid_share_code(&room, ROOM_ID_LEN));
    assert!(valid_share_code(&join, JOIN_KEY_LEN));
    assert_eq!(
        parse_share_key(&compose_share_key(&room, &join)).unwrap(),
        (room, join)
    );
    assert!(!valid_share_code("AbC234xY0", ROOM_ID_LEN));
}

#[test]
fn local_relay_listen_addr_parses_ip_port() {
    assert_eq!(
        relay_listen_candidate("ws://127.0.0.1:7231/ws").unwrap(),
        "127.0.0.1:7231"
    );
}

#[test]
fn local_relay_listen_addr_maps_localhost() {
    assert_eq!(
        relay_listen_candidate("ws://localhost:7231/ws").unwrap(),
        "127.0.0.1:7231"
    );
}

#[test]
fn local_relay_listen_addr_rejects_wss() {
    assert_eq!(
        relay_listen_candidate("wss://127.0.0.1:7231/ws"),
        Err(RelayUrlError::SecureScheme)
    );
    assert_eq!(relay_listen_candidate("http://x"), Err(RelayUrlError::NotWebSocket));
    assert_eq!(relay_listen_candidate("ws:// /ws"), Err(RelayUrlError::MissingHostPort));
}

#[test]
fn clear_host_control_state_clears_controller_and_pending_request() {
    let mut host = termua::sharing::HostControl {
        room_id: "AbC123xYz".to_string(),
        controller_id: Some("viewer-1".to_string()),
        pending_request: true,
        seq: 0,
    };
    termua::sharing::clear_host_control_state(&mut host);
    assert!(host.controller_id.is_none());
    assert!(!host.pending_request);
    assert_eq!(host.room_id, "AbC123xYz");
    assert!(termua::sharing::viewer_can_copy_paste(false, false));
    assert!(!termua::sharing::viewer_can_copy_paste(true, false));
    assert!(termua::sharing::viewer_can_copy_paste(true, true));
}
