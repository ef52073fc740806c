use termua::web_protocol::{
    access_message_text, control_request_message_text, request_path, screen_frame,
    session_for_request,
};

#[test]
fn control_messages_are_json_text() {
    assert_eq!(access_message_text(true), r#"{"type":"access","control":true}"#);
    assert_eq!(access_message_text(false), r#"{"type":"access","control":false}"#);
    assert_eq!(control_request_message_text("unavailable"), r#"{"type":"control_request","status":"unavailable"}"#);
}

#[test]
fn screen_message_reserves_a_line_number_for_each_app_row() {
    let rows = 3;
    let frame = screen_frame(0, 80, rows, &vec![None; rows], None, b"\x1b[H".to_vec());
    let line_number_bytes = rows * 4;
    assert_eq!(&frame[1..9], &[0, 0, 0, 80, 0, 0, 0, 3]);
    assert_eq!(&frame[9..9 + line_number_bytes], vec![0; line_number_bytes].as_slice());
    assert_eq!(frame[21 + line_number_bytes], b'\x1b');
}

#[test]
fn screen_message_contains_the_visible_app_selection() {
    let frame = screen_frame(2, 5, 2, &vec![Some(7), Some(-1)], Some((1, 0, 7)), Vec::new());
    assert_eq!(frame[0], 2);
    assert_eq!(&frame[9..17], &[0, 0, 0, 7, 0, 0, 0, 0]);
    let selection_offset = 9 + 2 * 4;
    assert_eq!(&frame[selection_offset..selection_offset + 12], &[0, 0, 0, 1, 0, 0, 0, 0, 0, 0, 0, 7]);
    assert_eq!(frame.len(), selection_offset + 12);
    let big = screen_frame(0, 1, 0, &vec![], Some((usize::MAX, 0, 0)), Vec::new());
    assert_eq!(&big[9..13], &[255, 255, 255, 255]);
}

#[test]
fn requests_are_routed_to_their_shared_terminal() {
    let ids = vec!["abc".to_string(), "def".to_string()];
    assert_eq!(request_path("GET /s/def/ws HTTP/1.1\r\nHost: x\r\n").as_deref(), Some("/s/def/ws"));
    assert_eq!(session_for_request("GET /s/def/ws HTTP/1.1\r\n", &ids), Some(1));
    assert_eq!(session_for_request("GET /s/abc HTTP/1.1\r\n", &ids), Some(0));
    assert_eq!(session_for_request("GET /s/zzz HTTP/1.1\r\n", &ids), None);
    assert_eq!(session_for_request("GET / HTTP/1.1\r\n", &ids), None);
    let one = vec!["abc".to_string()];
    assert_eq!(session_for_request("GET / HTTP/1.1\r\n", &one), Some(0));
    assert_eq!(session_for_request("GET /ws HTTP/1.1\r\n", &one), Some(0));
    assert_eq!(session_for_request("GET /other HTTP/1.1\r\n", &one), None);
    assert_eq!(session_for_request("", &one), None);
    assert_eq!(request_path("  GET   /x  "), Some("/x".to_string()));
}
