use termua::cast_player::{
    cast_event_from_items, cast_event_kind, cast_request_from_env, check_cast_header,
    event_is_played, header_version_supported, parse_cast_event, parse_play_cast_args,
    CastArgsError, CastError, CastEventKind, CastItem, CastItemKind, CastRequest, FREEZE_CURSOR,
    PLAYBACK_FINISHED,
};

fn args(v: &[&str]) -> Vec<String> {
    v.iter().map(|s| s.to_string()).collect()
}

#[test]
fn play_cast_command_line_is_read() {
    assert_eq!(parse_play_cast_args(&args(&[])), Ok(None));
    assert_eq!(parse_play_cast_args(&args(&["--other"])), Ok(None));
    assert_eq!(
        parse_play_cast_args(&args(&["--play-cast", "a.cast", "--speed", "2", "--speed", "3"])),
        Ok(Some(CastRequest { path: "a.cast".into(), speeds: args(&["2", "3"]) }))
    );
    assert_eq!(
        parse_play_cast_args(&args(&["--play-cast"])),
        Err((CastArgsError::MissingPath, Vec::new()))
    );
    assert_eq!(
        parse_play_cast_args(&args(&["--play-cast", "a", "--speed"])),
        Err((CastArgsError::MissingSpeedValue, Vec::new()))
    );
    let err = parse_play_cast_args(&args(&["--play-cast", "a", "--speed", "1", "-x"])).unwrap_err();
    assert_eq!(err, (CastArgsError::UnknownArg("-x".into()), args(&["1"])));
    assert_eq!(err.0.message(), "unknown arg: -x");
    assert_eq!(CastArgsError::MissingPath.message(), "usage: termua --play-cast <path.cast> [--speed <n>]");
}

#[test]
fn cast_player_env_requests_need_mode_and_path() {
    assert_eq!(
        cast_request_from_env(Some("1"), Some("/tmp/demo.cast"), Some("1.5")),
        Some(("/tmp/demo.cast".to_string(), Some("1.5".to_string())))
    );
    assert_eq!(cast_request_from_env(Some("1"), Some("/tmp/demo.cast"), Some(" ")), Some(("/tmp/demo.cast".to_string(), None)));
    assert_eq!(cast_request_from_env(Some("0"), Some("/tmp/demo.cast"), None), None);
    assert_eq!(cast_request_from_env(Some("1"), Some("  "), None), None);
    assert_eq!(cast_request_from_env(None, Some("x"), None), None);
}

#[test]
fn cast_events_and_headers() {
    assert_eq!(cast_event_kind("o"), Some(CastEventKind::Output));
    assert_eq!(cast_event_kind("i"), Some(CastEventKind::Input));
    assert_eq!(cast_event_kind("r"), Some(CastEventKind::Resize));
    assert_eq!(cast_event_kind("x"), None);
    assert!(event_is_played(CastEventKind::Output));
    assert!(!event_is_played(CastEventKind::Resize));
    assert!(header_version_supported(None));
    assert!(header_version_supported(Some(2)));
    assert!(!header_version_supported(Some(1)));
}

#[test]
fn cast_headers_are_checked() {
    assert_eq!(check_cast_header(""), Ok(()));
    assert_eq!(check_cast_header("  \n"), Ok(()));
    assert_eq!(check_cast_header("{\"version\":2,\"width\":80}\n"), Ok(()));
    assert_eq!(check_cast_header("{}"), Ok(()));
    assert_eq!(check_cast_header("{\"version\":\"2\"}"), Ok(()));
    assert_eq!(check_cast_header("{\"version\":1}"), Err(CastError::UnsupportedVersion));
    assert_eq!(check_cast_header("not json"), Err(CastError::InvalidHeader));
}

#[test]
fn cast_event_lines_are_read() {
    assert_eq!(parse_cast_event("[0.0,\"o\",\"hi\"]"), Ok((CastEventKind::Output, "hi".to_string())));
    assert_eq!(parse_cast_event("[1,\"i\",\"x\"]"), Ok((CastEventKind::Input, "x".to_string())));
    assert_eq!(parse_cast_event("[2.5,\"r\",\"80x24\"]"), Ok((CastEventKind::Resize, "80x24".to_string())));
    assert_eq!(parse_cast_event("nope"), Err(CastError::InvalidEventJson));
    assert_eq!(parse_cast_event("{}"), Err(CastError::NotArray));
    assert_eq!(parse_cast_event("[1,\"o\"]"), Err(CastError::WrongItemCount(2)));
    assert_eq!(parse_cast_event("[\"a\",\"o\",\"x\"]"), Err(CastError::TimeNotNumber));
    assert_eq!(parse_cast_event("[0,1,\"x\"]"), Err(CastError::TypeNotString));
    assert_eq!(parse_cast_event("[0,\"o\",1]"), Err(CastError::DataNotString));
    assert_eq!(parse_cast_event("[0,\"z\",\"x\"]"), Err(CastError::UnsupportedType("z".to_string())));
}

#[test]
fn cast_events_from_items() {
    let item = |kind: CastItemKind, text: &str| CastItem { kind, text: text.to_string() };
    assert_eq!(cast_event_from_items(None), Err(CastError::InvalidEventJson));
    assert_eq!(cast_event_from_items(Some(None)), Err(CastError::NotArray));
    assert_eq!(cast_event_from_items(Some(Some(vec![]))), Err(CastError::WrongItemCount(0)));
    assert_eq!(
        cast_event_from_items(Some(Some(vec![
            item(CastItemKind::Number, ""),
            item(CastItemKind::Text, "o"),
            item(CastItemKind::Text, "data"),
        ]))),
        Ok((CastEventKind::Output, "data".to_string()))
    );
    assert_eq!(
        cast_event_from_items(Some(Some(vec![
            item(CastItemKind::Number, ""),
            item(CastItemKind::Text, "o"),
            item(CastItemKind::Other, ""),
        ]))),
        Err(CastError::DataNotString)
    );
}

#[test]
fn cast_lines_play_in_order() {
    let input = "{\"version\":2,\"width\":80,\"height\":24,\"timestamp\":0}\n[0.0,\"o\",\"hi\"]\n[0.1,\"o\",\" there\"]\n[0.2,\"i\",\"typed\"]\n";
    let mut lines = input.lines();
    assert_eq!(check_cast_header(lines.next().unwrap()), Ok(()));
    let mut out = String::new();
    for line in lines {
        let (kind, data) = parse_cast_event(line).unwrap();
        if event_is_played(kind) {
            out.push_str(&data);
        }
    }
    out.push_str(PLAYBACK_FINISHED);
    out.push_str(FREEZE_CURSOR);
    assert_eq!(out, format!("hi there\r\n[Recorder] Playback finished.\r\n{}", "\u{1b}[?12l\u{1b}[?25l"));
}
