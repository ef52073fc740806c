use termua::web::{drop_unreachable_clients, websocket_step, ClientMessage, ControlRequestStatus, ShareAccess, WsAction};

fn auth(token: &str) -> ClientMessage {
    ClientMessage::Authenticate { token: token.to_string() }
}

fn input(data: &str) -> ClientMessage {
    ClientMessage::Input { data: data.to_string() }
}

#[test]
fn messages_before_authentication_are_ignored() {
    let mut access = ShareAccess::new("secret".into());
    assert_eq!(websocket_step(&mut access, false, 1, &input("x")), (false, WsAction::Ignore));
    assert_eq!(websocket_step(&mut access, false, 1, &ClientMessage::RequestControl), (false, WsAction::Ignore));
    assert_eq!(websocket_step(&mut access, false, 1, &ClientMessage::Activity), (false, WsAction::Ignore));
    assert!(!access.can_input(1));
}

#[test]
fn wrong_token_closes_and_right_token_welcomes() {
    let mut access = ShareAccess::new("secret".into());
    assert_eq!(websocket_step(&mut access, false, 1, &auth("nope")), (false, WsAction::Close));
    assert_eq!(websocket_step(&mut access, false, 1, &auth("secret")), (true, WsAction::Welcome));
    assert_eq!(websocket_step(&mut access, true, 1, &auth("secret")), (true, WsAction::Ignore));
}

#[test]
fn websocket_input_is_forwarded_only_after_approval() {
    let mut access = ShareAccess::new("secret".into());
    websocket_step(&mut access, false, 1, &auth("secret"));
    assert_eq!(websocket_step(&mut access, true, 1, &input("blocked")), (true, WsAction::Ignore));
    let (_, action) = websocket_step(&mut access, true, 1, &ClientMessage::RequestControl);
    let id = match action {
        WsAction::ForwardControlRequest(id) => id,
        other => panic!("unexpected action {other:?}"),
    };
    access.approve(id).unwrap();
    assert_eq!(websocket_step(&mut access, true, 1, &input("allowed")), (true, WsAction::ForwardInput));
}

#[test]
fn refused_control_requests_say_why() {
    let mut access = ShareAccess::new("secret".into());
    websocket_step(&mut access, false, 1, &auth("secret"));
    websocket_step(&mut access, false, 2, &auth("secret"));
    let (_, first) = websocket_step(&mut access, true, 1, &ClientMessage::RequestControl);
    assert!(matches!(first, WsAction::ForwardControlRequest(_)));
    assert_eq!(
        websocket_step(&mut access, true, 2, &ClientMessage::RequestControl),
        (true, WsAction::RefuseControlRequest(ControlRequestStatus::Pending))
    );
    if let WsAction::ForwardControlRequest(id) = first {
        access.approve(id).unwrap();
    }
    assert_eq!(
        websocket_step(&mut access, true, 1, &ClientMessage::RequestControl),
        (true, WsAction::RefuseControlRequest(ControlRequestStatus::Unavailable))
    );
}

#[test]
fn controller_release_is_broadcast() {
    let mut access = ShareAccess::new("secret".into());
    websocket_step(&mut access, false, 1, &auth("secret"));
    websocket_step(&mut access, false, 2, &auth("secret"));
    let (_, action) = websocket_step(&mut access, true, 1, &ClientMessage::RequestControl);
    if let WsAction::ForwardControlRequest(id) = action {
        access.approve(id).unwrap();
    }
    assert_eq!(websocket_step(&mut access, true, 2, &ClientMessage::ReleaseControl), (true, WsAction::Ignore));
    assert!(access.can_input(1));
    assert_eq!(websocket_step(&mut access, true, 1, &ClientMessage::ReleaseControl), (true, WsAction::BroadcastAccess));
    assert!(!access.can_input(1));
}

#[test]
fn unreachable_clients_are_dropped_with_their_control() {
    let mut access = ShareAccess::new("secret".into());
    websocket_step(&mut access, false, 1, &auth("secret"));
    websocket_step(&mut access, false, 2, &auth("secret"));
    let (_, action) = websocket_step(&mut access, true, 1, &ClientMessage::RequestControl);
    if let WsAction::ForwardControlRequest(id) = action {
        access.approve(id).unwrap();
    }
    drop_unreachable_clients(&mut access, &[1]);
    assert!(!access.can_input(1));
    assert_eq!(websocket_step(&mut access, true, 1, &ClientMessage::RequestControl), (true, WsAction::Ignore));
    assert!(matches!(
        websocket_step(&mut access, true, 2, &ClientMessage::RequestControl).1,
        WsAction::ForwardControlRequest(_)
    ));
}
