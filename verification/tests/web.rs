use termua::web::{escape_html_text, generate_token, AccessError, ClientAccess, ShareAccess, XtermTheme};

#[test]
fn authenticated_clients_start_read_only() {
    let mut access = ShareAccess::new("secret".into());
    assert_eq!(access.connect("wrong", 1), Err(AccessError::InvalidToken));
    assert_eq!(access.connect("secret", 1), Ok(ClientAccess::ReadOnly));
    assert!(!access.can_input(1));
}

#[test]
fn approving_later_request_transfers_exclusive_control() {
    let mut access = ShareAccess::new("secret".into());
    access.connect("secret", 1).unwrap();
    access.connect("secret", 2).unwrap();

    let request = access.request_control(1).unwrap();
    assert!(!access.can_input(1));
    assert_eq!(access.approve(request), Ok(()));
    assert!(access.can_input(1));

    let later_request = access.request_control(2).unwrap();
    assert!(access.can_input(1));
    assert!(!access.can_input(2));
    assert_eq!(access.approve(later_request), Ok(()));
    assert!(!access.can_input(1));
    assert!(access.can_input(2));
}

#[test]
fn disconnecting_controller_releases_control() {
    let mut access = ShareAccess::new("secret".into());
    access.connect("secret", 1).unwrap();
    let request = access.request_control(1).unwrap();
    access.approve(request).unwrap();
    access.disconnect(1);

    access.connect("secret", 2).unwrap();
    assert!(access.request_control(2).is_ok());
}

#[test]
fn revoking_control_returns_controller_to_read_only() {
    let mut access = ShareAccess::new("secret".into());
    access.connect("secret", 1).unwrap();
    let request = access.request_control(1).unwrap();
    access.approve(request).unwrap();
    assert!(access.can_input(1));

    assert!(access.revoke_control());
    assert!(!access.can_input(1));
    assert!(!access.revoke_control());
}

#[test]
fn controller_can_release_only_its_own_control() {
    let mut access = ShareAccess::new("secret".into());
    access.connect("secret", 1).unwrap();
    access.connect("secret", 2).unwrap();
    let request = access.request_control(1).unwrap();
    access.approve(request).unwrap();

    assert!(!access.release_control(2));
    assert!(access.can_input(1));
    assert!(access.release_control(1));
    assert!(!access.can_input(1));
}

#[test]
fn denied_control_request_can_be_requested_again() {
    let mut access = ShareAccess::new("secret".into());
    access.connect("secret", 1).unwrap();
    let request = access.request_control(1).unwrap();
    assert_eq!(
        access.request_control(1),
        Err(AccessError::RequestAlreadyPending)
    );
    access.deny(request);
    assert!(access.request_control(1).is_ok());
}

#[test]
fn only_one_control_request_can_be_pending() {
    let mut access = ShareAccess::new("secret".into());
    access.connect("secret", 1).unwrap();
    access.connect("secret", 2).unwrap();

    access.request_control(1).unwrap();

    assert_eq!(
        access.request_control(2),
        Err(AccessError::RequestAlreadyPending)
    );
}

#[test]
fn unknown_clients_and_requests_are_refused() {
    let mut access = ShareAccess::new("secret".into());
    assert_eq!(access.request_control(7), Err(AccessError::UnknownClient));
    assert_eq!(access.approve(42), Err(AccessError::UnknownRequest));
    access.connect("secret", 7).unwrap();
    let request = access.request_control(7).unwrap();
    assert_eq!(request, 1);
    access.approve(request).unwrap();
    assert_eq!(
        access.request_control(7),
        Err(AccessError::ControllerAlreadyActive)
    );
}

#[test]
fn disconnect_drops_the_pending_request_of_the_client() {
    let mut access = ShareAccess::new("secret".into());
    access.connect("secret", 1).unwrap();
    access.connect("secret", 2).unwrap();
    let request = access.request_control(1).unwrap();
    access.disconnect(1);
    assert_eq!(access.approve(request), Err(AccessError::UnknownRequest));
    assert!(access.request_control(2).is_ok());
}

#[test]
fn escape_html_text_escapes_markup() {
    assert_eq!(
        escape_html_text("bash & <tools> \"q\" 'a'"),
        "bash &amp; &lt;tools&gt; &quot;q&quot; &#39;a&#39;"
    );
}

#[test]
fn generated_share_token_has_256_bits_of_hex_entropy() {
    let token = generate_token();
    assert_eq!(token.len(), 64);
    assert!(token.chars().all(|c| c.is_ascii_hexdigit() && !c.is_ascii_uppercase()));
    assert_ne!(token, generate_token());
}

#[test]
fn default_xterm_theme_uses_dark_palette() {
    let theme = XtermTheme::default_theme();
    assert_eq!(theme.background, "#111111");
    assert_eq!(theme.foreground, "#d8dee9");
    assert_eq!(theme.bright_black, "#7b8496");
}
