use termua::keychain::{pick_stored_item, ssh_password_secret, zeroclaw_api_key_secret, Secret};

#[test]
fn ssh_secret_descriptor_builds_expected_account_name() {
    let secret = Secret::ssh_password(42);

    assert_eq!(secret.account_name(), "ssh_password:42");
}

#[test]
fn named_secret_descriptor_builds_expected_account_name() {
    let secret = Secret::named("zeroclaw_api_key", "default");

    assert_eq!(secret.account_name(), "zeroclaw_api_key:default");
}

#[test]
fn ssh_secret_descriptor_builds_expected_storage_target_and_label() {
    let secret = Secret::ssh_password(42);

    assert_eq!(secret.storage_target(), "termua:ssh_password:42");
    assert_eq!(secret.label(), "termua ssh password (session 42)");
}

#[test]
fn named_secret_descriptor_builds_expected_storage_target_and_label() {
    let secret = Secret::named("zeroclaw_api_key", "default");

    assert_eq!(secret.storage_target(), "termua:zeroclaw_api_key:default");
    assert_eq!(secret.label(), "termua secret (zeroclaw_api_key:default)");
}

#[test]
fn negative_session_ids_keep_their_sign() {
    assert_eq!(Secret::ssh_password(-7).account_name(), "ssh_password:-7");
    assert_eq!(ssh_password_secret(0).label(), "termua ssh password (session 0)");
}

#[test]
fn secret_attributes_name_app_kind_and_key() {
    let attrs = Secret::ssh_password(42).attributes();
    let expected: Vec<(String, String)> = vec![
        ("app".into(), "termua".into()),
        ("kind".into(), "ssh_password".into()),
        ("session_id".into(), "42".into()),
    ];
    assert_eq!(attrs, expected);
    let attrs = zeroclaw_api_key_secret().attributes();
    let expected: Vec<(String, String)> = vec![
        ("app".into(), "termua".into()),
        ("kind".into(), "zeroclaw_api_key".into()),
        ("key".into(), "default".into()),
    ];
    assert_eq!(attrs, expected);
}

#[test]
fn lookups_prefer_unlocked_items() {
    assert_eq!(pick_stored_item(2, 1), Some((true, 0)));
    assert_eq!(pick_stored_item(0, 3), Some((false, 0)));
    assert_eq!(pick_stored_item(0, 0), None);
}
