use termua::ssh::{
    dedupe_tab_label, filter_known_hosts_contents, parse_ssh_host_key_mismatch,
    ssh_connect_failure_message, ssh_tab_tooltip, ssh_target_label, SshLogin, SshTarget,
};
use termua::terminal_panel::TabNameCounts;

fn target(host: &str, login: SshLogin) -> SshTarget {
    SshTarget { host: host.to_string(), port: Some(22), login }
}

fn password(user: &str, pw: &str) -> SshLogin {
    SshLogin::Password { user: user.to_string(), password: pw.to_string() }
}

#[test]
fn ssh_tab_label_is_deduped_by_appending_incrementing_numbers() {
    let mut counts = TabNameCounts::new();
    assert_eq!(dedupe_tab_label(&mut counts, "prod"), "prod");
    assert_eq!(dedupe_tab_label(&mut counts, "prod"), "prod 2");
    assert_eq!(dedupe_tab_label(&mut counts, "prod"), "prod 3");
    assert_eq!(dedupe_tab_label(&mut counts, "staging"), "staging");
    assert_eq!(dedupe_tab_label(&mut counts, "staging"), "staging 2");
}

#[test]
fn blank_ssh_tab_labels_fall_back_to_ssh() {
    let mut counts = TabNameCounts::new();
    assert_eq!(dedupe_tab_label(&mut counts, "  "), "ssh");
    assert_eq!(dedupe_tab_label(&mut counts, " ssh "), "ssh 2");
}

#[test]
fn ssh_tab_tooltip_shows_user_and_host_for_password_auth() {
    let opts = target("example.com", password("alice", "pw"));
    assert_eq!(ssh_tab_tooltip(&opts), "alice/example.com");
}

#[test]
fn ssh_tab_tooltip_defaults_user_to_root_when_empty() {
    let opts = target("example.com", password("", "pw"));
    assert_eq!(ssh_tab_tooltip(&opts), "root/example.com");
}

#[test]
fn ssh_tab_tooltip_shows_host_only_for_config_auth() {
    let opts = target("example.com", SshLogin::Config);
    assert_eq!(ssh_tab_tooltip(&opts), "example.com");
}

#[test]
fn ssh_connect_failure_message_mentions_wrong_password_when_denied() {
    let opts = target("example.com", password("alice", "super-secret"));
    let message =
        ssh_connect_failure_message(&opts, "ssh login error: password auth status: Denied");
    assert!(
        message.contains("Wrong password"),
        "expected failure message to map denial to user-friendly phrasing, got {message:?}"
    );
    assert_eq!(message, "alice@example.com:22: Wrong password");
}

#[test]
fn ssh_target_label_defaults_port_and_keeps_other_causes() {
    let opts = SshTarget { host: " db ".to_string(), port: None, login: SshLogin::Config };
    assert_eq!(ssh_target_label(&opts), "db:22");
    let opts = SshTarget { host: "db".to_string(), port: Some(2200), login: password(" ", "x") };
    assert_eq!(ssh_target_label(&opts), "root@db:2200");
    assert_eq!(ssh_connect_failure_message(&opts, "timed out"), "root@db:2200: timed out");
}

#[test]
fn parse_ssh_host_key_mismatch_extracts_fingerprint_and_known_hosts_path() {
    let reason = [
        "host verification failed: host key mismatch for ssh server 127.0.0.1:22. ",
        "Got fingerprint SHA256:P2yrg3Yviu/doplfeJo5IggYUMVuuF2vFNEOceH2qtM ",
        "instead of the expected value from your known hosts file ",
        "Some(\"/home/iamazy/.ssh/known_hosts\")",
    ]
    .concat();
    let reason = reason.as_str();

    let details = parse_ssh_host_key_mismatch(reason).expect("expected mismatch details");
    assert_eq!(
        details.got_fingerprint.as_deref(),
        Some("SHA256:P2yrg3Yviu/doplfeJo5IggYUMVuuF2vFNEOceH2qtM")
    );
    assert_eq!(
        details.known_hosts_path.clone(),
        Some("/home/iamazy/.ssh/known_hosts".to_string())
    );
    assert_eq!(details.server_host.as_deref(), Some("127.0.0.1"));
    assert_eq!(details.server_port, Some(22));
}

#[test]
fn host_key_reports_without_a_mismatch_are_ignored() {
    assert_eq!(parse_ssh_host_key_mismatch("connection refused"), None);
    let d = parse_ssh_host_key_mismatch("HOST KEY MISMATCH for server example.org has changed")
        .expect("details");
    assert_eq!(d.server_host.as_deref(), Some("example.org"));
    assert_eq!(d.server_port, None);
    assert_eq!(d.got_fingerprint, None);
    assert_eq!(d.known_hosts_path, None);
}

#[test]
fn filter_known_hosts_contents_removes_matching_host_entries() {
    let contents = [
        "# comment\n",
        "127.0.0.1 ssh-ed25519 AAAA\n",
        "[127.0.0.1]:2222 ssh-ed25519 BBBB\n",
        "example.com ssh-ed25519 CCCC\n",
    ]
    .concat();
    let contents = contents.as_str();

    let (out_22, removed_22) = filter_known_hosts_contents(contents, "127.0.0.1", 22);
    assert_eq!(removed_22, 1, "out={out_22:?}");
    assert!(!out_22.contains("127.0.0.1 ssh-ed25519 AAAA"));
    assert!(out_22.contains("[127.0.0.1]:2222 ssh-ed25519 BBBB"));
    assert!(out_22.contains("example.com ssh-ed25519 CCCC"));

    let (out_2222, removed_2222) = filter_known_hosts_contents(contents, "127.0.0.1", 2222);
    assert_eq!(removed_2222, 1, "out={out_2222:?}");
    assert!(out_2222.contains("127.0.0.1 ssh-ed25519 AAAA"));
    assert!(!out_2222.contains("[127.0.0.1]:2222 ssh-ed25519 BBBB"));
    assert!(out_2222.contains("example.com ssh-ed25519 CCCC"));
}

#[test]
fn known_hosts_filter_matches_any_comma_separated_name() {
    let contents = "a.example,10.0.0.1 ssh-rsa K1\n  # 10.0.0.1 note\n\nb.example ssh-rsa K2";
    let (out, removed) = filter_known_hosts_contents(contents, " 10.0.0.1 ", 22);
    assert_eq!(removed, 1);
    assert_eq!(out, "  # 10.0.0.1 note\n\nb.example ssh-rsa K2");
    let (out, removed) = filter_known_hosts_contents(contents, "", 22);
    assert_eq!(removed, 0);
    assert_eq!(out, contents);
}
