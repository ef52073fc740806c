use termua::ssh::{expand_home_dir_placeholders, expand_home_with, replace_str, ssh_proxy_from_session, ssh_proxy_with_home, SshProxyPlan};
use termua::store::{Session, SessionType, SshJumpHop, SshProxyEnvVar, SshProxyMode, TerminalBackend};

fn ssh_session(mode: Option<SshProxyMode>) -> Session {
    Session {
        id: 7,
        protocol: SessionType::Ssh,
        group_path: "ssh".to_string(),
        label: "prod".to_string(),
        backend: TerminalBackend::Wezterm,
        env: None,
        shell_program: None,
        ssh_host: Some("example.com".to_string()),
        ssh_port: Some(22),
        ssh_auth_type: None,
        ssh_user: None,
        ssh_credential_username: None,
        ssh_password: None,
        ssh_tcp_nodelay: false,
        ssh_tcp_keepalive: false,
        ssh_proxy_mode: mode,
        ssh_proxy_command: None,
        ssh_proxy_workdir: None,
        ssh_proxy_env: None,
        ssh_proxy_jump: None,
        serial_port: None,
        serial_baud: None,
        serial_data_bits: None,
        serial_parity: None,
        serial_stop_bits: None,
        serial_flow_control: None,
    }
}

#[test]
fn replace_str_replaces_every_occurrence() {
    assert_eq!(replace_str("a-b-c", "-", "+"), "a+b+c");
    assert_eq!(replace_str("aaaa", "aa", "b"), "bb");
    assert_eq!(replace_str("none here", "xyz", "q"), "none here");
    assert_eq!(replace_str("", "x", "y"), "");
}

#[test]
fn home_placeholder_is_replaced() {
    assert_eq!(expand_home_with("${HomeDir}/.ssh/config", Some("/home/me")), "/home/me/.ssh/config");
    assert_eq!(expand_home_with("a ${HomeDir} b ${HomeDir}", Some("/h")), "a /h b /h");
}

#[test]
fn leading_tilde_is_replaced() {
    assert_eq!(expand_home_with("~", Some("/home/me")), "/home/me");
    assert_eq!(expand_home_with("~/work", Some("/home/me")), "/home/me/work");
    assert_eq!(expand_home_with("~work", Some("/home/me")), "~work");
    assert_eq!(expand_home_with("a/~/b", Some("/home/me")), "a/~/b");
}

#[test]
fn nothing_changes_without_a_home_dir() {
    assert_eq!(expand_home_with("${HomeDir}/x", None), "${HomeDir}/x");
    assert_eq!(expand_home_with("~/x", None), "~/x");
}

#[test]
fn text_without_placeholders_is_kept() {
    assert_eq!(expand_home_dir_placeholders("/etc/ssh"), "/etc/ssh");
}

#[test]
fn no_proxy_mode_connects_directly() {
    assert!(matches!(ssh_proxy_with_home(&ssh_session(None), Some("/h")), SshProxyPlan::Disabled));
    assert!(matches!(ssh_proxy_with_home(&ssh_session(Some(SshProxyMode::Inherit)), None), SshProxyPlan::Inherit));
    assert!(matches!(ssh_proxy_from_session(&ssh_session(Some(SshProxyMode::Disabled))), SshProxyPlan::Disabled));
}

#[test]
fn proxy_command_expands_home() {
    let mut s = ssh_session(Some(SshProxyMode::Command));
    s.ssh_proxy_command = Some("nc -X connect -x proxy:3128 %h %p".to_string());
    s.ssh_proxy_workdir = Some("~/proxy".to_string());
    s.ssh_proxy_env = Some(vec![SshProxyEnvVar { name: "CFG".to_string(), value: "${HomeDir}/cfg".to_string() }]);
    match ssh_proxy_with_home(&s, Some("/home/me")) {
        SshProxyPlan::Command { command, working_dir, env } => {
            assert_eq!(command, "nc -X connect -x proxy:3128 %h %p");
            assert_eq!(working_dir.as_deref(), Some("/home/me/proxy"));
            assert_eq!(env, vec![("CFG".to_string(), "/home/me/cfg".to_string())]);
        }
        other => panic!("unexpected plan {other:?}"),
    }
    s.ssh_proxy_command = None;
    match ssh_proxy_with_home(&s, None) {
        SshProxyPlan::Command { command, working_dir, .. } => {
            assert_eq!(command, "");
            assert_eq!(working_dir.as_deref(), Some("~/proxy"));
        }
        other => panic!("unexpected plan {other:?}"),
    }
}

#[test]
fn jump_server_keeps_hops() {
    let mut s = ssh_session(Some(SshProxyMode::JumpServer));
    s.ssh_proxy_jump = Some(vec![
        SshJumpHop { host: "jump1".to_string(), user: Some("u".to_string()), port: Some(2201) },
        SshJumpHop { host: "jump2".to_string(), user: None, port: None },
    ]);
    match ssh_proxy_with_home(&s, Some("/h")) {
        SshProxyPlan::JumpServer { hops, working_dir, env } => {
            assert_eq!(hops, s.ssh_proxy_jump.clone().unwrap());
            assert_eq!(working_dir, None);
            assert!(env.is_empty());
        }
        other => panic!("unexpected plan {other:?}"),
    }
}
