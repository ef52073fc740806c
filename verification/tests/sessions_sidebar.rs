use termua::sessions_sidebar::{
    build_tree_items, build_tree_items_from_summaries, find_tree_item_by_id, folder_debug_name,
    matches_query, parse_session_id, split_group_path, SessionTreeSummary, SessionsSidebarError,
    SessionsSidebarEvent,
};
use termua::store::{Session, SessionType, TerminalBackend};

fn session(id: i64, protocol: SessionType, group_path: &str, label: &str, host: Option<&str>) -> Session {
    Session {
        id,
        protocol,
        group_path: group_path.to_string(),
        label: label.to_string(),
        backend: TerminalBackend::Wezterm,
        env: None,
        shell_program: None,
        ssh_host: host.map(|h| h.to_string()),
        ssh_port: Some(22),
        ssh_auth_type: None,
        ssh_user: None,
        ssh_credential_username: None,
        ssh_password: None,
        ssh_tcp_nodelay: false,
        ssh_tcp_keepalive: false,
        ssh_proxy_mode: None,
        ssh_proxy_command: None,
        ssh_proxy_workdir: None,
        ssh_proxy_env: None,
        ssh_proxy_jump: None,
        serial_port: None,
        serial_baud: None,
        serial_data_bits: None,
        serial_parity: None,
        serial_stop_bits: None,
        serial_flow_control: None,
    }
}

#[test]
fn build_tree_items_filters_by_query_and_keeps_ancestors() {
    let sessions = vec![
        session(1, SessionType::Ssh, "ssh>prod", "db", Some("db.example.com")),
        session(2, SessionType::Ssh, "ssh>staging", "api", Some("api.example.com")),
    ];

    let items = build_tree_items(&sessions, "db");
    assert_eq!(items.len(), 1);
    assert_eq!(items[0].label, "ssh");
    assert_eq!(items[0].children.len(), 1);
    assert_eq!(items[0].children[0].label, "prod");
    assert_eq!(items[0].children[0].children.len(), 1);
    assert_eq!(items[0].children[0].children[0].label, "db");

    let items = build_tree_items(&sessions, "staging");
    assert_eq!(items.len(), 1);
    assert_eq!(items[0].label, "ssh");
    assert_eq!(items[0].children.len(), 1);
    assert_eq!(items[0].children[0].label, "staging");
}

#[test]
fn tree_lists_folders_in_name_order_before_sessions() {
    let sessions = vec![
        session(3, SessionType::Local, "", "shell", None),
        session(1, SessionType::Ssh, " b > x ", "one", None),
        session(2, SessionType::Serial, "a", "two", None),
        session(4, SessionType::Ssh, "b", "three", None),
    ];
    let items = build_tree_items(&sessions, "");
    let labels: Vec<&str> = items.iter().map(|i| i.label.as_str()).collect();
    assert_eq!(labels, vec!["a", "b", "shell"]);
    assert_eq!(items[0].id, "folder:a");
    assert!(items[0].expanded);
    assert_eq!(items[0].children[0].id, "session:serial:2");
    assert_eq!(items[1].id, "folder:b");
    assert_eq!(items[1].children[0].id, "folder:b>x");
    assert_eq!(items[1].children[0].children[0].id, "session:ssh:1");
    assert_eq!(items[1].children[1].id, "session:ssh:4");
    assert_eq!(items[2].id, "session:local:3");
    assert!(!items[2].expanded);

    let found = find_tree_item_by_id(&items, "session:ssh:1").expect("row");
    assert_eq!(found.label, "one");
    assert!(find_tree_item_by_id(&items, "folder:c").is_none());
    assert_eq!(parse_session_id(&found.id), Some(1));
}

#[test]
fn search_is_case_insensitive_over_label_group_and_host() {
    let s = SessionTreeSummary::from_session(&session(9, SessionType::Ssh, "Prod", "DB", Some("Db.Example.com")));
    assert_eq!(s.search_text, "db prod db.example.com");
    assert!(matches_query(&s, "EXAMPLE"));
    assert!(matches_query(&s, ""));
    assert!(!matches_query(&s, "staging"));
    let items = build_tree_items_from_summaries(&[s], "nothing");
    assert!(items.is_empty());
}

#[test]
fn session_ids_and_folder_names_are_read_from_row_ids() {
    assert_eq!(parse_session_id("session:ssh:42"), Some(42));
    assert_eq!(parse_session_id("session:local:-7"), Some(-7));
    assert_eq!(parse_session_id("session:ssh"), None);
    assert_eq!(parse_session_id("folder:a"), None);
    assert_eq!(parse_session_id("session:ssh:x1"), None);
    assert_eq!(folder_debug_name("folder:ssh>prod env"), "ssh_prod_env");
    assert_eq!(folder_debug_name("plain-name_1"), "plain-name_1");
    assert_eq!(split_group_path(" a >> b >"), vec!["a".to_string(), "b".to_string()]);
    assert!(split_group_path("  ").is_empty());
}

#[test]
fn error_selectors_and_events() {
    assert_eq!(SessionsSidebarError::LoadSessions.debug_selector(), "termua-sessions-sidebar-load-error");
    assert_eq!(
        SessionsSidebarError::Operation("x".into()).debug_selector(),
        "termua-sessions-sidebar-operation-error"
    );
    assert_eq!(SessionsSidebarEvent::OpenSession(3), SessionsSidebarEvent::OpenSession(3));
}
