use termua::store::SessionEnvVar;
use termua::terminal_env::{build_terminal_env, cast_player_child_env};

fn get<'a>(env: &'a [SessionEnvVar], name: &str) -> Option<&'a str> {
    env.iter().find(|v| v.name == name).map(|v| v.value.as_str())
}

#[test]
fn build_terminal_env_merges_colorterm_and_explicit_env_overrides() {
    let env = build_terminal_env(
        "/bin/zsh",
        "xterm-256color",
        Some("truecolor"),
        "UTF-8",
        &[
            SessionEnvVar { name: "TERM".to_string(), value: "screen-256color".to_string() },
            SessionEnvVar { name: "COLORTERM".to_string(), value: "24bit".to_string() },
            SessionEnvVar { name: "CUSTOM_FLAG".to_string(), value: "1".to_string() },
        ],
    );

    assert_eq!(get(&env, "SHELL"), Some("/bin/zsh"));
    assert_eq!(get(&env, "TERMUA_SHELL"), Some("/bin/zsh"));
    assert_eq!(get(&env, "TERM"), Some("screen-256color"));
    assert_eq!(get(&env, "COLORTERM"), Some("24bit"));
    assert_eq!(get(&env, "CUSTOM_FLAG"), Some("1"));
    assert_eq!(get(&env, "LANG"), Some("en_US.UTF-8"));
    assert_eq!(get(&env, "LC_CTYPE"), Some("en_US.UTF-8"));
}

#[test]
fn blank_settings_are_left_out_and_ascii_selects_c_locale() {
    let env = build_terminal_env("  ", " ", Some(" "), " us-ascii ", &[]);
    assert_eq!(env.len(), 2);
    assert_eq!(get(&env, "LANG"), Some("C"));
    assert_eq!(get(&env, "LC_CTYPE"), Some("C"));
    let env = build_terminal_env("bash", "xterm", None, "latin1", &[]);
    assert_eq!(get(&env, "LANG"), None);
    assert_eq!(get(&env, "TERM"), Some("xterm"));
    let env = build_terminal_env("bash", "xterm", None, "utf8", &[]);
    assert_eq!(get(&env, "LANG"), Some("en_US.UTF-8"));
}

#[test]
fn cast_player_env_sets_mode_and_path() {
    let env = cast_player_child_env("/tmp/demo.cast", Some("1.5"), None);
    assert_eq!(get(&env, "TERMUA_CAST_PLAYER"), Some("1"));
    assert_eq!(get(&env, "TERMUA_CAST_PLAYER_PATH"), Some("/tmp/demo.cast"));
    assert_eq!(get(&env, "TERMUA_CAST_PLAYER_SPEED"), Some("1.5"));
    assert!(get(&env, "TERMUA_SHELL").is_some_and(|v| !v.trim().is_empty()));
    let env = cast_player_child_env("/tmp/a.cast", None, Some("/usr/bin/termua"));
    assert_eq!(get(&env, "TERMUA_CAST_PLAYER_SPEED"), None);
    assert_eq!(get(&env, "TERMUA_SHELL"), Some("/usr/bin/termua"));
}
