use termua::web::xterm_font_family;

const SYMBOLS: &str = "\"Symbols Nerd Font Mono\", \"Symbols Nerd Font\", \"Noto Sans Symbols 2\", \"Apple Symbols\", \"Segoe UI Symbol\"";

#[test]
fn font_family_lists_terminal_font_then_symbol_fonts() {
    assert_eq!(
        xterm_font_family("JetBrains Mono", &[]),
        format!("\"JetBrains Mono\", {SYMBOLS}, monospace")
    );
}

#[test]
fn font_family_keeps_fallbacks_in_order_once_and_trimmed() {
    let fallbacks = vec!["Fira".to_string(), "  ".to_string(), " Hack ".to_string(), "Symbols Nerd Font".to_string()];
    assert_eq!(
        xterm_font_family(" Fira ", &fallbacks),
        "\"Fira\", \"Hack\", \"Symbols Nerd Font\", \"Symbols Nerd Font Mono\", \"Noto Sans Symbols 2\", \"Apple Symbols\", \"Segoe UI Symbol\", monospace"
    );
}

#[test]
fn font_family_escapes_quotes_and_backslashes() {
    assert_eq!(
        xterm_font_family("My \"Font\"\\X", &[]),
        format!("\"My \\\"Font\\\"\\\\X\", {SYMBOLS}, monospace")
    );
}

#[test]
fn blank_font_family_leaves_only_symbol_fonts() {
    assert_eq!(xterm_font_family("   ", &[]), format!("{SYMBOLS}, monospace"));
}
