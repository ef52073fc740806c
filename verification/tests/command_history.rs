use termua::command_history::{compacted_file_text, normalize_command, CommandHistory, HistoryWrite};

#[test]
fn persists_across_reload() {
    let mut history = CommandHistory::from_file_text("", 2000);
    let mut file = String::new();
    for cmd in ["ls --all", "git status"] {
        match history.append(cmd) {
            HistoryWrite::AppendLine(line) => {
                file.push_str(&line);
                file.push('\n');
            }
            HistoryWrite::Rewrite(all) => file = compacted_file_text(&all),
            HistoryWrite::Nothing => {}
        }
    }
    let history2 = CommandHistory::from_file_text(&file, 2000);
    let seed = history2.seed();
    assert!(seed.contains(&"ls --all".to_string()));
    assert!(seed.contains(&"git status".to_string()));
    assert_eq!(seed, history.seed());
}

#[test]
fn blank_and_repeated_commands_are_not_recorded() {
    let mut h = CommandHistory::from_file_text("", 10);
    assert_eq!(h.append("   "), HistoryWrite::Nothing);
    assert_eq!(h.append(" ls "), HistoryWrite::AppendLine("ls".to_string()));
    assert_eq!(h.append("ls"), HistoryWrite::Nothing);
    assert_eq!(h.append("echo a\nb\r"), HistoryWrite::AppendLine("echo a b".to_string()));
    assert_eq!(h.seed(), vec!["ls".to_string(), "echo a b".to_string()]);
}

#[test]
fn history_beyond_its_limit_rewrites_the_file() {
    let mut h = CommandHistory::from_file_text("a\nb\n", 2);
    assert_eq!(
        h.append("c"),
        HistoryWrite::Rewrite(vec!["b".to_string(), "c".to_string()])
    );
    assert_eq!(compacted_file_text(&h.seed()), "b\nc\n");
    let mut one = CommandHistory::from_file_text("", 0);
    one.append("x");
    assert_eq!(one.append("y"), HistoryWrite::Rewrite(vec!["y".to_string()]));
}

#[test]
fn loading_trims_skips_blank_and_repeated_lines() {
    let h = CommandHistory::from_file_text("  ls \n\nls\r\npwd\nls\n", 10);
    assert_eq!(h.seed(), vec!["ls".to_string(), "pwd".to_string(), "ls".to_string()]);
    let h = CommandHistory::from_file_text("1\n2\n3\n4\n", 3);
    assert_eq!(h.seed(), vec!["2".to_string(), "3".to_string(), "4".to_string()]);
    assert_eq!(normalize_command("  a\r\nb  "), "a  b");
}
