use termua::assistant::{
    extract_fenced_code_blocks, extract_terminal_command_snippets, sanitize_assistant_reply,
    strip_fenced_code_blocks, truncate_text, AssistantRole, AssistantState,
};

#[test]
fn extract_fenced_code_blocks_returns_multiple_blocks() {
    let text = "A\n```sh\necho hi\n```\nB\n```bash\nls\n```\nC";
    let blocks = extract_fenced_code_blocks(text);
    assert_eq!(blocks.len(), 2);
    assert_eq!(blocks[0].lang.as_deref(), Some("sh"));
    assert_eq!(blocks[0].body, "echo hi");
    assert_eq!(blocks[1].lang.as_deref(), Some("bash"));
    assert_eq!(blocks[1].body, "ls");
}

#[test]
fn strip_fenced_code_blocks_removes_blocks_but_keeps_surrounding_text() {
    let text = "A\n```sh\necho hi\n```\nB";
    assert_eq!(strip_fenced_code_blocks(text), "A\n\nB");
}

#[test]
fn extract_terminal_command_snippets_splits_simple_lines() {
    let text = "```sh\nls -la\npwd\n```";
    assert_eq!(
        extract_terminal_command_snippets(text),
        vec!["ls -la".to_string(), "pwd".to_string()]
    );
}

#[test]
fn assistant_state_request_lifecycle_is_tracked_and_cancellable() {
    let mut s = AssistantState::default();
    assert!(!s.in_flight);
    assert_eq!(s.active_request_id, None);

    let id = s.begin_request();
    assert!(s.in_flight);
    assert_eq!(s.active_request_id, Some(id));

    assert!(!s.finish_request(id.saturating_add(1)));
    assert!(s.in_flight);
    assert_eq!(s.active_request_id, Some(id));

    assert!(s.cancel_request());
    assert!(!s.in_flight);
    assert_eq!(s.active_request_id, None);

    assert!(!s.finish_request(id));
}

#[test]
fn sanitize_assistant_reply_strips_tool_call_transcript_lines() {
    let raw = r#"
Ok, here's what I'll do.
to=functions.exec_command {"cmd":"ls -la ~/vmware"}
{"cmd":"bash -lc 'ls -la ~/vmware'"}
Run:
```sh
ls -la ~/vmware
```
Done.
"#;

    let cleaned = sanitize_assistant_reply(raw);
    assert!(!cleaned.contains("to=functions.exec_command"));
    assert!(!cleaned.contains("\"cmd\""));
    assert!(cleaned.contains("```sh"));
    assert!(cleaned.contains("ls -la ~/vmware"));
}

#[test]
fn fenced_block_without_closing_fence_is_ignored() {
    let blocks = extract_fenced_code_blocks("intro\n```sh\necho never closed");
    assert!(blocks.is_empty());
    assert_eq!(strip_fenced_code_blocks("intro\n```sh\necho never closed"), "intro");
}

#[test]
fn fenced_block_with_blank_body_is_skipped_and_untagged_block_has_no_lang() {
    let blocks = extract_fenced_code_blocks("```\n   \n```\n```\necho x\n```");
    assert_eq!(blocks.len(), 1);
    assert_eq!(blocks[0].lang, None);
    assert_eq!(blocks[0].body, "echo x");
}

#[test]
fn script_blocks_become_paragraph_snippets() {
    let text = "```bash\nfor f in *; do\n  echo $f\ndone\n\nls\n```";
    assert_eq!(
        extract_terminal_command_snippets(text),
        vec!["for f in *; do\n  echo $f\ndone".to_string(), "ls".to_string()]
    );
}

#[test]
fn non_shell_blocks_and_comments_are_not_runnable() {
    let text = "```python\nprint(1)\n```\n```sh\n# comment\nwhoami\n```";
    assert_eq!(extract_terminal_command_snippets(text), vec!["whoami".to_string()]);
}

#[test]
fn sanitize_keeps_ordinary_json_and_blank_lines() {
    let raw = "a\n\n{\"x\": 1}\nto=shell run\nb";
    assert_eq!(sanitize_assistant_reply(raw), "a\n\n{\"x\": 1}\nb");
}

#[test]
fn truncate_text_counts_characters() {
    assert_eq!(truncate_text("héllo", 2), "hé");
    assert_eq!(truncate_text("abc", 10), "abc");
    assert_eq!(truncate_text("abc", 0), "");
}

#[test]
fn push_trims_and_drops_blank_messages() {
    let mut s = AssistantState::default();
    s.push(AssistantRole::User, "   ");
    assert!(s.messages.is_empty());
    s.push(AssistantRole::User, "  hi \n");
    assert_eq!(s.messages.len(), 1);
    assert_eq!(s.messages[0].content, "hi");
    assert_eq!(s.messages[0].role, AssistantRole::User);
    s.clear();
    assert!(s.messages.is_empty());
}
