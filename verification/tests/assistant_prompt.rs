use termua::assistant::{
    compose_full_prompt, compute_can_rerun_user_messages, sanitize_assistant_reply, AssistantMessage,
    AssistantRole, PromptAttachments,
};

fn msg(role: AssistantRole, content: &str) -> AssistantMessage {
    AssistantMessage { role, content: content.to_string() }
}

fn attachments(selection: &str, context: &str, output: &str) -> PromptAttachments {
    PromptAttachments {
        selection: selection.to_string(),
        terminal_context: context.to_string(),
        last_command_output: output.to_string(),
    }
}

#[test]
fn prompt_without_attachments_is_sent_as_is() {
    assert_eq!(compose_full_prompt("ls -la", &attachments("", "", "")), "ls -la");
}

#[test]
fn prompt_lists_attachments_before_the_user_text() {
    assert_eq!(
        compose_full_prompt("why?", &attachments("sel", "ctx", "out")),
        "Last command output:\nout\n\nTerminal context (tail):\nctx\n\nSelected text:\nsel\n\nUser:\nwhy?"
    );
    assert_eq!(
        compose_full_prompt("why?", &attachments("sel", "", "")),
        "Selected text:\nsel\n\nUser:\nwhy?"
    );
}

#[test]
fn user_messages_render_rerun_button_after_assistant_reply() {
    let entries = vec![msg(AssistantRole::User, "ls -la"), msg(AssistantRole::Assistant, "ok")];
    assert_eq!(compute_can_rerun_user_messages(&entries, false), vec![true, false]);
    assert_eq!(compute_can_rerun_user_messages(&entries, true), vec![true, false]);
}

#[test]
fn user_messages_hide_rerun_button_before_assistant_reply() {
    let entries = vec![msg(AssistantRole::User, "ls -la")];
    assert_eq!(compute_can_rerun_user_messages(&entries, true), vec![false]);
}

#[test]
fn only_last_user_message_hides_rerun_while_in_flight() {
    let entries = vec![
        msg(AssistantRole::User, "first"),
        msg(AssistantRole::Assistant, "reply"),
        msg(AssistantRole::User, "second"),
        msg(AssistantRole::System, "note"),
    ];
    assert_eq!(compute_can_rerun_user_messages(&entries, true), vec![true, false, false, false]);
    assert_eq!(compute_can_rerun_user_messages(&entries, false), vec![true, false, true, false]);
    assert_eq!(compute_can_rerun_user_messages(&[], true), Vec::<bool>::new());
}

#[test]
fn sanitizing_a_sanitized_reply_changes_nothing() {
    let reply = "  \n\n  Here you go:\nto=functions.shell {\"cmd\": \"ls\"}\n  {\"command\": \"rm\"}  \nls -la   \n\n  ";
    let once = sanitize_assistant_reply(reply);
    assert_eq!(once, "Here you go:\nls -la");
    assert_eq!(sanitize_assistant_reply(&once), once);
}
