use termua::footbar::{
    multi_exec_icon_path, sftp_toast_message, transfer_popup_icon_spec, transfer_tooltip,
    transfers_done_label, truncate_shared, FootbarIcon, ToastLevel, TransferKind, TransferStatus,
};
use termua::notification::MessageKind;

#[test]
fn footbar_multi_exec_icon_paths_match_spec() {
    assert_eq!(multi_exec_icon_path(false), FootbarIcon::Dice1);
    assert_eq!(multi_exec_icon_path(true), FootbarIcon::Dice4);
}

#[test]
fn finished_transfer_uses_green_check_icon_in_popup() {
    let (path, is_success) = transfer_popup_icon_spec(TransferKind::Upload, TransferStatus::Finished);
    assert_eq!(path, FootbarIcon::Check);
    assert!(is_success);
    assert_eq!(
        transfer_popup_icon_spec(TransferKind::Download, TransferStatus::InProgress),
        (FootbarIcon::Download, false)
    );
}

#[test]
fn tooltip_includes_destination_path_on_new_line() {
    assert_eq!(transfer_tooltip("file.txt", Some("/tmp/file.txt")), "file.txt\nTo:/tmp/file.txt");
    assert_eq!(transfer_tooltip("file.txt", Some("  ")), "file.txt");
    assert_eq!(transfer_tooltip("file.txt", None), "file.txt");
}

#[test]
fn footbar_labels_are_shortened_with_an_ellipsis() {
    assert_eq!(truncate_shared("abcdef", 3), "abc...");
    assert_eq!(truncate_shared("abc", 3), "abc");
    assert_eq!(truncate_shared("abc", 0), "");
}

#[test]
fn sftp_toast_event_message_includes_detail_for_message_center() {
    let (kind, message) =
        sftp_toast_message(ToastLevel::Info, "Moved", Some("File: a.txt\nFrom: /from/a.txt\nTo: /to/a.txt"));
    assert_eq!(kind, MessageKind::Info);
    assert!(message.contains("Moved"), "message={message:?}");
    assert!(message.contains("a.txt"), "message={message:?}");
    assert!(message.contains("/from/a.txt"), "message={message:?}");
    assert!(message.contains("/to/a.txt"), "message={message:?}");
}

#[test]
fn sftp_toast_event_message_maps_levels_and_ignores_blank_detail() {
    let cases = [(ToastLevel::Warning, MessageKind::Warning), (ToastLevel::Critical, MessageKind::Error)];
    for (level, expected_kind) in cases {
        assert_eq!(
            sftp_toast_message(level, "Transfer failed", Some("   ")),
            (expected_kind, "Transfer failed".to_string())
        );
    }
}

#[test]
fn transfers_label_counts_finished_transfers() {
    let statuses = [TransferStatus::Finished, TransferStatus::InProgress, TransferStatus::Finished, TransferStatus::Failed];
    assert_eq!(transfers_done_label(&statuses, None), "2/4");
    assert_eq!(transfers_done_label(&[], None), "0/0");
}

#[test]
fn transfers_label_prefers_group_counts() {
    assert_eq!(transfers_done_label(&[TransferStatus::Queued], Some((3, 12))), "3/12");
}
