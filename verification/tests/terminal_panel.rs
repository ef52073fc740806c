use termua::terminal_panel::{
    local_terminal_panel_tab_name, sftp_upload_destination_label, sftp_upload_file_count_label,
    supports_sftp_file_drop, terminal_panel_tab_name, PanelKind, TabNameCounts,
};

#[test]
fn sftp_upload_file_count_label_handles_pluralization() {
    assert_eq!(sftp_upload_file_count_label(1), "1 file");
    assert_eq!(sftp_upload_file_count_label(2), "2 files");
}

#[test]
fn sftp_upload_file_count_label_says_zero_files() {
    assert_eq!(sftp_upload_file_count_label(0), "0 files");
    assert_eq!(sftp_upload_file_count_label(120), "120 files");
}

#[test]
fn sftp_upload_destination_label_uses_fallback_when_unknown() {
    assert_eq!(
        sftp_upload_destination_label(None),
        "Destination: current remote directory"
    );
    assert_eq!(
        sftp_upload_destination_label(Some("")),
        "Destination: current remote directory"
    );
    assert_eq!(
        sftp_upload_destination_label(Some("/srv/app")),
        "Destination: /srv/app"
    );
}

#[test]
fn recorder_tabs_use_recorder_prefix() {
    assert_eq!(terminal_panel_tab_name(PanelKind::Local, 7), "local 7");
    assert_eq!(terminal_panel_tab_name(PanelKind::Recorder, 7), "recorder 7");
    assert_eq!(terminal_panel_tab_name(PanelKind::Ssh, 0), "ssh 0");
    assert_eq!(terminal_panel_tab_name(PanelKind::Serial, 12), "serial 12");
}

#[test]
fn local_tabs_fall_back_to_local_prefix_without_shell() {
    let mut counts = TabNameCounts::new();
    assert_eq!(local_terminal_panel_tab_name(None, 7, &mut counts), "local 7");
    assert_eq!(local_terminal_panel_tab_name(Some("  "), 8, &mut counts), "local 8");
}

#[test]
fn duplicate_local_shell_tabs_append_shell_sequence() {
    let mut counts = TabNameCounts::new();
    assert_eq!(local_terminal_panel_tab_name(Some("bash"), 7, &mut counts), "bash");
    assert_eq!(local_terminal_panel_tab_name(Some("bash"), 9, &mut counts), "bash 2");
    assert_eq!(local_terminal_panel_tab_name(Some("zsh"), 10, &mut counts), "zsh");
    assert_eq!(local_terminal_panel_tab_name(Some("bash"), 11, &mut counts), "bash 3");
}

#[test]
fn ssh_panel_drop_support_requires_sftp_files_only() {
    assert!(supports_sftp_file_drop(PanelKind::Ssh, true, &[true]));
    assert!(!supports_sftp_file_drop(PanelKind::Local, true, &[true]));
    assert!(!supports_sftp_file_drop(PanelKind::Ssh, false, &[true]));
    assert!(!supports_sftp_file_drop(PanelKind::Ssh, true, &[false]));
    assert!(!supports_sftp_file_drop(PanelKind::Ssh, true, &[true, false]));
    assert!(!supports_sftp_file_drop(PanelKind::Ssh, true, &[]));
}
