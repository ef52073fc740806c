use termua::notification::{MessageKind, NotifyState};
use termua::right_sidebar::{RightSidebarState, RightSidebarTab};

#[test]
fn toggling_same_tab_twice_hides_sidebar() {
    let mut s = RightSidebarState::default();
    s.toggle_tab(RightSidebarTab::Notifications);
    assert!(s.visible);
    assert_eq!(s.active_tab, RightSidebarTab::Notifications);

    s.toggle_tab(RightSidebarTab::Notifications);
    assert!(!s.visible);
    assert_eq!(s.active_tab, RightSidebarTab::Notifications);
}

#[test]
fn toggling_other_tab_shows_and_switches() {
    let mut s = RightSidebarState::default();
    s.toggle_tab(RightSidebarTab::Notifications);
    assert!(s.visible);
    assert_eq!(s.active_tab, RightSidebarTab::Notifications);

    s.toggle_tab(RightSidebarTab::Assistant);
    assert!(s.visible);
    assert_eq!(s.active_tab, RightSidebarTab::Assistant);
}

#[test]
fn sidebar_starts_closed_at_default_width() {
    let s = RightSidebarState::default();
    assert!(!s.visible);
    assert_eq!(s.width, 360);
    assert_eq!(s.active_tab, RightSidebarTab::Notifications);
}

#[test]
fn notifications_are_trimmed_numbered_and_blank_ones_dropped() {
    let mut n = NotifyState::default();
    assert_eq!(n.push(MessageKind::Info, "  hello  "), 1);
    assert_eq!(n.push(MessageKind::Error, "   "), 0);
    assert_eq!(n.push(MessageKind::Warning, "disk\nfull"), 2);
    assert_eq!(n.messages.len(), 2);
    assert_eq!(n.messages[0].message, "hello");
    assert_eq!(n.messages[0].kind, MessageKind::Info);
    assert_eq!(n.messages[1].id, 2);
    n.clear();
    assert!(n.messages.is_empty());
    assert_eq!(n.push(MessageKind::Success, "again"), 3);
}

#[test]
fn notification_history_keeps_the_newest_two_hundred() {
    let mut n = NotifyState::default();
    for i in 0..205 {
        n.push(MessageKind::Info, &format!("m{i}"));
    }
    assert_eq!(n.messages.len(), 200);
    assert_eq!(n.messages[0].id, 6);
    assert_eq!(n.messages[199].id, 205);
    assert_eq!(n.messages[199].message, "m204");
}
