use termua::serial::{is_permission_denied_text, is_pty_name, open_failure_hint, order_ports, should_include_dev_name};

#[test]
fn serial_device_names_are_recognised() {
    for name in ["ttyUSB0", "ttyACM1", "ttyS0", "rfcomm0", "serial0", "cu.usbserial", "tty.Bluetooth"] {
        assert!(should_include_dev_name(name), "{name}");
    }
    for name in ["tty1", "null", "serial2", "sda"] {
        assert!(!should_include_dev_name(name), "{name}");
    }
    assert!(is_pty_name("0"));
    assert!(is_pty_name("12"));
    assert!(!is_pty_name("ptmx"));
    assert!(!is_pty_name("1a"));
}

#[test]
fn ports_are_grouped_sorted_and_deduplicated() {
    let s = |v: &[&str]| v.iter().map(|x| x.to_string()).collect::<Vec<_>>();
    let out = order_ports(
        &s(&["/dev/serial/by-id/b", "/dev/serial/by-id/a", "/dev/serial/by-id/b"]),
        &s(&["/dev/ttyUSB1", "/dev/ttyUSB0"]),
        &s(&["/dev/pts/3", "/dev/pts/10"]),
    );
    assert_eq!(
        out,
        s(&[
            "/dev/serial/by-id/a",
            "/dev/serial/by-id/b",
            "/dev/ttyUSB0",
            "/dev/ttyUSB1",
            "/dev/pts/10",
            "/dev/pts/3"
        ])
    );
}

#[test]
fn permission_hints_only_for_denied_access() {
    assert!(is_permission_denied_text("Permission denied (os error 13)"));
    assert!(is_permission_denied_text("Access is denied."));
    assert!(!is_permission_denied_text("device busy"));
    assert_eq!(open_failure_hint("/dev/ttyUSB0", false), None);
    let hint = open_failure_hint("/dev/ttyUSB0", true).unwrap();
    assert!(hint.starts_with("Hint:\n- Linux: make sure your user can access `/dev/ttyUSB0`"));
    assert!(hint.ends_with("- Check permissions: `ls -l /dev/ttyUSB0`"));
}
