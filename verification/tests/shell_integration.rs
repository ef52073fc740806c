use termua::shell_integration::is_pwsh_program;

#[test]
fn detects_pwsh_program_by_basename() {
    assert!(is_pwsh_program("pwsh"));
    assert!(is_pwsh_program("/snap/bin/pwsh"));
    assert!(!is_pwsh_program("powershell"));
    assert!(!is_pwsh_program("bash"));
}

#[test]
fn pwsh_detection_follows_path_file_name_rules() {
    assert!(is_pwsh_program("  /usr/bin/pwsh  "));
    assert!(is_pwsh_program("/usr/bin/pwsh/"));
    assert!(is_pwsh_program("pwsh/."));
    assert!(is_pwsh_program("./pwsh"));
    assert!(!is_pwsh_program("/usr/bin/pwsh.exe"));
    assert!(!is_pwsh_program("pwsh/.."));
    assert!(!is_pwsh_program("/"));
    assert!(!is_pwsh_program("   "));
    assert!(!is_pwsh_program(""));
}
