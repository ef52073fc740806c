use termua::lock_screen::{lock_password_masked_for_reveal, unlock_error_message};
use termua::lock_screen::{normalize_username, AuthError, Authenticator, LockState};

struct FakeAuthenticator {
    ok: bool,
}

impl Authenticator for FakeAuthenticator {
    fn verify_password(&self, _password: &str) -> Result<bool, AuthError> {
        Ok(self.ok)
    }
}

struct FailingAuthenticator;

impl Authenticator for FailingAuthenticator {
    fn verify_password(&self, _password: &str) -> Result<bool, AuthError> {
        Err(AuthError { message: "pam unavailable".to_string() })
    }
}

#[test]
fn lock_state_enters_locked_after_idle_timeout() {
    let mut state = LockState::new_for_test(50, 1_000);
    assert!(!state.locked());

    state.tick(1_100);

    assert!(state.locked());
}

#[test]
fn lock_state_activity_resets_idle_deadline() {
    let mut state = LockState::new_for_test(200, 1_000);

    state.report_activity(1_080);

    state.tick(1_160);

    assert!(!state.locked());
}

#[test]
fn lock_state_unlocks_on_successful_auth() {
    let auth = FakeAuthenticator { ok: true };
    let mut state = LockState::new_for_test_with_auth(60_000, auth, 0);
    state.force_lock_for_test();
    assert!(state.locked());

    assert!(state.try_unlock_sync_for_test("pw", 10).unwrap());
    assert!(!state.locked());
}

#[test]
fn lock_state_default_disables_lock_when_username_unavailable() {
    let username = normalize_username(None);
    assert!(username.is_none());
    let state: LockState<FakeAuthenticator> = LockState::new_default(None, 0);
    assert!(
        !state.locking_supported(),
        "lock should be disabled if we can't determine the current username"
    );
}

#[test]
fn wrong_password_and_auth_errors_keep_the_app_locked() {
    let mut state = LockState::new_for_test(60_000, 0);
    state.force_lock_for_test();
    assert_eq!(state.try_unlock("pw", 5).unwrap(), false);
    assert!(state.locked());

    let mut failing = LockState::new_for_test_with_auth(60_000, FailingAuthenticator, 0);
    failing.force_lock_for_test();
    assert!(failing.try_unlock("pw", 5).is_err());
    assert!(failing.locked());
}

#[test]
fn unlocked_app_accepts_any_password() {
    let mut state = LockState::new_for_test(60_000, 0);
    assert!(state.try_unlock("anything", 1).unwrap());
}

#[test]
fn disabling_locking_unlocks_and_blocks_lock_now() {
    let mut state = LockState::new_for_test(60_000, 0);
    assert!(state.lock_now());
    assert!(state.locked());
    state.set_user_enabled(false, 10);
    assert!(!state.locked());
    assert!(!state.locking_enabled());
    assert!(!state.lock_now());
    state.tick(1_000_000);
    assert!(!state.locked());
}

#[test]
fn zero_timeout_never_locks_and_monitor_starts_once() {
    let auth = FakeAuthenticator { ok: false };
    let mut state: LockState<FakeAuthenticator> = LockState::new_default(Some(auth), 0);
    assert!(state.locking_supported());
    assert!(state.start_monitor_once());
    assert!(!state.start_monitor_once());
    state.set_idle_timeout(0, 0);
    assert!(!state.should_lock(u64::MAX));
    state.set_idle_timeout(1_000, 0);
    assert!(!state.should_lock(999));
    assert!(state.should_lock(1_000));
}

#[test]
fn usernames_are_trimmed() {
    assert_eq!(normalize_username(Some("  alice ".to_string())), Some("alice".to_string()));
    assert_eq!(normalize_username(Some("   ".to_string())), None);
}

#[test]
fn unlock_messages_follow_the_outcome() {
    assert_eq!(unlock_error_message(&Ok(true), "Incorrect password"), None);
    assert_eq!(
        unlock_error_message(&Ok(false), "Incorrect password").as_deref(),
        Some("Incorrect password")
    );
    let err = Err(AuthError { message: "PAM unavailable".to_string() });
    assert_eq!(unlock_error_message(&err, "x").as_deref(), Some("PAM unavailable"));
    assert!(lock_password_masked_for_reveal(false));
    assert!(!lock_password_masked_for_reveal(true));
}
