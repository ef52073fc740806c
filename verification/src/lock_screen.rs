//! The lock screen: when the app locks itself after idling, and how it is
//! unlocked.  Time is a millisecond clock reading handed in by the caller.
use vstd::prelude::*;

use crate::text::{chars_of, string_from_range, trim, trim_bounds};

verus! {

/// The default idle time before locking: five minutes.
pub const DEFAULT_IDLE_TIMEOUT_MS: u64 = 300000;

/// Why a password could not be checked.
#[derive(Clone, Debug)]
pub struct AuthError {
    pub message: String,
}

/// Checks the password of the current user.
pub trait Authenticator {
    /// Whether `r` is an answer this authenticator may give when asked
    /// about `password`.  An authenticator that does not say may give any.
    open spec fn answers(&self, password: Seq<char>, r: Result<bool, AuthError>) -> bool {
        true
    }

    /// Whether `password` is the current user's password, or why that could
    /// not be checked.
    fn verify_password(&self, password: &str) -> (r: Result<bool, AuthError>)
        ensures
            self.answers(password@, r),
    ;
}

/// An authenticator that accepts no password.
#[derive(Clone, Copy, Debug)]
pub struct DenyAllAuthenticator;

impl Authenticator for DenyAllAuthenticator {
    open spec fn answers(&self, password: Seq<char>, r: Result<bool, AuthError>) -> bool {
        r == Ok::<bool, AuthError>(false)
    }

    fn verify_password(&self, _password: &str) -> (r: Result<bool, AuthError>)
        ensures
            r == Ok::<bool, AuthError>(false),
    {
        Ok(false)
    }
}

/// The lock state of the app.
pub struct LockState<A: Authenticator> {
    supported: bool,
    user_enabled: bool,
    idle_timeout_ms: u64,
    last_activity_ms: u64,
    locked: bool,
    monitor_started: bool,
    authenticator: Option<A>,
}

/// The abstract state of a [`LockState`].
pub struct LockModel {
    pub supported: bool,
    pub user_enabled: bool,
    pub idle_timeout_ms: u64,
    pub last_activity_ms: u64,
    pub locked: bool,
    pub monitor_started: bool,
}

impl LockModel {
    /// Locking is possible on this platform and the user wants it.
    pub open spec fn enabled(self) -> bool {
        self.supported && self.user_enabled
    }

    /// The app has been idle for at least the timeout at time `now`.
    pub open spec fn idle_expired(self, now: u64) -> bool {
        now >= self.last_activity_ms && now - self.last_activity_ms >= self.idle_timeout_ms
    }
}

/// Whether the app should lock itself at time `now`: locking is enabled, the
/// app is not locked yet, a timeout is set, and it has expired.
pub open spec fn should_lock_spec(m: LockModel, now: u64) -> bool {
    m.enabled() && !m.locked && m.idle_timeout_ms != 0 && m.idle_expired(now)
}

/// `tick`: lock when the idle timeout has expired.
pub open spec fn tick_spec(m: LockModel, now: u64) -> LockModel {
    if should_lock_spec(m, now) {
        LockModel { locked: true, ..m }
    } else {
        m
    }
}

/// `report_activity`: user activity restarts the idle clock, unless locked.
pub open spec fn activity_spec(m: LockModel, now: u64) -> LockModel {
    if m.locked {
        m
    } else {
        LockModel { last_activity_ms: now, ..m }
    }
}

/// `set_user_enabled`: turning locking off also unlocks; the clock restarts.
pub open spec fn set_enabled_spec(m: LockModel, enabled: bool, now: u64) -> LockModel {
    LockModel {
        user_enabled: enabled,
        locked: if m.supported && enabled {
            m.locked
        } else {
            false
        },
        last_activity_ms: now,
        ..m
    }
}

/// `lock_now`: locks when locking is enabled.
pub open spec fn lock_now_spec(m: LockModel) -> (LockModel, bool) {
    if m.enabled() {
        (LockModel { locked: true, ..m }, true)
    } else {
        (m, false)
    }
}

/// A user name as the environment gives it, trimmed; a blank one counts as
/// none.
pub open spec fn normalized_username(raw: Option<Seq<char>>) -> Option<Seq<char>> {
    match raw {
        Some(u) => if trim(u).len() > 0 {
            Some(trim(u))
        } else {
            None
        },
        None => None,
    }
}

/// Trims a user name taken from the environment; a blank one counts as none.
pub fn normalize_username(raw: Option<String>) -> (out: Option<String>)
    ensures
        match out {
            Some(u) => normalized_username(
                match raw {
                    Some(r) => Some(r@),
                    None => None,
                },
            ) == Some(u@),
            None => normalized_username(
                match raw {
                    Some(r) => Some(r@),
                    None => None,
                },
            ) is None,
        },
{
    match raw {
        None => None,
        Some(r) => {
            let v = chars_of(r.as_str());
            let (a, b) = trim_bounds(&v, 0, v.len());
            assert(v@.subrange(0, v@.len() as int) == v@);
            if a == b {
                None
            } else {
                Some(string_from_range(&v, a, b))
            }
        },
    }
}

impl<A: Authenticator> LockState<A> {
    /// The abstract state.
    pub closed spec fn model(&self) -> LockModel {
        LockModel {
            supported: self.supported,
            user_enabled: self.user_enabled,
            idle_timeout_ms: self.idle_timeout_ms,
            last_activity_ms: self.last_activity_ms,
            locked: self.locked,
            monitor_started: self.monitor_started,
        }
    }

    /// The authenticator that checks passwords, if the platform has one.
    pub closed spec fn auth(&self) -> Option<A> {
        self.authenticator
    }

    /// Whether a platform authenticator is present.
    pub open spec fn has_authenticator(&self) -> bool {
        self.auth() is Some
    }

    /// Whether `r` is what this state's authenticator may answer for
    /// `password`; without an authenticator, only `Ok(false)`.
    pub open spec fn auth_answers(&self, password: Seq<char>, r: Result<bool, AuthError>) -> bool {
        match self.auth() {
            Some(a) => a.answers(password, r),
            None => r == Ok::<bool, AuthError>(false),
        }
    }

    fn set_last_activity_now(&mut self, now_ms: u64)
        ensures
            final(self).model() == (LockModel { last_activity_ms: now_ms, ..old(self).model() }),
            final(self).auth() == old(self).auth(),
    {
        self.last_activity_ms = now_ms;
    }

    /// The lock state at start-up: locking is supported when the platform
    /// has an authenticator for the current user; it is enabled, with a
    /// five-minute idle timeout, and unlocked.
    pub fn new_default(authenticator: Option<A>, now_ms: u64) -> (s: Self)
        ensures
            s.model() == (LockModel {
                supported: authenticator is Some,
                user_enabled: true,
                idle_timeout_ms: DEFAULT_IDLE_TIMEOUT_MS,
                last_activity_ms: now_ms,
                locked: false,
                monitor_started: false,
            }),
            s.auth() == authenticator,
    {
        let supported = authenticator.is_some();
        LockState {
            supported,
            user_enabled: true,
            idle_timeout_ms: DEFAULT_IDLE_TIMEOUT_MS,
            last_activity_ms: now_ms,
            locked: false,
            monitor_started: false,
            authenticator,
        }
    }

    /// Whether the app is locked.
    pub fn locked(&self) -> (b: bool)
        ensures
            b == self.model().locked,
    {
        self.locked
    }

    /// Whether this platform can lock the app.
    pub fn locking_supported(&self) -> (b: bool)
        ensures
            b == self.model().supported,
    {
        self.supported
    }

    /// Whether locking is supported and turned on.
    pub fn locking_enabled(&self) -> (b: bool)
        ensures
            b == self.model().enabled(),
    {
        self.supported && self.user_enabled
    }

    /// Turns locking on or off; off also unlocks.  The idle clock restarts.
    pub fn set_user_enabled(&mut self, enabled: bool, now_ms: u64)
        ensures
            final(self).model() == set_enabled_spec(old(self).model(), enabled, now_ms),
            final(self).auth() == old(self).auth(),
    {
        self.user_enabled = enabled;
        if !self.locking_enabled() {
            self.locked = false;
        }
        self.set_last_activity_now(now_ms);
    }

    /// Sets the idle timeout (0 turns idle locking off); the clock restarts.
    pub fn set_idle_timeout(&mut self, idle_timeout_ms: u64, now_ms: u64)
        ensures
            final(self).model() == (LockModel {
                idle_timeout_ms,
                last_activity_ms: now_ms,
                ..old(self).model()
            }),
            final(self).auth() == old(self).auth(),
    {
        self.idle_timeout_ms = idle_timeout_ms;
        self.set_last_activity_now(now_ms);
    }

    /// Locks at once, when locking is enabled; returns whether it locked.
    pub fn lock_now(&mut self) -> (b: bool)
        ensures
            (final(self).model(), b) == lock_now_spec(old(self).model()),
            final(self).auth() == old(self).auth(),
    {
        if !self.locking_enabled() {
            return false;
        }
        self.locked = true;
        true
    }

    /// Marks the idle monitor as started; true only the first time.
    pub fn start_monitor_once(&mut self) -> (first: bool)
        ensures
            first == !old(self).model().monitor_started,
            final(self).model() == (LockModel { monitor_started: true, ..old(self).model() }),
            final(self).auth() == old(self).auth(),
    {
        if self.monitor_started {
            return false;
        }
        self.monitor_started = true;
        true
    }

    /// User activity at `now_ms` restarts the idle clock, unless locked.
    pub fn report_activity(&mut self, now_ms: u64)
        ensures
            final(self).model() == activity_spec(old(self).model(), now_ms),
            final(self).auth() == old(self).auth(),
    {
        if self.locked {
            return;
        }
        self.set_last_activity_now(now_ms);
    }

    /// Whether the app should lock itself at `now_ms`.
    pub fn should_lock(&self, now_ms: u64) -> (b: bool)
        ensures
            b == should_lock_spec(self.model(), now_ms),
    {
        if !self.locking_enabled() || self.locked {
            return false;
        }
        if self.idle_timeout_ms == 0 {
            return false;
        }
        let elapsed = now_ms.saturating_sub(self.last_activity_ms);
        if now_ms < self.last_activity_ms {
            return false;
        }
        elapsed >= self.idle_timeout_ms
    }

    /// Locks the app when the idle timeout has expired at `now_ms`.
    pub fn tick(&mut self, now_ms: u64)
        ensures
            final(self).model() == tick_spec(old(self).model(), now_ms),
            final(self).auth() == old(self).auth(),
    {
        if self.should_lock(now_ms) {
            self.locked = true;
        }
    }

    fn unlock_success(&mut self, now_ms: u64)
        ensures
            final(self).model() == (LockModel {
                locked: false,
                last_activity_ms: now_ms,
                ..old(self).model()
            }),
            final(self).auth() == old(self).auth(),
    {
        self.locked = false;
        self.set_last_activity_now(now_ms);
    }

    /// Tries to unlock with `password`.  An unlocked app answers `Ok(true)`
    /// without asking the authenticator; a locked one unlocks (and restarts
    /// the idle clock) exactly when the authenticator accepts the password,
    /// and stays as it was when it refuses or fails.  Without an
    /// authenticator no password is accepted.
    pub fn try_unlock(&mut self, password: &str, now_ms: u64) -> (r: Result<bool, AuthError>)
        ensures
            !old(self).model().locked ==> r == Ok::<bool, AuthError>(true) && final(self).model()
                == old(self).model(),
            old(self).model().locked && !old(self).has_authenticator() ==> r == Ok::<
                bool,
                AuthError,
            >(false) && final(self).model() == old(self).model(),
            old(self).model().locked ==> old(self).auth_answers(password@, r),
            old(self).model().locked ==> match r {
                Ok(true) => final(self).model() == (LockModel {
                    locked: false,
                    last_activity_ms: now_ms,
                    ..old(self).model()
                }),
                _ => final(self).model() == old(self).model(),
            },
            final(self).auth() == old(self).auth(),
    {
        if !self.locked {
            return Ok(true);
        }
        let ok = match &self.authenticator {
            Some(auth) => auth.verify_password(password),
            None => Ok(false),
        };
        match ok {
            Ok(true) => {
                self.unlock_success(now_ms);
                Ok(true)
            },
            Ok(false) => Ok(false),
            Err(e) => Err(e),
        }
    }

    /// A lock state for tests: enabled, unlocked, monitor already started.
    pub fn new_for_test_with_auth(idle_timeout_ms: u64, authenticator: A, now_ms: u64) -> (s: Self)
        ensures
            s.model() == (LockModel {
                supported: true,
                user_enabled: true,
                idle_timeout_ms,
                last_activity_ms: now_ms,
                locked: false,
                monitor_started: true,
            }),
            s.auth() == Some(authenticator),
    {
        LockState {
            supported: true,
            user_enabled: true,
            idle_timeout_ms,
            last_activity_ms: now_ms,
            locked: false,
            monitor_started: true,
            authenticator: Some(authenticator),
        }
    }

    /// Locks the app whatever the settings (for tests).
    pub fn force_lock_for_test(&mut self)
        ensures
            final(self).model() == (LockModel { locked: true, ..old(self).model() }),
            final(self).auth() == old(self).auth(),
    {
        self.locked = true;
    }

    /// `try_unlock`, under the name the tests use.
    pub fn try_unlock_sync_for_test(&mut self, password: &str, now_ms: u64) -> (r: Result<
        bool,
        AuthError,
    >)
        ensures
            !old(self).model().locked ==> r == Ok::<bool, AuthError>(true) && final(self).model()
                == old(self).model(),
            old(self).model().locked && !old(self).has_authenticator() ==> r == Ok::<
                bool,
                AuthError,
            >(false) && final(self).model() == old(self).model(),
            old(self).model().locked ==> old(self).auth_answers(password@, r),
            old(self).model().locked ==> match r {
                Ok(true) => final(self).model() == (LockModel {
                    locked: false,
                    last_activity_ms: now_ms,
                    ..old(self).model()
                }),
                _ => final(self).model() == old(self).model(),
            },
            final(self).auth() == old(self).auth(),
    {
        self.try_unlock(password, now_ms)
    }
}

impl LockState<DenyAllAuthenticator> {
    /// A lock state for tests that no password unlocks.
    pub fn new_for_test(idle_timeout_ms: u64, now_ms: u64) -> (s: Self)
        ensures
            s.model() == (LockModel {
                supported: true,
                user_enabled: true,
                idle_timeout_ms,
                last_activity_ms: now_ms,
                locked: false,
                monitor_started: true,
            }),
            s.auth() == Some(DenyAllAuthenticator),
    {
        Self::new_for_test_with_auth(idle_timeout_ms, DenyAllAuthenticator, now_ms)
    }
}

/// An enabled, unlocked app with a timeout locks on the first tick at or
/// after the timeout has passed since the last activity, and not before.
pub proof fn law_idle_timeout_locks(m: LockModel, now: u64)
    requires
        m.enabled(),
        !m.locked,
        m.idle_timeout_ms > 0,
        now >= m.last_activity_ms,
    ensures
        tick_spec(m, now).locked <==> now - m.last_activity_ms >= m.idle_timeout_ms,
{
}

/// Activity pushes the deadline back: right after activity at `t`, no tick
/// before `t + timeout` locks the app.
pub proof fn law_activity_resets_deadline(m: LockModel, t: u64, later: u64)
    requires
        !m.locked,
        t <= later,
        later - t < m.idle_timeout_ms,
    ensures
        !tick_spec(activity_spec(m, t), later).locked,
{
}

/// Activity while locked changes nothing, and no tick unlocks.
pub proof fn law_locked_ignores_activity(m: LockModel, t: u64)
    requires
        m.locked,
    ensures
        activity_spec(m, t) == m,
        tick_spec(m, t).locked,
{
}

/// The app is never locked by itself when locking is off: turning locking
/// off unlocks it, and after that neither `tick` nor `lock_now` locks it.
pub proof fn law_disabled_never_locks(m: LockModel, t: u64, later: u64)
    ensures
        ({
            let off = set_enabled_spec(m, false, t);
            &&& !off.locked
            &&& !tick_spec(off, later).locked
            &&& !lock_now_spec(off).0.locked
            &&& !lock_now_spec(off).1
        }),
{
}

/// The app is locked only while locking is enabled.
pub open spec fn lock_ok(m: LockModel) -> bool {
    m.locked ==> m.enabled()
}

/// `m2` keeps the invariant, whether locking is supported, the user's
/// setting, and whether the idle monitor was started.
pub open spec fn keeps_settings(m: LockModel, m2: LockModel) -> bool {
    &&& lock_ok(m2)
    &&& m2.supported == m.supported
    &&& m2.user_enabled == m.user_enabled
    &&& m2.monitor_started == m.monitor_started
}

/// The lock state's invariant over any sequence of calls: every state a
/// constructor makes is unlocked; `tick`, `report_activity`, `lock_now`,
/// `set_idle_timeout`, `try_unlock` and `start_monitor_once` (apart from
/// starting the monitor) keep the invariant and the settings; and
/// `set_user_enabled` keeps the invariant and support and sets the user's
/// setting to its argument.  So locking is enabled exactly when it is
/// supported and the last `set_user_enabled` (or the default, on) turned it
/// on, support never changes, and the app is locked only while locking is
/// enabled.
pub proof fn law_lock_operations_keep_invariant(m: LockModel, now: u64, enabled: bool, timeout: u64)
    requires
        lock_ok(m),
    ensures
        keeps_settings(m, tick_spec(m, now)),
        keeps_settings(m, activity_spec(m, now)),
        keeps_settings(m, lock_now_spec(m).0),
        keeps_settings(m, LockModel { idle_timeout_ms: timeout, last_activity_ms: now, ..m }),
        keeps_settings(m, LockModel { locked: false, last_activity_ms: now, ..m }),
        lock_ok(LockModel { monitor_started: true, ..m }),
        ({
            let m2 = set_enabled_spec(m, enabled, now);
            &&& lock_ok(m2)
            &&& m2.supported == m.supported
            &&& m2.user_enabled == enabled
            &&& m2.enabled() == (m.supported && enabled)
            &&& m2.monitor_started == m.monitor_started
        }),
{
}

/// The idle monitor starts at most once: once started, every operation
/// leaves it started, so `start_monitor_once` answers `true` at most once
/// over any sequence of calls (and never on the test states, which are made
/// with the monitor started).
pub proof fn law_monitor_starts_at_most_once(m: LockModel, now: u64, enabled: bool, timeout: u64)
    requires
        m.monitor_started,
    ensures
        tick_spec(m, now).monitor_started,
        activity_spec(m, now).monitor_started,
        lock_now_spec(m).0.monitor_started,
        set_enabled_spec(m, enabled, now).monitor_started,
        (LockModel { idle_timeout_ms: timeout, last_activity_ms: now, ..m }).monitor_started,
        (LockModel { locked: false, last_activity_ms: now, ..m }).monitor_started,
        (LockModel { locked: true, ..m }).monitor_started,
        (LockModel { monitor_started: true, ..m }).monitor_started,
{
}

/// A call on a lock state, by what it does to the model: `tick`,
/// `report_activity`, `set_user_enabled`, `set_idle_timeout`, `lock_now`,
/// `start_monitor_once`, and a `try_unlock` that was accepted (a refused or
/// failed one changes nothing).
pub enum LockOp {
    Tick(u64),
    Activity(u64),
    SetEnabled(bool, u64),
    SetIdleTimeout(u64, u64),
    LockNow,
    StartMonitor,
    Unlocked(u64),
}

/// The model after one call, as the call's contract states it.
pub open spec fn apply_op(m: LockModel, op: LockOp) -> LockModel {
    match op {
        LockOp::Tick(now) => tick_spec(m, now),
        LockOp::Activity(now) => activity_spec(m, now),
        LockOp::SetEnabled(enabled, now) => set_enabled_spec(m, enabled, now),
        LockOp::SetIdleTimeout(timeout, now) => LockModel { idle_timeout_ms: timeout, last_activity_ms: now, ..m },
        LockOp::LockNow => lock_now_spec(m).0,
        LockOp::StartMonitor => LockModel { monitor_started: true, ..m },
        LockOp::Unlocked(now) => if m.locked {
            LockModel { locked: false, last_activity_ms: now, ..m }
        } else {
            m
        },
    }
}

/// The model after the calls `ops`, in order.
pub open spec fn apply_ops(m: LockModel, ops: Seq<LockOp>) -> LockModel
    decreases ops.len(),
{
    if ops.len() == 0 {
        m
    } else {
        apply_op(apply_ops(m, ops.drop_last()), ops.last())
    }
}

/// The user's locking setting after the calls `ops`: the argument of the
/// last `set_user_enabled`, or `initial` when there was none.
pub open spec fn last_user_setting(ops: Seq<LockOp>, initial: bool) -> bool
    decreases ops.len(),
{
    if ops.len() == 0 {
        initial
    } else {
        match ops.last() {
            LockOp::SetEnabled(enabled, _) => enabled,
            _ => last_user_setting(ops.drop_last(), initial),
        }
    }
}

/// How many of the calls `ops` were a `start_monitor_once` that answered
/// `true` (found the monitor not started).
pub open spec fn monitor_starts(m: LockModel, ops: Seq<LockOp>) -> nat
    decreases ops.len(),
{
    if ops.len() == 0 {
        0
    } else {
        monitor_starts(m, ops.drop_last()) + if ops.last() is StartMonitor && !apply_ops(
            m,
            ops.drop_last(),
        ).monitor_started {
            1nat
        } else {
            0nat
        }
    }
}

/// Over any sequence of calls (other than `force_lock_for_test`) from a
/// state that keeps the invariant, as every constructor's does: locking is
/// enabled exactly when it is supported and the last `set_user_enabled`
/// turned it on (on when there was none); support never changes; and the
/// app is locked only while locking is enabled.
pub proof fn law_lock_settings_over_calls(m: LockModel, ops: Seq<LockOp>)
    requires
        lock_ok(m),
    ensures
        apply_ops(m, ops).supported == m.supported,
        apply_ops(m, ops).user_enabled == last_user_setting(ops, m.user_enabled),
        apply_ops(m, ops).enabled() == (m.supported && last_user_setting(ops, m.user_enabled)),
        lock_ok(apply_ops(m, ops)),
    decreases ops.len(),
{
    if ops.len() > 0 {
        law_lock_settings_over_calls(m, ops.drop_last());
    }
}

/// Over any sequence of calls, `start_monitor_once` answers `true` at most
/// once, and never when the monitor was started to begin with (as on the
/// test states); from a state whose monitor is not started (as on
/// `new_default`'s), the first call of it answers `true`, so exactly one
/// does once it has been called; and the monitor then stays started.
pub proof fn law_monitor_starts_once_over_calls(m: LockModel, ops: Seq<LockOp>)
    ensures
        monitor_starts(m, ops) <= 1,
        !apply_ops(m, ops).monitor_started ==> monitor_starts(m, ops) == 0,
        m.monitor_started ==> monitor_starts(m, ops) == 0 && apply_ops(m, ops).monitor_started,
        monitor_starts(m, ops) == 1 ==> apply_ops(m, ops).monitor_started,
        !m.monitor_started ==> (apply_ops(m, ops).monitor_started <==> monitor_starts(m, ops) == 1),
        (exists|i: int| 0 <= i < ops.len() && #[trigger] ops[i] is StartMonitor)
            ==> apply_ops(m, ops).monitor_started,
        (!m.monitor_started && exists|i: int| 0 <= i < ops.len() && #[trigger] ops[i] is StartMonitor)
            ==> monitor_starts(m, ops) == 1,
    decreases ops.len(),
{
    if ops.len() > 0 {
        let pre = ops.drop_last();
        law_monitor_starts_once_over_calls(m, pre);
        if exists|i: int| 0 <= i < ops.len() && #[trigger] ops[i] is StartMonitor {
            let i = choose|i: int| 0 <= i < ops.len() && #[trigger] ops[i] is StartMonitor;
            if i < ops.len() - 1 {
                assert(pre[i] is StartMonitor);
            }
        }
    }
}

/// Whether the password field hides what is typed: unless the reveal
/// button is held.
pub fn lock_password_masked_for_reveal(reveal: bool) -> (masked: bool)
    ensures
        masked == !reveal,
{
    !reveal
}

/// The error the lock screen shows after an unlock attempt: none when it
/// unlocked, `incorrect_password` (the localized text) for a wrong
/// password, and the authenticator's message when it failed.
pub fn unlock_error_message(outcome: &Result<bool, AuthError>, incorrect_password: &str) -> (r: Option<String>)
    ensures
        match outcome {
            Ok(true) => r is None,
            Ok(false) => r matches Some(m) && m@ == incorrect_password@,
            Err(e) => r matches Some(m) && m@ == e.message@,
        },
{
    match outcome {
        Ok(true) => None,
        Ok(false) => {
            let mut m = String::new();
            crate::text::push_str(&mut m, incorrect_password);
            Some(m)
        },
        Err(e) => {
            let mut m = String::new();
            crate::text::push_str(&mut m, e.message.as_str());
            Some(m)
        },
    }
}

} // verus!
