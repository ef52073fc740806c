//! Saved sessions: their types, the text forms their settings are stored
//! under, and the terminal environment kept with each session.
use vstd::prelude::*;

use crate::text::{chars_of, push_str, str_eq, trim, trim_string};

verus! {

/// What a session connects to.
#[derive(Clone, Copy, Debug, PartialEq, Eq, Structural)]
pub enum SessionType {
    Local,
    Ssh,
    Serial,
}

/// How an SSH session authenticates.
#[derive(Clone, Copy, Debug, PartialEq, Eq, Structural)]
pub enum SshAuthType {
    Password,
    Config,
}

/// Parity of a serial line.
#[derive(Clone, Copy, Debug, PartialEq, Eq, Structural)]
pub enum SerialParity {
    /// No parity bit (`None` in the settings UI).
    NoParity,
    Even,
    Odd,
}

/// Stop bits of a serial line.
#[derive(Clone, Copy, Debug, PartialEq, Eq, Structural)]
pub enum SerialStopBits {
    One,
    Two,
}

/// Flow control of a serial line.
#[derive(Clone, Copy, Debug, PartialEq, Eq, Structural)]
pub enum SerialFlowControl {
    /// No flow control (`None` in the settings UI).
    NoFlowControl,
    Software,
    Hardware,
}

/// How an SSH session reaches its host.
#[derive(Clone, Copy, Debug, PartialEq, Eq, Structural)]
pub enum SshProxyMode {
    Inherit,
    Disabled,
    Command,
    JumpServer,
}

/// The terminal emulator backend of a session.
#[derive(Clone, Copy, Debug, PartialEq, Eq, Structural)]
pub enum TerminalBackend {
    Alacritty,
    Wezterm,
}

/// An environment variable of an SSH proxy command.
#[derive(Clone, Debug, PartialEq, Eq)]
pub struct SshProxyEnvVar {
    pub name: String,
    pub value: String,
}

/// One hop of an SSH jump chain.
#[derive(Clone, Debug, PartialEq, Eq)]
pub struct SshJumpHop {
    pub host: String,
    pub user: Option<String>,
    pub port: Option<u16>,
}

/// An environment variable of a session's terminal.
#[derive(Clone, Debug, PartialEq, Eq)]
pub struct SessionEnvVar {
    pub name: String,
    pub value: String,
}

/// A saved session.
#[derive(Clone, Debug, PartialEq, Eq)]
pub struct Session {
    pub id: i64,
    pub protocol: SessionType,
    pub group_path: String,
    pub label: String,
    pub backend: TerminalBackend,
    pub env: Option<Vec<SessionEnvVar>>,
    pub shell_program: Option<String>,
    pub ssh_host: Option<String>,
    pub ssh_port: Option<u16>,
    pub ssh_auth_type: Option<SshAuthType>,
    pub ssh_user: Option<String>,
    pub ssh_credential_username: Option<String>,
    pub ssh_password: Option<String>,
    pub ssh_tcp_nodelay: bool,
    pub ssh_tcp_keepalive: bool,
    pub ssh_proxy_mode: Option<SshProxyMode>,
    pub ssh_proxy_command: Option<String>,
    pub ssh_proxy_workdir: Option<String>,
    pub ssh_proxy_env: Option<Vec<SshProxyEnvVar>>,
    pub ssh_proxy_jump: Option<Vec<SshJumpHop>>,
    pub serial_port: Option<String>,
    pub serial_baud: Option<u32>,
    pub serial_data_bits: Option<u8>,
    pub serial_parity: Option<SerialParity>,
    pub serial_stop_bits: Option<SerialStopBits>,
    pub serial_flow_control: Option<SerialFlowControl>,
}

// ---------------------------------------------------------------------------
// The session environment
// ---------------------------------------------------------------------------

/// The environment as (name, value) pairs.
pub open spec fn env_model(vars: Seq<SessionEnvVar>) -> Seq<(Seq<char>, Seq<char>)> {
    vars.map_values(|v: SessionEnvVar| (v.name@, v.value@))
}

/// The index of the first pair at or after `i` named `name`.
pub open spec fn find_name(m: Seq<(Seq<char>, Seq<char>)>, name: Seq<char>, i: int) -> Option<int>
    decreases m.len() - i,
{
    if i < 0 || i >= m.len() {
        None
    } else if m[i].0 == name {
        Some(i)
    } else {
        find_name(m, name, i + 1)
    }
}

/// The value of the first pair named `name`.
pub open spec fn env_lookup(m: Seq<(Seq<char>, Seq<char>)>, name: Seq<char>) -> Option<Seq<char>> {
    match find_name(m, name, 0) {
        Some(i) => Some(m[i].1),
        None => None,
    }
}

/// Sets `name` to `value`: the first pair with that name is updated, or a
/// pair is appended.
pub open spec fn upsert_spec(m: Seq<(Seq<char>, Seq<char>)>, name: Seq<char>, value: Seq<char>) -> Seq<
    (Seq<char>, Seq<char>),
> {
    match find_name(m, name, 0) {
        Some(i) => m.update(i, (name, value)),
        None => m.push((name, value)),
    }
}

/// No two pairs share a name.
pub open spec fn names_unique(m: Seq<(Seq<char>, Seq<char>)>) -> bool {
    forall|i: int, j: int| 0 <= i < j < m.len() ==> m[i].0 != m[j].0
}

/// The explicit variables `env` applied on top of `base`; blank names are
/// skipped and names are trimmed.
pub open spec fn apply_env(base: Seq<(Seq<char>, Seq<char>)>, env: Seq<SessionEnvVar>) -> Seq<
    (Seq<char>, Seq<char>),
>
    decreases env.len(),
{
    if env.len() == 0 {
        base
    } else {
        let m = apply_env(base, env.drop_last());
        let v = env.last();
        if trim(v.name@).len() == 0 {
            m
        } else {
            upsert_spec(m, trim(v.name@), v.value@)
        }
    }
}

/// The terminal fields (`TERM`, a non-blank `COLORTERM`, `CHARSET`) as
/// environment pairs.
pub open spec fn terminal_fields(term: Seq<char>, colorterm: Option<Seq<char>>, charset: Seq<char>) -> Seq<
    (Seq<char>, Seq<char>),
> {
    let m0 = upsert_spec(seq![], "TERM"@, term);
    let m1 = match colorterm {
        Some(c) => if trim(c).len() > 0 {
            upsert_spec(m0, "COLORTERM"@, c)
        } else {
            m0
        },
        None => m0,
    };
    upsert_spec(m1, "CHARSET"@, charset)
}

proof fn lemma_find_name_bounds(m: Seq<(Seq<char>, Seq<char>)>, name: Seq<char>, i: int)
    requires
        0 <= i,
    ensures
        match find_name(m, name, i) {
            Some(j) => i <= j < m.len() && m[j].0 == name && forall|k: int|
                i <= k < j ==> m[k].0 != name,
            None => forall|k: int| i <= k < m.len() ==> m[k].0 != name,
        },
    decreases m.len() - i,
{
    if i < 0 || i >= m.len() {
    } else if m[i].0 == name {
    } else {
        lemma_find_name_bounds(m, name, i + 1);
    }
}

proof fn lemma_find_name_char(m: Seq<(Seq<char>, Seq<char>)>, name: Seq<char>, i: int)
    requires
        0 <= i,
    ensures
        (exists|j: int| i <= j < m.len() && m[j].0 == name) ==> {
            let j = choose|j: int| i <= j < m.len() && m[j].0 == name && forall|k: int|
                i <= k < j ==> m[k].0 != name;
            find_name(m, name, i) is Some
        },
        (forall|k: int| i <= k < m.len() ==> m[k].0 != name) ==> find_name(m, name, i) is None,
        forall|j: int|
            i <= j < m.len() && m[j].0 == name && (forall|k: int| i <= k < j ==> m[k].0 != name)
                ==> find_name(m, name, i) == Some(j),
    decreases m.len() - i,
{
    if i < m.len() {
        lemma_find_name_char(m, name, i + 1);
    }
}

/// Reading a name right after setting it gives the value set, and setting
/// keeps names unique.
pub proof fn law_env_read_after_write(m: Seq<(Seq<char>, Seq<char>)>, name: Seq<char>, value: Seq<char>, other: Seq<char>)
    requires
        names_unique(m),
        other != name,
    ensures
        env_lookup(upsert_spec(m, name, value), name) == Some(value),
        env_lookup(upsert_spec(m, name, value), other) == env_lookup(m, other),
        names_unique(upsert_spec(m, name, value)),
{
    let u = upsert_spec(m, name, value);
    lemma_find_name_bounds(m, name, 0);
    lemma_find_name_bounds(u, name, 0);
    lemma_find_name_bounds(m, other, 0);
    lemma_find_name_bounds(u, other, 0);
    match find_name(m, name, 0) {
        Some(i) => {
            assert(u[i].0 == name);
        },
        None => {
            assert(u[m.len() as int].0 == name);
        },
    }
    lemma_find_name_char(m, other, 0);
    lemma_find_name_char(u, other, 0);
    match find_name(u, other, 0) {
        Some(j) => {
            assert(u[j].0 == other);
            assert(m[j].0 == other);
            assert forall|k: int| 0 <= k < j implies m[k].0 != other by {
                assert(u[k].0 != other);
            }
        },
        None => {
            assert forall|k: int| 0 <= k < m.len() implies m[k].0 != other by {
                assert(u[k].0 != other);
            }
        },
    }
}

/// Sets `name` to `value` in `env`, updating the first variable with that
/// name or appending one.
pub fn upsert_session_env_var(env: &mut Vec<SessionEnvVar>, name: &str, value: String)
    ensures
        env_model(final(env)@) == upsert_spec(env_model(old(env)@), name@, value@),
{
    let ghost m = env_model(env@);
    let mut i: usize = 0;
    while i < env.len()
        invariant
            0 <= i <= env@.len(),
            m == env_model(env@),
            m == env_model(old(env)@),
            find_name(m, name@, 0) == find_name(m, name@, i as int),
        decreases env@.len() - i,
    {
        if str_eq(env[i].name.as_str(), name) {
            assert(m[i as int].0 == name@);
            assert(find_name(m, name@, i as int) == Some(i as int));
            let mut owned = String::new();
            push_str(&mut owned, name);
            env.set(i, SessionEnvVar { name: owned, value });
            assert(env_model(env@) =~= m.update(i as int, (name@, value@)));
            return;
        }
        i += 1;
    }
    let mut owned = String::new();
    push_str(&mut owned, name);
    env.push(SessionEnvVar { name: owned, value });
    assert(env_model(env@) =~= m.push((name@, value@)));
}

/// The value of the first variable named `name`.
pub fn session_env_value<'a>(env: Option<&'a [SessionEnvVar]>, name: &str) -> (r: Option<&'a str>)
    ensures
        match env {
            None => r is None,
            Some(vars) => match r {
                Some(v) => env_lookup(env_model(vars@), name@) == Some(v@),
                None => env_lookup(env_model(vars@), name@) is None,
            },
        },
{
    match env {
        None => None,
        Some(vars) => {
            let ghost m = env_model(vars@);
            let mut i: usize = 0;
            while i < vars.len()
                invariant
                    0 <= i <= vars@.len(),
                    m == env_model(vars@),
                    env == Some(vars),
                    find_name(m, name@, 0) == find_name(m, name@, i as int),
                decreases vars@.len() - i,
            {
                if str_eq(vars[i].name.as_str(), name) {
                    assert(m[i as int].0 == name@);
                    assert(find_name(m, name@, i as int) == Some(i as int));
                    return Some(vars[i].value.as_str());
                }
                i += 1;
            }
            None
        },
    }
}

/// The session environment: the terminal fields, then the explicit
/// variables on top (blank names skipped, names trimmed).
pub fn merge_terminal_fields_into_env(
    term: &str,
    colorterm: Option<&str>,
    charset: &str,
    env: Vec<SessionEnvVar>,
) -> (merged: Vec<SessionEnvVar>)
    ensures
        env_model(merged@) == apply_env(
            terminal_fields(
                term@,
                match colorterm {
                    Some(c) => Some(c@),
                    None => None,
                },
                charset@,
            ),
            env@,
        ),
{
    let mut merged: Vec<SessionEnvVar> = Vec::new();
    assert(env_model(merged@) =~= Seq::<(Seq<char>, Seq<char>)>::empty());
    let mut t = String::new();
    push_str(&mut t, term);
    upsert_session_env_var(&mut merged, "TERM", t);
    let ghost m0 = env_model(merged@);
    assert(m0 == upsert_spec(seq![], "TERM"@, term@));
    match colorterm {
        Some(c) => {
            let ct = trim_string(c);
            if !ct.as_str().is_empty() {
                let mut cv = String::new();
                push_str(&mut cv, c);
                upsert_session_env_var(&mut merged, "COLORTERM", cv);
            }
        },
        None => {},
    }
    let mut cs = String::new();
    push_str(&mut cs, charset);
    upsert_session_env_var(&mut merged, "CHARSET", cs);
    let ghost base = env_model(merged@);
    assert(base == terminal_fields(
        term@,
        match colorterm {
            Some(c) => Some(c@),
            None => None,
        },
        charset@,
    ));
    let mut i: usize = 0;
    while i < env.len()
        invariant
            0 <= i <= env@.len(),
            env_model(merged@) == apply_env(base, env@.subrange(0, i as int)),
        decreases env@.len() - i,
    {
        assert(env@.subrange(0, i + 1).drop_last() =~= env@.subrange(0, i as int));
        let name = trim_string(env[i].name.as_str());
        if !name.as_str().is_empty() {
            let value = env[i].value.clone();
            upsert_session_env_var(&mut merged, name.as_str(), value);
        }
        i += 1;
    }
    assert(env@.subrange(0, env@.len() as int) =~= env@);
    merged
}

impl Session {
    /// The environment pairs of the session, if it has an environment.
    pub open spec fn env_pairs(&self) -> Option<Seq<(Seq<char>, Seq<char>)>> {
        match self.env {
            Some(vars) => Some(env_model(vars@)),
            None => None,
        }
    }

    /// The value of `name` in the session environment.
    pub open spec fn env_get(&self, name: Seq<char>) -> Option<Seq<char>> {
        match self.env_pairs() {
            Some(m) => env_lookup(m, name),
            None => None,
        }
    }

    /// The terminal type: `TERM` of the session environment, by default
    /// `xterm-256color`.
    pub fn term(&self) -> (t: &str)
        ensures
            t@ == match self.env_get("TERM"@) {
                Some(v) => v,
                None => "xterm-256color"@,
            },
    {
        let env = match &self.env {
            Some(v) => Some(v.as_slice()),
            None => None,
        };
        match session_env_value(env, "TERM") {
            Some(v) => v,
            None => "xterm-256color",
        }
    }

    /// `COLORTERM` of the session environment.
    pub fn colorterm(&self) -> (c: Option<&str>)
        ensures
            match c {
                Some(v) => self.env_get("COLORTERM"@) == Some(v@),
                None => self.env_get("COLORTERM"@) is None,
            },
    {
        let env = match &self.env {
            Some(v) => Some(v.as_slice()),
            None => None,
        };
        session_env_value(env, "COLORTERM")
    }

    /// The character set: `CHARSET` of the session environment, by default
    /// `UTF-8`.
    pub fn charset(&self) -> (c: &str)
        ensures
            c@ == match self.env_get("CHARSET"@) {
                Some(v) => v,
                None => "UTF-8"@,
            },
    {
        let env = match &self.env {
            Some(v) => Some(v.as_slice()),
            None => None,
        };
        match session_env_value(env, "CHARSET") {
            Some(v) => v,
            None => "UTF-8",
        }
    }
}

// ---------------------------------------------------------------------------
// Stored text forms
// ---------------------------------------------------------------------------

/// A stored value that names no known setting.
#[derive(Clone, Debug, PartialEq, Eq)]
pub struct UnknownValue {
    /// The column the value was read from.
    pub field: String,
    /// The value as stored.
    pub value: String,
}

fn unknown<T>(field: &str, value: &str) -> (r: Result<T, UnknownValue>)
    ensures
        r matches Err(e) && e.field@ == field@ && e.value@ == value@,
{
    let mut f = String::new();
    push_str(&mut f, field);
    let mut v = String::new();
    push_str(&mut v, value);
    Err(UnknownValue { field: f, value: v })
}

/// The stored form of a backend.
pub open spec fn backend_text(b: TerminalBackend) -> Seq<char> {
    match b {
        TerminalBackend::Alacritty => "alacritty"@,
        TerminalBackend::Wezterm => "wezterm"@,
    }
}

/// The stored form of a session type.
pub open spec fn protocol_text(p: SessionType) -> Seq<char> {
    match p {
        SessionType::Local => "local"@,
        SessionType::Ssh => "ssh"@,
        SessionType::Serial => "serial"@,
    }
}

/// The stored form of a parity.
pub open spec fn parity_text(p: SerialParity) -> Seq<char> {
    match p {
        SerialParity::NoParity => "none"@,
        SerialParity::Even => "even"@,
        SerialParity::Odd => "odd"@,
    }
}

/// The stored form of a flow control.
pub open spec fn flow_text(f: SerialFlowControl) -> Seq<char> {
    match f {
        SerialFlowControl::NoFlowControl => "none"@,
        SerialFlowControl::Software => "xonxoff"@,
        SerialFlowControl::Hardware => "rtscts"@,
    }
}

/// The stored number of stop bits.
pub open spec fn stop_bits_number(b: SerialStopBits) -> i64 {
    match b {
        SerialStopBits::One => 1,
        SerialStopBits::Two => 2,
    }
}

/// The stored form of an SSH authentication type.
pub open spec fn ssh_auth_text(a: SshAuthType) -> Seq<char> {
    match a {
        SshAuthType::Password => "password"@,
        SshAuthType::Config => "config"@,
    }
}

/// The stored form of a proxy mode.
pub open spec fn proxy_mode_text(m: SshProxyMode) -> Seq<char> {
    match m {
        SshProxyMode::Inherit => "inherit"@,
        SshProxyMode::Disabled => "disabled"@,
        SshProxyMode::Command => "command"@,
        SshProxyMode::JumpServer => "jumpserver"@,
    }
}

/// The stored form of a backend.
pub fn backend_to_str(backend: TerminalBackend) -> (s: &'static str)
    ensures
        s@ == backend_text(backend),
{
    match backend {
        TerminalBackend::Alacritty => "alacritty",
        TerminalBackend::Wezterm => "wezterm",
    }
}

/// The backend stored as `s`.
pub fn backend_from_str(s: &str) -> (r: Result<TerminalBackend, UnknownValue>)
    ensures
        match r {
            Ok(b) => backend_text(b) == s@,
            Err(_) => forall|b: TerminalBackend| backend_text(b) != s@,
        },
{
    if str_eq(s, "alacritty") {
        Ok(TerminalBackend::Alacritty)
    } else if str_eq(s, "wezterm") {
        Ok(TerminalBackend::Wezterm)
    } else {
        proof {
            assert forall|b: TerminalBackend| backend_text(b) != s@ by {
                match b {
                    TerminalBackend::Alacritty => {},
                    TerminalBackend::Wezterm => {},
                }
            }
        }
        unknown("backend", s)
    }
}

/// The stored form of a session type.
pub fn protocol_to_str(protocol: &SessionType) -> (s: &'static str)
    ensures
        s@ == protocol_text(*protocol),
{
    match protocol {
        SessionType::Local => "local",
        SessionType::Ssh => "ssh",
        SessionType::Serial => "serial",
    }
}

/// The session type stored as `s`.
pub fn protocol_from_str(s: &str) -> (r: Result<SessionType, UnknownValue>)
    ensures
        match r {
            Ok(p) => protocol_text(p) == s@,
            Err(_) => forall|p: SessionType| protocol_text(p) != s@,
        },
{
    if str_eq(s, "local") {
        Ok(SessionType::Local)
    } else if str_eq(s, "ssh") {
        Ok(SessionType::Ssh)
    } else if str_eq(s, "serial") {
        Ok(SessionType::Serial)
    } else {
        proof {
            assert forall|p: SessionType| protocol_text(p) != s@ by {
                match p {
                    SessionType::Local => {},
                    SessionType::Ssh => {},
                    SessionType::Serial => {},
                }
            }
        }
        unknown("protocol", s)
    }
}

/// The stored form of a parity.
pub fn serial_parity_to_str(parity: SerialParity) -> (s: &'static str)
    ensures
        s@ == parity_text(parity),
{
    match parity {
        SerialParity::NoParity => "none",
        SerialParity::Even => "even",
        SerialParity::Odd => "odd",
    }
}

/// The parity stored as `s`.
pub fn serial_parity_from_str(s: &str) -> (r: Result<SerialParity, UnknownValue>)
    ensures
        match r {
            Ok(p) => parity_text(p) == s@,
            Err(_) => forall|p: SerialParity| parity_text(p) != s@,
        },
{
    if str_eq(s, "none") {
        Ok(SerialParity::NoParity)
    } else if str_eq(s, "even") {
        Ok(SerialParity::Even)
    } else if str_eq(s, "odd") {
        Ok(SerialParity::Odd)
    } else {
        proof {
            assert forall|p: SerialParity| parity_text(p) != s@ by {
                match p {
                    SerialParity::NoParity => {},
                    SerialParity::Even => {},
                    SerialParity::Odd => {},
                }
            }
        }
        unknown("serial_parity", s)
    }
}

/// The stored form of a flow control.
pub fn serial_flow_control_to_str(flow: SerialFlowControl) -> (s: &'static str)
    ensures
        s@ == flow_text(flow),
{
    match flow {
        SerialFlowControl::NoFlowControl => "none",
        SerialFlowControl::Software => "xonxoff",
        SerialFlowControl::Hardware => "rtscts",
    }
}

/// The flow control stored as `s`.
pub fn serial_flow_control_from_str(s: &str) -> (r: Result<SerialFlowControl, UnknownValue>)
    ensures
        match r {
            Ok(f) => flow_text(f) == s@,
            Err(_) => forall|f: SerialFlowControl| flow_text(f) != s@,
        },
{
    if str_eq(s, "none") {
        Ok(SerialFlowControl::NoFlowControl)
    } else if str_eq(s, "xonxoff") {
        Ok(SerialFlowControl::Software)
    } else if str_eq(s, "rtscts") {
        Ok(SerialFlowControl::Hardware)
    } else {
        proof {
            assert forall|f: SerialFlowControl| flow_text(f) != s@ by {
                match f {
                    SerialFlowControl::NoFlowControl => {},
                    SerialFlowControl::Software => {},
                    SerialFlowControl::Hardware => {},
                }
            }
        }
        unknown("serial_flow_control", s)
    }
}

/// The stored number of stop bits.
pub fn serial_stop_bits_to_i64(bits: SerialStopBits) -> (n: i64)
    ensures
        n == stop_bits_number(bits),
{
    match bits {
        SerialStopBits::One => 1,
        SerialStopBits::Two => 2,
    }
}

/// The stop bits stored as `bits`.
pub fn serial_stop_bits_from_i64(bits: i64) -> (r: Result<SerialStopBits, i64>)
    ensures
        match r {
            Ok(b) => stop_bits_number(b) == bits,
            Err(v) => v == bits && bits != 1 && bits != 2,
        },
{
    if bits == 1 {
        Ok(SerialStopBits::One)
    } else if bits == 2 {
        Ok(SerialStopBits::Two)
    } else {
        Err(bits)
    }
}

/// The stored form of an SSH authentication type.
pub fn ssh_auth_to_str(auth: &SshAuthType) -> (s: &'static str)
    ensures
        s@ == ssh_auth_text(*auth),
{
    match auth {
        SshAuthType::Password => "password",
        SshAuthType::Config => "config",
    }
}

/// The SSH authentication type stored as `s`.
pub fn ssh_auth_from_str(s: &str) -> (r: Result<SshAuthType, UnknownValue>)
    ensures
        match r {
            Ok(a) => ssh_auth_text(a) == s@,
            Err(_) => forall|a: SshAuthType| ssh_auth_text(a) != s@,
        },
{
    if str_eq(s, "password") {
        Ok(SshAuthType::Password)
    } else if str_eq(s, "config") {
        Ok(SshAuthType::Config)
    } else {
        proof {
            assert forall|a: SshAuthType| ssh_auth_text(a) != s@ by {
                match a {
                    SshAuthType::Password => {},
                    SshAuthType::Config => {},
                }
            }
        }
        unknown("ssh_auth_type", s)
    }
}

/// The stored form of a proxy mode.
pub fn ssh_proxy_mode_to_str(mode: &SshProxyMode) -> (s: &'static str)
    ensures
        s@ == proxy_mode_text(*mode),
{
    match mode {
        SshProxyMode::Inherit => "inherit",
        SshProxyMode::Disabled => "disabled",
        SshProxyMode::Command => "command",
        SshProxyMode::JumpServer => "jumpserver",
    }
}

/// The proxy mode stored as `s`.
pub fn ssh_proxy_mode_from_str(s: &str) -> (r: Result<SshProxyMode, UnknownValue>)
    ensures
        match r {
            Ok(m) => proxy_mode_text(m) == s@,
            Err(_) => forall|m: SshProxyMode| proxy_mode_text(m) != s@,
        },
{
    if str_eq(s, "inherit") {
        Ok(SshProxyMode::Inherit)
    } else if str_eq(s, "disabled") {
        Ok(SshProxyMode::Disabled)
    } else if str_eq(s, "command") {
        Ok(SshProxyMode::Command)
    } else if str_eq(s, "jumpserver") {
        Ok(SshProxyMode::JumpServer)
    } else {
        proof {
            assert forall|m: SshProxyMode| proxy_mode_text(m) != s@ by {
                match m {
                    SshProxyMode::Inherit => {},
                    SshProxyMode::Disabled => {},
                    SshProxyMode::Command => {},
                    SshProxyMode::JumpServer => {},
                }
            }
        }
        unknown("ssh_proxy_mode", s)
    }
}

/// Each stored text form names one setting: distinct settings are stored
/// differently, so reading back what was stored gives the same setting.
pub proof fn law_stored_forms_are_distinct()
    ensures
        forall|a: TerminalBackend, b: TerminalBackend| backend_text(a) == backend_text(b) ==> a == b,
        forall|a: SessionType, b: SessionType| protocol_text(a) == protocol_text(b) ==> a == b,
        forall|a: SerialParity, b: SerialParity| parity_text(a) == parity_text(b) ==> a == b,
        forall|a: SerialFlowControl, b: SerialFlowControl|
            flow_text(a) == flow_text(b) ==> a == b,
        forall|a: SerialStopBits, b: SerialStopBits|
            stop_bits_number(a) == stop_bits_number(b) ==> a == b,
        forall|a: SshAuthType, b: SshAuthType| ssh_auth_text(a) == ssh_auth_text(b) ==> a == b,
        forall|a: SshProxyMode, b: SshProxyMode|
            proxy_mode_text(a) == proxy_mode_text(b) ==> a == b,
{
    reveal_strlit("alacritty");
    reveal_strlit("wezterm");
    reveal_strlit("local");
    reveal_strlit("ssh");
    reveal_strlit("serial");
    reveal_strlit("none");
    reveal_strlit("even");
    reveal_strlit("odd");
    reveal_strlit("xonxoff");
    reveal_strlit("rtscts");
    reveal_strlit("password");
    reveal_strlit("config");
    reveal_strlit("inherit");
    reveal_strlit("disabled");
    reveal_strlit("command");
    reveal_strlit("jumpserver");
    assert forall|a: TerminalBackend, b: TerminalBackend|
        backend_text(a) == backend_text(b) implies a == b by {
        if a != b {
            assert(backend_text(a).len() != backend_text(b).len() || backend_text(a)[0]
                != backend_text(b)[0]);
        }
    }
    assert forall|a: SessionType, b: SessionType| protocol_text(a) == protocol_text(b) implies a
        == b by {
        if a != b {
            assert(protocol_text(a).len() != protocol_text(b).len() || protocol_text(a)[0]
                != protocol_text(b)[0]);
        }
    }
    assert forall|a: SerialParity, b: SerialParity| parity_text(a) == parity_text(b) implies a
        == b by {
        if a != b {
            assert(parity_text(a).len() != parity_text(b).len() || parity_text(a)[0]
                != parity_text(b)[0]);
        }
    }
    assert forall|a: SerialFlowControl, b: SerialFlowControl|
        flow_text(a) == flow_text(b) implies a == b by {
        if a != b {
            assert(flow_text(a).len() != flow_text(b).len() || flow_text(a)[0] != flow_text(
                b,
            )[0]);
        }
    }
    assert forall|a: SshAuthType, b: SshAuthType| ssh_auth_text(a) == ssh_auth_text(b) implies a
        == b by {
        if a != b {
            assert(ssh_auth_text(a).len() != ssh_auth_text(b).len());
        }
    }
    assert forall|a: SshProxyMode, b: SshProxyMode|
        proxy_mode_text(a) == proxy_mode_text(b) implies a == b by {
        if a != b {
            assert(proxy_mode_text(a).len() != proxy_mode_text(b).len() || proxy_mode_text(a)[0]
                != proxy_mode_text(b)[0]);
        }
    }
}

} // verus!
