//! What saving a session writes: the row of each kind of session, the
//! column values stored for it, what happens to its password, and how a
//! stored row is read back.
use vstd::prelude::*;

use crate::ssh::opt_view;
use crate::store::{
    apply_env, backend_from_str, backend_text, backend_to_str, env_model,
    merge_terminal_fields_into_env, protocol_from_str, protocol_text, protocol_to_str,
    proxy_mode_text, serial_flow_control_from_str, serial_flow_control_to_str,
    serial_parity_from_str, serial_parity_to_str, serial_stop_bits_from_i64,
    serial_stop_bits_to_i64, ssh_auth_from_str, ssh_auth_text, ssh_auth_to_str,
    ssh_proxy_mode_from_str, ssh_proxy_mode_to_str, terminal_fields, Session, SessionEnvVar,
    SessionType, SerialFlowControl, SerialParity, SerialStopBits, SshAuthType, SshJumpHop,
    SshProxyEnvVar, SshProxyMode, TerminalBackend, UnknownValue,
};
use crate::text::push_str;

verus! {

/// The view of an optional `&str`.
pub open spec fn opt_str(o: Option<&str>) -> Option<Seq<char>> {
    match o {
        Some(s) => Some(s@),
        None => None,
    }
}

/// An optional `&str`, owned.
fn owned_opt(o: Option<&str>) -> (r: Option<String>)
    ensures
        opt_view(r) == opt_str(o),
{
    match o {
        Some(s) => Some(owned(s)),
        None => None,
    }
}

/// A string holding `t`.
fn owned(t: &str) -> (s: String)
    ensures
        s@ == t@,
{
    let mut s = String::new();
    push_str(&mut s, t);
    s
}

/// The environment stored with a session: its terminal fields, then its
/// own variables over them.
pub open spec fn stored_env(term: Seq<char>, colorterm: Option<Seq<char>>, charset: Seq<char>, env: Seq<SessionEnvVar>) -> Seq<(Seq<char>, Seq<char>)> {
    apply_env(terminal_fields(term, colorterm, charset), env)
}

/// A session as it is written to the store.
pub struct SessionWrite {
    pub protocol: SessionType,
    pub group_path: String,
    pub label: String,
    pub backend: TerminalBackend,
    pub env: Vec<SessionEnvVar>,
    pub shell_program: Option<String>,
    pub ssh_host: Option<String>,
    pub ssh_port: Option<u16>,
    pub ssh_auth_type: Option<SshAuthType>,
    pub ssh_user: Option<String>,
    pub ssh_tcp_nodelay: bool,
    pub ssh_tcp_keepalive: bool,
    pub ssh_proxy_mode: Option<SshProxyMode>,
    pub ssh_proxy_command: Option<String>,
    pub ssh_proxy_workdir: Option<String>,
    pub ssh_proxy_env: Vec<SshProxyEnvVar>,
    pub ssh_proxy_jump: Vec<SshJumpHop>,
    pub serial_port: Option<String>,
    pub serial_baud: Option<u32>,
    pub serial_data_bits: Option<u8>,
    pub serial_parity: Option<SerialParity>,
    pub serial_stop_bits: Option<SerialStopBits>,
    pub serial_flow_control: Option<SerialFlowControl>,
    pub ssh_password: Option<String>,
}

/// No SSH settings are stored.
pub open spec fn no_ssh(w: SessionWrite) -> bool {
    &&& w.ssh_host is None
    &&& w.ssh_port is None
    &&& w.ssh_auth_type is None
    &&& w.ssh_user is None
    &&& !w.ssh_tcp_nodelay
    &&& !w.ssh_tcp_keepalive
    &&& w.ssh_proxy_mode is None
    &&& w.ssh_proxy_command is None
    &&& w.ssh_proxy_workdir is None
    &&& w.ssh_proxy_env@.len() == 0
    &&& w.ssh_proxy_jump@.len() == 0
    &&& w.ssh_password is None
}

/// No serial settings are stored.
pub open spec fn no_serial(w: SessionWrite) -> bool {
    &&& w.serial_port is None
    &&& w.serial_baud is None
    &&& w.serial_data_bits is None
    &&& w.serial_parity is None
    &&& w.serial_stop_bits is None
    &&& w.serial_flow_control is None
}

impl SessionWrite {
    /// A local shell session.
    pub fn local(
        group_path: &str,
        label: &str,
        backend: TerminalBackend,
        shell_program: &str,
        term: &str,
        colorterm: Option<&str>,
        charset: &str,
        env: Vec<SessionEnvVar>,
    ) -> (w: Self)
        ensures
            w.protocol == SessionType::Local,
            w.group_path@ == group_path@,
            w.label@ == label@,
            w.backend == backend,
            env_model(w.env@) == stored_env(term@, opt_str(colorterm), charset@, env@),
            opt_view(w.shell_program) == Some(shell_program@),
            no_ssh(w),
            no_serial(w),
    {
        SessionWrite {
            protocol: SessionType::Local,
            group_path: owned(group_path),
            label: owned(label),
            backend,
            env: merge_terminal_fields_into_env(term, colorterm, charset, env),
            shell_program: Some(owned(shell_program)),
            ssh_host: None,
            ssh_port: None,
            ssh_auth_type: None,
            ssh_user: None,
            ssh_tcp_nodelay: false,
            ssh_tcp_keepalive: false,
            ssh_proxy_mode: None,
            ssh_proxy_command: None,
            ssh_proxy_workdir: None,
            ssh_proxy_env: Vec::new(),
            ssh_proxy_jump: Vec::new(),
            serial_port: None,
            serial_baud: None,
            serial_data_bits: None,
            serial_parity: None,
            serial_stop_bits: None,
            serial_flow_control: None,
            ssh_password: None,
        }
    }

    /// An SSH session that logs in with a user name and password.
    pub fn ssh_password(
        group_path: &str,
        label: &str,
        backend: TerminalBackend,
        host: &str,
        port: u16,
        user: &str,
        password: &str,
        term: &str,
        colorterm: Option<&str>,
        charset: &str,
        env: Vec<SessionEnvVar>,
        ssh_tcp_nodelay: bool,
        ssh_tcp_keepalive: bool,
        proxy_mode: SshProxyMode,
        proxy_command: Option<&str>,
        proxy_workdir: Option<&str>,
        proxy_env: Vec<SshProxyEnvVar>,
        proxy_jump: Vec<SshJumpHop>,
    ) -> (w: Self)
        ensures
            w.protocol == SessionType::Ssh,
            w.group_path@ == group_path@,
            w.label@ == label@,
            w.backend == backend,
            env_model(w.env@) == stored_env(term@, opt_str(colorterm), charset@, env@),
            w.shell_program is None,
            opt_view(w.ssh_host) == Some(host@),
            w.ssh_port == Some(port),
            w.ssh_auth_type == Some(SshAuthType::Password),
            opt_view(w.ssh_user) == Some(user@),
            w.ssh_tcp_nodelay == ssh_tcp_nodelay,
            w.ssh_tcp_keepalive == ssh_tcp_keepalive,
            w.ssh_proxy_mode == Some(proxy_mode),
            opt_view(w.ssh_proxy_command) == opt_str(proxy_command),
            opt_view(w.ssh_proxy_workdir) == opt_str(proxy_workdir),
            w.ssh_proxy_env == proxy_env,
            w.ssh_proxy_jump == proxy_jump,
            opt_view(w.ssh_password) == Some(password@),
            no_serial(w),
    {
        SessionWrite {
            protocol: SessionType::Ssh,
            group_path: owned(group_path),
            label: owned(label),
            backend,
            env: merge_terminal_fields_into_env(term, colorterm, charset, env),
            shell_program: None,
            ssh_host: Some(owned(host)),
            ssh_port: Some(port),
            ssh_auth_type: Some(SshAuthType::Password),
            ssh_user: Some(owned(user)),
            ssh_tcp_nodelay,
            ssh_tcp_keepalive,
            ssh_proxy_mode: Some(proxy_mode),
            ssh_proxy_command: owned_opt(proxy_command),
            ssh_proxy_workdir: owned_opt(proxy_workdir),
            ssh_proxy_env: proxy_env,
            ssh_proxy_jump: proxy_jump,
            serial_port: None,
            serial_baud: None,
            serial_data_bits: None,
            serial_parity: None,
            serial_stop_bits: None,
            serial_flow_control: None,
            ssh_password: Some(owned(password)),
        }
    }

    /// An SSH session that logs in as the user's SSH configuration says.
    pub fn ssh_config(
        group_path: &str,
        label: &str,
        backend: TerminalBackend,
        host: &str,
        port: u16,
        term: &str,
        colorterm: Option<&str>,
        charset: &str,
        env: Vec<SessionEnvVar>,
        ssh_tcp_nodelay: bool,
        ssh_tcp_keepalive: bool,
        proxy_mode: SshProxyMode,
        proxy_command: Option<&str>,
        proxy_workdir: Option<&str>,
        proxy_env: Vec<SshProxyEnvVar>,
        proxy_jump: Vec<SshJumpHop>,
    ) -> (w: Self)
        ensures
            w.protocol == SessionType::Ssh,
            w.group_path@ == group_path@,
            w.label@ == label@,
            w.backend == backend,
            env_model(w.env@) == stored_env(term@, opt_str(colorterm), charset@, env@),
            w.shell_program is None,
            opt_view(w.ssh_host) == Some(host@),
            w.ssh_port == Some(port),
            w.ssh_auth_type == Some(SshAuthType::Config),
            w.ssh_user is None,
            w.ssh_tcp_nodelay == ssh_tcp_nodelay,
            w.ssh_tcp_keepalive == ssh_tcp_keepalive,
            w.ssh_proxy_mode == Some(proxy_mode),
            opt_view(w.ssh_proxy_command) == opt_str(proxy_command),
            opt_view(w.ssh_proxy_workdir) == opt_str(proxy_workdir),
            w.ssh_proxy_env == proxy_env,
            w.ssh_proxy_jump == proxy_jump,
            w.ssh_password is None,
            no_serial(w),
    {
        SessionWrite {
            protocol: SessionType::Ssh,
            group_path: owned(group_path),
            label: owned(label),
            backend,
            env: merge_terminal_fields_into_env(term, colorterm, charset, env),
            shell_program: None,
            ssh_host: Some(owned(host)),
            ssh_port: Some(port),
            ssh_auth_type: Some(SshAuthType::Config),
            ssh_user: None,
            ssh_tcp_nodelay,
            ssh_tcp_keepalive,
            ssh_proxy_mode: Some(proxy_mode),
            ssh_proxy_command: owned_opt(proxy_command),
            ssh_proxy_workdir: owned_opt(proxy_workdir),
            ssh_proxy_env: proxy_env,
            ssh_proxy_jump: proxy_jump,
            serial_port: None,
            serial_baud: None,
            serial_data_bits: None,
            serial_parity: None,
            serial_stop_bits: None,
            serial_flow_control: None,
            ssh_password: None,
        }
    }

    /// A serial-line session.
    pub fn serial(
        group_path: &str,
        label: &str,
        backend: TerminalBackend,
        port: &str,
        baud: u32,
        data_bits: u8,
        parity: SerialParity,
        stop_bits: SerialStopBits,
        flow_control: SerialFlowControl,
        term: &str,
        charset: &str,
    ) -> (w: Self)
        ensures
            w.protocol == SessionType::Serial,
            w.group_path@ == group_path@,
            w.label@ == label@,
            w.backend == backend,
            env_model(w.env@) == stored_env(term@, None, charset@, seq![]),
            w.shell_program is None,
            no_ssh(w),
            opt_view(w.serial_port) == Some(port@),
            w.serial_baud == Some(baud),
            w.serial_data_bits == Some(data_bits),
            w.serial_parity == Some(parity),
            w.serial_stop_bits == Some(stop_bits),
            w.serial_flow_control == Some(flow_control),
    {
        let none: Vec<SessionEnvVar> = Vec::new();
        assert(none@ =~= Seq::<SessionEnvVar>::empty());
        let env = merge_terminal_fields_into_env(term, None, charset, none);
        SessionWrite {
            protocol: SessionType::Serial,
            group_path: owned(group_path),
            label: owned(label),
            backend,
            env,
            shell_program: None,
            ssh_host: None,
            ssh_port: None,
            ssh_auth_type: None,
            ssh_user: None,
            ssh_tcp_nodelay: false,
            ssh_tcp_keepalive: false,
            ssh_proxy_mode: None,
            ssh_proxy_command: None,
            ssh_proxy_workdir: None,
            ssh_proxy_env: Vec::new(),
            ssh_proxy_jump: Vec::new(),
            serial_port: Some(owned(port)),
            serial_baud: Some(baud),
            serial_data_bits: Some(data_bits),
            serial_parity: Some(parity),
            serial_stop_bits: Some(stop_bits),
            serial_flow_control: Some(flow_control),
            ssh_password: None,
        }
    }
}

/// What happens to the credential manager's copy of a session's password
/// after the session was written.
#[derive(Clone, Debug, PartialEq, Eq)]
pub enum PasswordAction {
    /// Nothing.
    Keep,
    /// The password is stored.
    Store(String),
    /// Any stored password is deleted.
    Delete,
}

/// The column values of a session row.  The password has no column: it is
/// kept by the credential manager only.
pub struct SessionColumns {
    pub protocol: &'static str,
    pub group_path: String,
    pub label: String,
    pub backend: &'static str,
    pub session_env: Option<Vec<SessionEnvVar>>,
    pub shell_program: Option<String>,
    pub ssh_host: Option<String>,
    pub ssh_port: Option<i64>,
    pub ssh_auth_type: Option<&'static str>,
    pub ssh_user: Option<String>,
    pub ssh_tcp_nodelay: i64,
    pub ssh_tcp_keepalive: i64,
    pub ssh_proxy_mode: Option<&'static str>,
    pub ssh_proxy_command: Option<String>,
    pub ssh_proxy_workdir: Option<String>,
    pub ssh_proxy_env: Option<Vec<SshProxyEnvVar>>,
    pub ssh_proxy_jump: Option<Vec<SshJumpHop>>,
    pub serial_port: Option<String>,
    pub serial_baud: Option<i64>,
    pub serial_data_bits: Option<i64>,
    pub serial_parity: Option<&'static str>,
    pub serial_stop_bits: Option<i64>,
    pub serial_flow_control: Option<&'static str>,
}

/// The stored form of an optional setting.
pub open spec fn opt_text<T>(o: Option<T>, f: spec_fn(T) -> Seq<char>) -> Option<Seq<char>> {
    match o {
        Some(x) => Some(f(x)),
        None => None,
    }
}

/// The view of an optional static string.
pub open spec fn opt_static(o: Option<&'static str>) -> Option<Seq<char>> {
    match o {
        Some(s) => Some(s@),
        None => None,
    }
}

impl SessionWrite {
    /// The columns to write and, on a save or an update, what to do with
    /// the password: an SSH password session stores its password; an update
    /// to any other session deletes the one stored before; a save of any
    /// other session leaves the credential manager alone.  Lists are stored
    /// only when not empty, and jump hops only for a jump-server proxy.
    pub fn into_columns(self, updating: bool) -> (r: (SessionColumns, PasswordAction))
        ensures
            r.0.protocol@ == protocol_text(self.protocol),
            r.0.group_path@ == self.group_path@,
            r.0.label@ == self.label@,
            r.0.backend@ == backend_text(self.backend),
            r.0.session_env == (if self.env@.len() == 0 {
                None
            } else {
                Some(self.env)
            }),
            opt_view(r.0.shell_program) == opt_view(self.shell_program),
            opt_view(r.0.ssh_host) == opt_view(self.ssh_host),
            r.0.ssh_port == (match self.ssh_port {
                Some(p) => Some(p as i64),
                None => None,
            }),
            opt_static(r.0.ssh_auth_type) == opt_text(self.ssh_auth_type, |a: SshAuthType| ssh_auth_text(a)),
            opt_view(r.0.ssh_user) == opt_view(self.ssh_user),
            r.0.ssh_tcp_nodelay == (if self.ssh_tcp_nodelay { 1i64 } else { 0i64 }),
            r.0.ssh_tcp_keepalive == (if self.ssh_tcp_keepalive { 1i64 } else { 0i64 }),
            opt_static(r.0.ssh_proxy_mode) == opt_text(self.ssh_proxy_mode, |m: SshProxyMode| proxy_mode_text(m)),
            opt_view(r.0.ssh_proxy_command) == opt_view(self.ssh_proxy_command),
            opt_view(r.0.ssh_proxy_workdir) == opt_view(self.ssh_proxy_workdir),
            r.0.ssh_proxy_env == (if self.ssh_proxy_env@.len() == 0 {
                None
            } else {
                Some(self.ssh_proxy_env)
            }),
            r.0.ssh_proxy_jump == (if self.ssh_proxy_mode != Some(SshProxyMode::JumpServer)
                || self.ssh_proxy_jump@.len() == 0 {
                None
            } else {
                Some(self.ssh_proxy_jump)
            }),
            opt_view(r.0.serial_port) == opt_view(self.serial_port),
            r.0.serial_baud == (match self.serial_baud {
                Some(b) => Some(b as i64),
                None => None,
            }),
            r.0.serial_data_bits == (match self.serial_data_bits {
                Some(b) => Some(b as i64),
                None => None,
            }),
            opt_static(r.0.serial_parity) == opt_text(self.serial_parity, |p: SerialParity| crate::store::parity_text(p)),
            r.0.serial_stop_bits == (match self.serial_stop_bits {
                Some(b) => Some(crate::store::stop_bits_number(b)),
                None => None,
            }),
            opt_static(r.0.serial_flow_control) == opt_text(self.serial_flow_control, |f: SerialFlowControl| crate::store::flow_text(f)),
            match self.ssh_password {
                Some(p) => r.1 matches PasswordAction::Store(q) && q@ == p@,
                None => r.1 == if updating {
                    PasswordAction::Delete
                } else {
                    PasswordAction::Keep
                },
            },
    {
        let action = match self.ssh_password {
            Some(p) => PasswordAction::Store(p),
            None => if updating {
                PasswordAction::Delete
            } else {
                PasswordAction::Keep
            },
        };
        let jump = match self.ssh_proxy_mode {
            Some(SshProxyMode::JumpServer) => self.ssh_proxy_jump.len() > 0,
            _ => false,
        };
        let env_empty = self.env.len() == 0;
        let proxy_env_empty = self.ssh_proxy_env.len() == 0;
        let cols = SessionColumns {
            protocol: protocol_to_str(&self.protocol),
            group_path: self.group_path,
            label: self.label,
            backend: backend_to_str(self.backend),
            session_env: if env_empty {
                None
            } else {
                Some(self.env)
            },
            shell_program: self.shell_program,
            ssh_host: self.ssh_host,
            ssh_port: match self.ssh_port {
                Some(p) => Some(p as i64),
                None => None,
            },
            ssh_auth_type: match self.ssh_auth_type {
                Some(a) => Some(ssh_auth_to_str(&a)),
                None => None,
            },
            ssh_user: self.ssh_user,
            ssh_tcp_nodelay: if self.ssh_tcp_nodelay {
                1
            } else {
                0
            },
            ssh_tcp_keepalive: if self.ssh_tcp_keepalive {
                1
            } else {
                0
            },
            ssh_proxy_mode: match self.ssh_proxy_mode {
                Some(m) => Some(ssh_proxy_mode_to_str(&m)),
                None => None,
            },
            ssh_proxy_command: self.ssh_proxy_command,
            ssh_proxy_workdir: self.ssh_proxy_workdir,
            ssh_proxy_env: if proxy_env_empty {
                None
            } else {
                Some(self.ssh_proxy_env)
            },
            ssh_proxy_jump: if jump {
                Some(self.ssh_proxy_jump)
            } else {
                None
            },
            serial_port: self.serial_port,
            serial_baud: match self.serial_baud {
                Some(b) => Some(b as i64),
                None => None,
            },
            serial_data_bits: match self.serial_data_bits {
                Some(b) => Some(b as i64),
                None => None,
            },
            serial_parity: match self.serial_parity {
                Some(p) => Some(serial_parity_to_str(p)),
                None => None,
            },
            serial_stop_bits: match self.serial_stop_bits {
                Some(b) => Some(serial_stop_bits_to_i64(b)),
                None => None,
            },
            serial_flow_control: match self.serial_flow_control {
                Some(f) => Some(serial_flow_control_to_str(f)),
                None => None,
            },
        };
        (cols, action)
    }
}

/// A session row as it was read, each column as stored; lists already
/// decoded (none when absent or unreadable).
pub struct StoredRow {
    pub id: i64,
    pub protocol: String,
    pub group_path: String,
    pub label: String,
    pub backend: String,
    pub session_env: Option<Vec<SessionEnvVar>>,
    pub shell_program: Option<String>,
    pub ssh_host: Option<String>,
    pub ssh_port: Option<i64>,
    pub ssh_auth_type: Option<String>,
    pub ssh_user: Option<String>,
    pub ssh_credential_username: Option<String>,
    pub ssh_tcp_nodelay: i64,
    pub ssh_tcp_keepalive: i64,
    pub ssh_proxy_mode: Option<String>,
    pub ssh_proxy_command: Option<String>,
    pub ssh_proxy_workdir: Option<String>,
    pub ssh_proxy_env: Option<Vec<SshProxyEnvVar>>,
    pub ssh_proxy_jump: Option<Vec<SshJumpHop>>,
    pub serial_port: Option<String>,
    pub serial_baud: Option<i64>,
    pub serial_data_bits: Option<i64>,
    pub serial_parity: Option<String>,
    pub serial_stop_bits: Option<i64>,
    pub serial_flow_control: Option<String>,
}

/// A stored value that names no setting, and the column it is in.
#[derive(Clone, Debug, PartialEq, Eq)]
pub enum ColumnError {
    Text { column: usize, error: UnknownValue },
    Integer { column: usize, value: i64 },
}

/// Whether the password of a session is looked up: only for password
/// logins, and only when the caller wants it.
pub fn wants_password(auth: Option<SshAuthType>, include_password: bool) -> (r: bool)
    ensures
        r == (include_password && auth == Some(SshAuthType::Password)),
{
    include_password && match auth {
        Some(SshAuthType::Password) => true,
        _ => false,
    }
}

/// Reads an optional stored setting with `parse`.
pub open spec fn text_ok<T>(o: Option<String>, texts: spec_fn(T) -> Seq<char>, parsed: Option<T>) -> bool {
    match o {
        Some(s) => parsed matches Some(x) && texts(x) == s@,
        None => parsed is None,
    }
}

/// The first column, in column order, whose stored value names no setting.
pub open spec fn first_bad_column(row: StoredRow) -> Option<usize> {
    if forall|p: SessionType| #[trigger] protocol_text(p) != row.protocol@ {
        Some(1)
    } else if forall|b: TerminalBackend| #[trigger] backend_text(b) != row.backend@ {
        Some(4)
    } else if row.ssh_auth_type matches Some(t) && forall|a: SshAuthType| #[trigger] ssh_auth_text(a) != t@ {
        Some(9)
    } else if row.ssh_proxy_mode matches Some(t) && forall|m: SshProxyMode| #[trigger] proxy_mode_text(m) != t@ {
        Some(14)
    } else if row.serial_parity matches Some(t) && forall|p: SerialParity| #[trigger] crate::store::parity_text(p) != t@ {
        Some(22)
    } else if row.serial_stop_bits matches Some(v) && v != 1 && v != 2 {
        Some(23)
    } else if row.serial_flow_control matches Some(t) && forall|f: SerialFlowControl| #[trigger] crate::store::flow_text(f) != t@ {
        Some(24)
    } else {
        None
    }
}

/// The session a stored row holds, with `password` (read from the
/// credential manager) as its password.  A column whose value names no
/// setting fails with that column, the first such in column order.
pub fn session_from_row(row: StoredRow, password: Option<String>) -> (r: Result<Session, ColumnError>)
    ensures
        match r {
            Ok(s) => {
                &&& s.id == row.id
                &&& protocol_text(s.protocol) == row.protocol@
                &&& s.group_path == row.group_path
                &&& s.label == row.label
                &&& backend_text(s.backend) == row.backend@
                &&& s.env == row.session_env
                &&& s.shell_program == row.shell_program
                &&& s.ssh_host == row.ssh_host
                &&& s.ssh_port == (match row.ssh_port {
                    Some(v) => Some(v as u16),
                    None => None,
                })
                &&& text_ok(row.ssh_auth_type, |a: SshAuthType| ssh_auth_text(a), s.ssh_auth_type)
                &&& s.ssh_user == row.ssh_user
                &&& s.ssh_credential_username == row.ssh_credential_username
                &&& s.ssh_password == password
                &&& s.ssh_tcp_nodelay == (row.ssh_tcp_nodelay != 0)
                &&& s.ssh_tcp_keepalive == (row.ssh_tcp_keepalive != 0)
                &&& text_ok(row.ssh_proxy_mode, |m: SshProxyMode| proxy_mode_text(m), s.ssh_proxy_mode)
                &&& s.ssh_proxy_command == row.ssh_proxy_command
                &&& s.ssh_proxy_workdir == row.ssh_proxy_workdir
                &&& s.ssh_proxy_env == row.ssh_proxy_env
                &&& s.ssh_proxy_jump == row.ssh_proxy_jump
                &&& s.serial_port == row.serial_port
                &&& s.serial_baud == (match row.serial_baud {
                    Some(v) => Some(v as u32),
                    None => None,
                })
                &&& s.serial_data_bits == (match row.serial_data_bits {
                    Some(v) => Some(v as u8),
                    None => None,
                })
                &&& text_ok(row.serial_parity, |p: SerialParity| crate::store::parity_text(p), s.serial_parity)
                &&& match row.serial_stop_bits {
                    Some(v) => s.serial_stop_bits matches Some(b) && crate::store::stop_bits_number(b) == v,
                    None => s.serial_stop_bits is None,
                }
                &&& text_ok(row.serial_flow_control, |f: SerialFlowControl| crate::store::flow_text(f), s.serial_flow_control)
            },
            Err(ColumnError::Text { column, .. }) => first_bad_column(row) == Some(column) && column != 23,
            Err(ColumnError::Integer { column, value }) => first_bad_column(row) == Some(column) && column == 23
                && row.serial_stop_bits == Some(value),
        },
        r is Ok <==> first_bad_column(row) is None,
{
    let protocol = match protocol_from_str(row.protocol.as_str()) {
        Ok(p) => p,
        Err(e) => return Err(ColumnError::Text { column: 1, error: e }),
    };
    let backend = match backend_from_str(row.backend.as_str()) {
        Ok(b) => b,
        Err(e) => return Err(ColumnError::Text { column: 4, error: e }),
    };
    let ssh_auth_type = match &row.ssh_auth_type {
        Some(s) => match ssh_auth_from_str(s.as_str()) {
            Ok(a) => Some(a),
            Err(e) => return Err(ColumnError::Text { column: 9, error: e }),
        },
        None => None,
    };
    let ssh_proxy_mode = match &row.ssh_proxy_mode {
        Some(s) => match ssh_proxy_mode_from_str(s.as_str()) {
            Ok(m) => Some(m),
            Err(e) => return Err(ColumnError::Text { column: 14, error: e }),
        },
        None => None,
    };
    let serial_parity = match &row.serial_parity {
        Some(s) => match serial_parity_from_str(s.as_str()) {
            Ok(p) => Some(p),
            Err(e) => return Err(ColumnError::Text { column: 22, error: e }),
        },
        None => None,
    };
    let serial_stop_bits = match row.serial_stop_bits {
        Some(v) => match serial_stop_bits_from_i64(v) {
            Ok(b) => Some(b),
            Err(_) => return Err(ColumnError::Integer { column: 23, value: v }),
        },
        None => None,
    };
    let serial_flow_control = match &row.serial_flow_control {
        Some(s) => match serial_flow_control_from_str(s.as_str()) {
            Ok(f) => Some(f),
            Err(e) => return Err(ColumnError::Text { column: 24, error: e }),
        },
        None => None,
    };
    Ok(Session {
        id: row.id,
        protocol,
        group_path: row.group_path,
        label: row.label,
        backend,
        env: row.session_env,
        shell_program: row.shell_program,
        ssh_host: row.ssh_host,
        ssh_port: match row.ssh_port {
            Some(v) => Some(#[verifier::truncate] (v as u16)),
            None => None,
        },
        ssh_auth_type,
        ssh_user: row.ssh_user,
        ssh_credential_username: row.ssh_credential_username,
        ssh_password: password,
        ssh_tcp_nodelay: row.ssh_tcp_nodelay != 0,
        ssh_tcp_keepalive: row.ssh_tcp_keepalive != 0,
        ssh_proxy_mode,
        ssh_proxy_command: row.ssh_proxy_command,
        ssh_proxy_workdir: row.ssh_proxy_workdir,
        ssh_proxy_env: row.ssh_proxy_env,
        ssh_proxy_jump: row.ssh_proxy_jump,
        serial_port: row.serial_port,
        serial_baud: match row.serial_baud {
            Some(v) => Some(#[verifier::truncate] (v as u32)),
            None => None,
        },
        serial_data_bits: match row.serial_data_bits {
            Some(v) => Some(#[verifier::truncate] (v as u8)),
            None => None,
        },
        serial_parity,
        serial_stop_bits,
        serial_flow_control,
    })
}

/// A row holding what was written reads back: every setting column that
/// holds a stored form (as the columns of a written session do) names its
/// setting again, so the row is read without error.
pub proof fn law_written_rows_read_back(row: StoredRow, p: SessionType, b: TerminalBackend)
    requires
        row.protocol@ == protocol_text(p),
        row.backend@ == backend_text(b),
        row.ssh_auth_type matches Some(t) ==> exists|a: SshAuthType| ssh_auth_text(a) == t@,
        row.ssh_proxy_mode matches Some(t) ==> exists|m: SshProxyMode| proxy_mode_text(m) == t@,
        row.serial_parity matches Some(t) ==> exists|x: SerialParity| crate::store::parity_text(x) == t@,
        row.serial_stop_bits matches Some(v) ==> exists|x: SerialStopBits| crate::store::stop_bits_number(x) == v,
        row.serial_flow_control matches Some(t) ==> exists|x: SerialFlowControl| crate::store::flow_text(x) == t@,
    ensures
        first_bad_column(row) is None,
{
    if let Some(v) = row.serial_stop_bits {
        let x = choose|x: SerialStopBits| crate::store::stop_bits_number(x) == v;
        assert(v == 1 || v == 2);
    }
}

} // verus!
