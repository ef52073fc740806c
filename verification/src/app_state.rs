//! Application-wide state: the layout flags and the queue of commands
//! waiting for a window to carry them out.
use vstd::prelude::*;

use crate::ssh::SshTarget;
use crate::store::{
    SerialFlowControl, SerialParity, SerialStopBits, SessionEnvVar, TerminalBackend,
};

verus! {

/// The settings of a serial connection.
#[derive(Clone, Debug, PartialEq, Eq)]
pub struct SerialParams {
    pub name: String,
    pub port: String,
    pub baud: u32,
    pub data_bits: u8,
    pub parity: SerialParity,
    pub stop_bits: SerialStopBits,
    pub flow_control: SerialFlowControl,
}

/// Something the application was asked to do.
#[derive(Clone, Debug, PartialEq, Eq)]
pub enum PendingCommand {
    OpenLocalTerminal { backend_type: TerminalBackend, env: Vec<SessionEnvVar> },
    OpenSshTerminal {
        backend_type: TerminalBackend,
        env: Vec<SessionEnvVar>,
        name: String,
        opts: SshTarget,
    },
    OpenSerialTerminal { backend_type: TerminalBackend, params: SerialParams, session_id: Option<i64> },
    ReloadSessionsSidebar,
    OpenCastPicker,
    OpenJoinSharingDialog,
    JoinRelaySharing { relay_url: String, room_id: String, join_key: String },
}

/// Whether a command of this kind is pointless to queue twice.
pub open spec fn singleton(c: PendingCommand) -> bool {
    c is ReloadSessionsSidebar || c is OpenCastPicker || c is OpenJoinSharingDialog
}

/// Two commands that a single run serves: the same singleton command.
pub open spec fn coalesce(a: PendingCommand, b: PendingCommand) -> bool {
    ||| (a is ReloadSessionsSidebar && b is ReloadSessionsSidebar)
    ||| (a is OpenCastPicker && b is OpenCastPicker)
    ||| (a is OpenJoinSharingDialog && b is OpenJoinSharingDialog)
}

impl PendingCommand {
    /// Whether running `self` also serves `other`.
    pub fn coalesces_with(&self, other: &Self) -> (r: bool)
        ensures
            r == coalesce(*self, *other),
    {
        match (self, other) {
            (PendingCommand::ReloadSessionsSidebar, PendingCommand::ReloadSessionsSidebar) => true,
            (PendingCommand::OpenCastPicker, PendingCommand::OpenCastPicker) => true,
            (PendingCommand::OpenJoinSharingDialog, PendingCommand::OpenJoinSharingDialog) => true,
            _ => false,
        }
    }
}

/// The width the sessions sidebar opens with, in logical pixels.
pub const DEFAULT_SESSIONS_SIDEBAR_WIDTH: u32 = 280;

/// Application-wide state.
pub struct TermuaAppState {
    pub multi_exec_enabled: bool,
    pub sessions_sidebar_visible: bool,
    pub sessions_sidebar_width: u32,
    pub pending_commands: Vec<PendingCommand>,
}

/// The queue after `c` was asked for: unchanged when a queued command
/// already serves it, else `c` at the end.
pub open spec fn enqueue(q: Seq<PendingCommand>, c: PendingCommand) -> Seq<PendingCommand> {
    if exists|i: int| 0 <= i < q.len() && coalesce(#[trigger] q[i], c) {
        q
    } else {
        q.push(c)
    }
}

/// No singleton command is queued twice.
pub open spec fn no_duplicate_singletons(q: Seq<PendingCommand>) -> bool {
    forall|i: int, j: int| 0 <= i < j < q.len() ==> !coalesce(#[trigger] q[i], #[trigger] q[j])
}

impl Default for TermuaAppState {
    /// Multi-exec off, the sessions sidebar open at its default width, and
    /// nothing queued.
    fn default() -> (s: Self)
        ensures
            !s.multi_exec_enabled,
            s.sessions_sidebar_visible,
            s.sessions_sidebar_width == DEFAULT_SESSIONS_SIDEBAR_WIDTH,
            s.pending_commands@.len() == 0,
    {
        TermuaAppState {
            multi_exec_enabled: false,
            sessions_sidebar_visible: true,
            sessions_sidebar_width: DEFAULT_SESSIONS_SIDEBAR_WIDTH,
            pending_commands: Vec::new(),
        }
    }
}

impl TermuaAppState {
    /// Queues `command`, unless a queued command already serves it.
    pub fn pending_command(&mut self, command: PendingCommand)
        ensures
            final(self).pending_commands@ == enqueue(old(self).pending_commands@, command),
            final(self).multi_exec_enabled == old(self).multi_exec_enabled,
            final(self).sessions_sidebar_visible == old(self).sessions_sidebar_visible,
            final(self).sessions_sidebar_width == old(self).sessions_sidebar_width,
    {
        let mut i: usize = 0;
        while i < self.pending_commands.len()
            invariant
                0 <= i <= self.pending_commands@.len(),
                self.pending_commands@ == old(self).pending_commands@,
                forall|k: int| 0 <= k < i ==> !coalesce(#[trigger] self.pending_commands@[k], command),
            decreases self.pending_commands@.len() - i,
        {
            if self.pending_commands[i].coalesces_with(&command) {
                return;
            }
            i += 1;
        }
        self.pending_commands.push(command);
    }
}

/// Queueing keeps singleton commands unique in the queue.
pub proof fn law_enqueue_keeps_singletons_unique(q: Seq<PendingCommand>, c: PendingCommand)
    requires
        no_duplicate_singletons(q),
    ensures
        no_duplicate_singletons(enqueue(q, c)),
{
    let r = enqueue(q, c);
    if !(exists|i: int| 0 <= i < q.len() && coalesce(#[trigger] q[i], c)) {
        assert forall|i: int, j: int| 0 <= i < j < r.len() implies !coalesce(
            #[trigger] r[i],
            #[trigger] r[j],
        ) by {
            if j == q.len() {
                assert(r[i] == q[i]);
                assert(r[j] == c);
            } else {
                assert(r[i] == q[i] && r[j] == q[j]);
            }
        }
    }
}

/// A command that no queued command serves is always queued, so commands
/// that open terminals are never dropped.
pub proof fn law_repeatable_commands_are_queued(q: Seq<PendingCommand>, c: PendingCommand)
    requires
        !singleton(c),
    ensures
        enqueue(q, c) == q.push(c),
{
}

} // verus!
