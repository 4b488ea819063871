use vstd::prelude::*;

use crate::keyed::KeyedList;
use crate::text::{chars_of, concat, copy_chars, decimal, decimal_string, owned, string_of, trim, trim_chars};
use crate::keyed::KeyedList as PendingList;

verus! {

/// Why an SSH channel stopped accepting input.
#[derive(Clone, Debug, PartialEq, Eq)]
pub enum TerminalCause {
    RemoteEof,
    RemoteClose,
    ExitStatus(u32),
    ExitSignal(String),
    StreamEnded,
    ApplicationClosed,
    TransportError(String),
}

/// The text that reports a cause.
pub open spec fn spec_reason(cause: TerminalCause) -> Seq<char> {
    match cause {
        TerminalCause::RemoteEof => "remote sent EOF"@,
        TerminalCause::RemoteClose => "remote sent channel close"@,
        TerminalCause::ExitStatus(status) => "remote sent exit status "@ + decimal(status as nat),
        TerminalCause::ExitSignal(signal) => "remote sent exit signal "@ + signal@,
        TerminalCause::StreamEnded => "SSH channel message stream ended"@,
        TerminalCause::ApplicationClosed => "closed by application"@,
        TerminalCause::TransportError(error) => "SSH channel transport error: "@ + error@,
    }
}

impl TerminalCause {
    pub fn reason(&self) -> (text: String)
        ensures
            text@ == spec_reason(*self),
    {
        match self {
            TerminalCause::RemoteEof => owned("remote sent EOF"),
            TerminalCause::RemoteClose => owned("remote sent channel close"),
            TerminalCause::ExitStatus(status) => concat(
                "remote sent exit status ",
                decimal_string(*status as u64).as_str(),
            ),
            TerminalCause::ExitSignal(signal) => concat("remote sent exit signal ", signal.as_str()),
            TerminalCause::StreamEnded => owned("SSH channel message stream ended"),
            TerminalCause::ApplicationClosed => owned("closed by application"),
            TerminalCause::TransportError(error) => concat("SSH channel transport error: ", error.as_str()),
        }
    }
}

/// The life of an SSH channel: open until its first terminal cause, which is kept.
#[derive(Debug)]
pub struct ChannelLifecycle {
    terminal: Option<TerminalCause>,
}

impl ChannelLifecycle {
    pub closed spec fn spec_cause(&self) -> Option<TerminalCause> {
        self.terminal
    }

    pub fn new() -> (lifecycle: Self)
        ensures
            lifecycle.spec_cause() is None,
    {
        ChannelLifecycle { terminal: None }
    }

    /// Input may be written while no terminal cause is recorded.
    pub fn can_write(&self) -> (open: bool)
        ensures
            open == self.spec_cause() is None,
    {
        self.terminal.is_none()
    }

    /// Records `cause` if none is recorded yet and reports whether it did; the first cause
    /// is never replaced.
    pub fn terminate(&mut self, cause: TerminalCause) -> (recorded: bool)
        ensures
            recorded == old(self).spec_cause() is None,
            final(self).spec_cause() == if recorded {
                Some(cause)
            } else {
                old(self).spec_cause()
            },
    {
        if self.terminal.is_some() {
            false
        } else {
            self.terminal = Some(cause);
            true
        }
    }

    pub fn cause(&self) -> (cause: Option<&TerminalCause>)
        ensures
            match cause {
                Some(c) => self.spec_cause() == Some(*c),
                None => self.spec_cause() is None,
            },
    {
        self.terminal.as_ref()
    }
}

/// Whether terminal input may be written: not while a ZMODEM transfer owns the terminal,
/// and not once the channel is closed, which the error explains.
pub fn check_terminal_input(transfer_owned: bool, lifecycle: &ChannelLifecycle) -> (result: Result<(), String>)
    ensures
        match result {
            Ok(()) => !transfer_owned && lifecycle.spec_cause() is None,
            Err(e) => if transfer_owned {
                e@ == "ZMODEM 传输期间终端输入已暂停"@
            } else {
                lifecycle.spec_cause() matches Some(c) && e@ == "Terminal channel is closed: "@ + spec_reason(c)
            },
        },
{
    if transfer_owned {
        return Err(owned("ZMODEM 传输期间终端输入已暂停"));
    }
    match lifecycle.cause() {
        Some(c) => Err(concat("Terminal channel is closed: ", c.reason().as_str())),
        None => Ok(()),
    }
}

/// The largest terminal input written at once; larger input is dropped to protect the
/// server.
pub const MAX_TERMINAL_INPUT: usize = 65536usize;

/// What the terminal task does with one piece of input it receives: nothing while a ZMODEM
/// transfer owns the terminal, drop it (with a warning) when it is over 64 KiB, else
/// write it.
#[derive(Clone, Copy, Debug, PartialEq, Eq, Structural)]
pub enum InputDisposition {
    Ignore,
    DropTooLarge,
    Write,
}

/// Input is written only when no transfer owns the terminal and it is at most 64 KiB.
pub fn accepts_terminal_input(transfer_owned: bool, len: usize) -> (disposition: InputDisposition)
    ensures
        disposition == if transfer_owned {
            InputDisposition::Ignore
        } else if len > MAX_TERMINAL_INPUT {
            InputDisposition::DropTooLarge
        } else {
            InputDisposition::Write
        },
{
    if transfer_owned {
        InputDisposition::Ignore
    } else if len > MAX_TERMINAL_INPUT {
        InputDisposition::DropTooLarge
    } else {
        InputDisposition::Write
    }
}

/// Whether plain data may go to a serial port: not while a file is being sent.
pub fn check_serial_input(file_send_active: bool) -> (result: Result<(), String>)
    ensures
        match result {
            Ok(()) => !file_send_active,
            Err(e) => file_send_active && e@ == "串口文件发送期间不能插入普通数据"@,
        },
{
    if file_send_active {
        Err(owned("串口文件发送期间不能插入普通数据"))
    } else {
        Ok(())
    }
}

impl Default for ChannelLifecycle {
    fn default() -> (lifecycle: Self)
        ensures
            lifecycle.spec_cause() is None,
    {
        ChannelLifecycle::new()
    }
}

/// Once a channel has terminated it stays terminated with its first cause, whatever is
/// reported later.
pub proof fn lemma_first_cause_wins(before: Option<TerminalCause>, later: TerminalCause, after: Option<TerminalCause>, recorded: bool)
    requires
        before is Some,
        recorded == before is None,
        after == if recorded {
            Some(later)
        } else {
            before
        },
    ensures
        !recorded,
        after == before,
{
}

/// The phase of a session.
#[derive(Clone, Copy, Debug, PartialEq, Eq, Structural)]
pub enum LifecycleState {
    Idle,
    Starting,
    Active,
    Error,
    Closed,
}

impl Default for LifecycleState {
    fn default() -> (state: Self)
        ensures
            state == LifecycleState::Idle,
    {
        LifecycleState::Idle
    }
}

/// Whether a terminal view is attached to the session.
#[derive(Clone, Copy, Debug, PartialEq, Eq, Structural)]
pub struct TerminalState {
    pub attached: bool,
}

impl Default for TerminalState {
    fn default() -> (state: Self)
        ensures
            !state.attached,
    {
        TerminalState { attached: false }
    }
}

/// The transfers of a session that can be cancelled, by request id, each with its
/// cancellation flag.
pub struct TransferState {
    cancel_tokens: KeyedList<bool>,
}

impl TransferState {
    /// The cancellation flag of a registered transfer.
    pub closed spec fn token(&self, req_id: Seq<char>) -> Option<bool> {
        self.cancel_tokens.get(req_id)
    }

    pub closed spec fn wf(&self) -> bool {
        self.cancel_tokens.wf()
    }

    pub fn new() -> (state: Self)
        ensures
            state.wf(),
            forall|k: Seq<char>| #[trigger] state.token(k) is None,
    {
        TransferState { cancel_tokens: KeyedList::new() }
    }

    /// Registers a transfer with a fresh, unset flag (replacing an earlier registration
    /// under the same id).
    pub fn register_cancel_token(&mut self, req_id: &str)
        requires
            old(self).wf(),
        ensures
            final(self).wf(),
            final(self).token(req_id@) == Some(false),
            forall|k: Seq<char>| k != req_id@ ==> #[trigger] final(self).token(k) == old(self).token(k),
    {
        self.cancel_tokens.insert(owned(req_id), false);
    }

    /// Forgets a transfer.
    pub fn cleanup(&mut self, req_id: &str)
        requires
            old(self).wf(),
        ensures
            final(self).wf(),
            final(self).token(req_id@) is None,
            forall|k: Seq<char>| k != req_id@ ==> #[trigger] final(self).token(k) == old(self).token(k),
    {
        self.cancel_tokens.remove(req_id);
    }

    /// Sets the flag of a registered transfer; fails, changing nothing, for an unknown id.
    pub fn cancel(&mut self, req_id: &str) -> (result: Result<(), String>)
        requires
            old(self).wf(),
        ensures
            final(self).wf(),
            match result {
                Ok(()) => old(self).token(req_id@) is Some && final(self).token(req_id@) == Some(true),
                Err(e) => old(self).token(req_id@) is None && final(self).token(req_id@) is None && e@
                    == "No active transfer found for this ID"@,
            },
            forall|k: Seq<char>| k != req_id@ ==> #[trigger] final(self).token(k) == old(self).token(k),
    {
        match self.cancel_tokens.lookup_value(req_id) {
            Some(_) => {
                self.cancel_tokens.insert(owned(req_id), true);
                Ok(())
            },
            None => Err(owned("No active transfer found for this ID")),
        }
    }

    /// Sets the flag of every registered transfer.
    pub fn cancel_all(&mut self)
        requires
            old(self).wf(),
        ensures
            final(self).wf(),
            forall|k: Seq<char>| #[trigger] final(self).token(k) == match old(self).token(k) {
                Some(_) => Some(true),
                None => None::<bool>,
            },
    {
        self.cancel_tokens.set_all(true);
    }

    /// Whether a transfer was asked to stop; `None` for an unknown id.
    pub fn is_cancelled(&self, req_id: &str) -> (flag: Option<bool>)
        requires
            self.wf(),
        ensures
            flag == self.token(req_id@),
    {
        self.cancel_tokens.lookup_value(req_id)
    }
}

impl Default for TransferState {
    fn default() -> (state: Self)
        ensures
            state.wf(),
    {
        TransferState::new()
    }
}

/// A registered transfer that is cancelled stays registered and reads as cancelled; a
/// cleaned-up transfer can no longer be cancelled.
pub proof fn lemma_cancel_after_register(
    registered: TransferState,
    cancelled: TransferState,
    req_id: Seq<char>,
    result_ok: bool,
)
    requires
        registered.token(req_id) == Some(false),
        result_ok == (registered.token(req_id) is Some),
        result_ok ==> cancelled.token(req_id) == Some(true),
    ensures
        result_ok,
        cancelled.token(req_id) == Some(true),
{
}


/// A session id trimmed; nothing when it is absent or blank.
pub fn normalized_session_id(session_id: Option<String>) -> (id: Option<String>)
    ensures
        crate::ssh_config::opt_view(id) == crate::storage::spec_optional_text(crate::ssh_config::opt_view(session_id)),
{
    crate::storage::normalize_optional_text(session_id)
}

/// Whether `::jump` occurs in `s` at `i`.
pub open spec fn jump_marker_at(s: Seq<char>, i: int) -> bool {
    0 <= i && i + 6 <= s.len() && s.subrange(i, i + 6) == "::jump"@
}

/// The session a jump-host connection belongs to: the text before the first `::jump`,
/// when that is not empty.
pub open spec fn spec_jump_parent(session_id: Seq<char>) -> Option<Seq<char>> {
    if exists|i: int| #[trigger] jump_marker_at(session_id, i) {
        let i = choose|i: int| jump_marker_at(session_id, i) && forall|k: int| 0 <= k < i ==> !#[trigger] jump_marker_at(session_id, k);
        if i > 0 {
            Some(session_id.subrange(0, i))
        } else {
            None
        }
    } else {
        None
    }
}

pub fn jump_parent_session_id(session_id: &str) -> (parent: Option<String>)
    ensures
        crate::ssh_config::opt_view(parent) == spec_jump_parent(session_id@),
{
    let s = chars_of(session_id);
    let marker = chars_of("::jump");
    proof {
        reveal_strlit("::jump");
    }
    if s.len() < 6 {
        assert(forall|i: int| !#[trigger] jump_marker_at(session_id@, i));
        return None;
    }
    let mut i: usize = 0;
    while i <= s.len() - 6
        invariant
            s@ == session_id@,
            marker@ == "::jump"@,
            s@.len() >= 6,
            i <= s@.len() - 6 + 1,
            forall|k: int| 0 <= k < i ==> !#[trigger] jump_marker_at(session_id@, k),
        decreases s@.len() - i,
    {
        let window = copy_chars(s.as_slice(), i, i + 6);
        if crate::text::chars_eq(window.as_slice(), marker.as_slice()) {
            assert(jump_marker_at(session_id@, i as int));
            proof {
                let j = choose|j: int| jump_marker_at(session_id@, j) && forall|k: int| 0 <= k < j ==> !#[trigger] jump_marker_at(session_id@, k);
                if j < i {
                    assert(!jump_marker_at(session_id@, j));
                }
                if j > i {
                    assert(!jump_marker_at(session_id@, i as int));
                }
                assert(j == i);
            }
            if i > 0 {
                return Some(string_of(copy_chars(s.as_slice(), 0, i).as_slice()));
            } else {
                return None;
            }
        }
        i += 1;
    }
    assert(forall|k: int| !#[trigger] jump_marker_at(session_id@, k)) by {
        assert forall|k: int| !#[trigger] jump_marker_at(session_id@, k) by {
            if 0 <= k && k >= i {
                assert(k + 6 > s@.len());
            }
        }
    }
    None
}

/// Which session's host key confirmation an answer for `session_id` goes to, given the
/// sessions that have an entry and whether someone waits on it: the session itself when
/// someone waits there; else the session it is the jump host of, when that one has an
/// entry and someone waits there; else there is none to answer.
pub open spec fn spec_hostkey_target(pending: Map<Seq<char>, bool>, session_id: Seq<char>) -> Option<Seq<char>> {
    if pending.contains_key(session_id) && pending[session_id] {
        Some(session_id)
    } else {
        match spec_jump_parent(session_id) {
            Some(p) => if pending.contains_key(p) && pending[p] {
                Some(p)
            } else {
                None
            },
            None => None,
        }
    }
}

/// The host key confirmations that are open, per session: whether someone waits for an
/// answer.
pub struct HostkeyDecisions {
    waiting: PendingList<bool>,
}

impl HostkeyDecisions {
    pub closed spec fn slots(&self) -> Map<Seq<char>, bool> {
        Map::new(|k: Seq<char>| self.waiting.get(k) is Some, |k: Seq<char>| self.waiting.get(k).unwrap())
    }

    pub closed spec fn wf(&self) -> bool {
        self.waiting.wf()
    }

    pub fn new() -> (decisions: Self)
        ensures
            decisions.wf(),
            decisions.slots() == Map::<Seq<char>, bool>::empty(),
    {
        let d = HostkeyDecisions { waiting: PendingList::new() };
        assert(d.slots() =~= Map::<Seq<char>, bool>::empty());
        d
    }

    /// Records whether someone waits for the confirmation of a session.
    pub fn set_waiting(&mut self, session_id: &str, waiting: bool)
        requires
            old(self).wf(),
        ensures
            final(self).wf(),
            final(self).slots() == old(self).slots().insert(session_id@, waiting),
    {
        self.waiting.insert(owned(session_id), waiting);
        assert(self.slots() =~= old(self).slots().insert(session_id@, waiting));
    }

    /// The session whose waiter an answer for `session_id` is handed to, or the refusal
    /// when none waits; the waiter answered no longer waits.
    pub fn resolve(&mut self, session_id: &str) -> (target: Result<String, String>)
        requires
            old(self).wf(),
        ensures
            final(self).wf(),
            match target {
                Ok(t) => spec_hostkey_target(old(self).slots(), session_id@) == Some(t@) && final(self).slots()
                    == old(self).slots().insert(t@, false),
                Err(e) => spec_hostkey_target(old(self).slots(), session_id@) is None && e@
                    == "No pending host key confirmation"@ && final(self).slots() == old(self).slots(),
            },
    {
        if let Some(true) = self.waiting.lookup_value(session_id) {
            self.set_waiting(session_id, false);
            return Ok(owned(session_id));
        }
        if let Some(parent) = jump_parent_session_id(session_id) {
            if let Some(true) = self.waiting.lookup_value(parent.as_str()) {
                self.set_waiting(parent.as_str(), false);
                return Ok(parent);
            }
        }
        Err(owned("No pending host key confirmation"))
    }
}


/// What a session's actor keeps between the messages it handles, apart from the live
/// connections themselves: its phase, whether a terminal is attached, whether the SSH and
/// SFTP connections are up, and its cancellable transfers.
pub struct SessionCore {
    pub lifecycle: LifecycleState,
    pub terminal: TerminalState,
    pub ssh_connected: bool,
    pub sftp_connected: bool,
    pub transfers: TransferState,
    /// The shell channels opened on the session's SSH connection, by channel id.
    pub shell_channels: KeyedList<bool>,
}

impl SessionCore {
    pub closed spec fn transfer(&self, req_id: Seq<char>) -> Option<bool> {
        self.transfers.token(req_id)
    }

    /// Whether a shell channel with this id is open.
    pub closed spec fn has_shell_channel(&self, channel_id: Seq<char>) -> bool {
        self.shell_channels.get(channel_id) is Some
    }

    pub closed spec fn wf(&self) -> bool {
        self.transfers.wf() && self.shell_channels.wf()
    }

    pub fn new() -> (core: Self)
        ensures
            core.wf(),
            core.lifecycle == LifecycleState::Idle,
            !core.terminal.attached,
            !core.ssh_connected,
            !core.sftp_connected,
            forall|k: Seq<char>| #[trigger] core.transfer(k) is None,
            forall|k: Seq<char>| !#[trigger] core.has_shell_channel(k),
    {
        SessionCore {
            lifecycle: LifecycleState::Idle,
            terminal: TerminalState { attached: false },
            ssh_connected: false,
            sftp_connected: false,
            transfers: TransferState::new(),
            shell_channels: KeyedList::new(),
        }
    }

    /// Whether a shell channel may be opened: not under an id already open, and only on a
    /// connected SSH session.
    pub fn check_open_shell_channel(&self, channel_id: &str) -> (result: Result<(), String>)
        requires
            self.wf(),
        ensures
            match result {
                Ok(()) => !self.has_shell_channel(channel_id@) && self.ssh_connected,
                Err(e) => if self.has_shell_channel(channel_id@) {
                    e@ == "Shell channel already exists"@
                } else {
                    !self.ssh_connected && e@ == "Root SSH session is not connected"@
                },
            },
    {
        if self.shell_channels.lookup_value(channel_id).is_some() {
            Err(owned("Shell channel already exists"))
        } else if !self.ssh_connected {
            Err(owned("Root SSH session is not connected"))
        } else {
            Ok(())
        }
    }

    /// A shell channel was opened under this id.
    pub fn shell_channel_opened(&mut self, channel_id: &str)
        requires
            old(self).wf(),
        ensures
            final(self).wf(),
            final(self).has_shell_channel(channel_id@),
            forall|k: Seq<char>| k != channel_id@ ==> #[trigger] final(self).has_shell_channel(k)
                == old(self).has_shell_channel(k),
            final(self).lifecycle == old(self).lifecycle,
            final(self).terminal == old(self).terminal,
            final(self).ssh_connected == old(self).ssh_connected,
            final(self).sftp_connected == old(self).sftp_connected,
            forall|k: Seq<char>| #[trigger] final(self).transfer(k) == old(self).transfer(k),
    {
        self.shell_channels.insert(owned(channel_id), true);
    }

    /// Writing to or resizing a shell channel needs it to be open.
    pub fn require_shell_channel(&self, channel_id: &str) -> (result: Result<(), String>)
        requires
            self.wf(),
        ensures
            match result {
                Ok(()) => self.has_shell_channel(channel_id@),
                Err(e) => !self.has_shell_channel(channel_id@) && e@ == "Shell channel not found"@,
            },
    {
        if self.shell_channels.lookup_value(channel_id).is_some() {
            Ok(())
        } else {
            Err(owned("Shell channel not found"))
        }
    }

    /// Closes a shell channel; closing one that is not open is no error. Returns whether
    /// one was open (and has to be shut down).
    pub fn close_shell_channel(&mut self, channel_id: &str) -> (was_open: bool)
        requires
            old(self).wf(),
        ensures
            final(self).wf(),
            was_open == old(self).has_shell_channel(channel_id@),
            !final(self).has_shell_channel(channel_id@),
            forall|k: Seq<char>| k != channel_id@ ==> #[trigger] final(self).has_shell_channel(k)
                == old(self).has_shell_channel(k),
            final(self).lifecycle == old(self).lifecycle,
            final(self).terminal == old(self).terminal,
            final(self).ssh_connected == old(self).ssh_connected,
            final(self).sftp_connected == old(self).sftp_connected,
            forall|k: Seq<char>| #[trigger] final(self).transfer(k) == old(self).transfer(k),
    {
        let was_open = self.shell_channels.lookup_value(channel_id).is_some();
        self.shell_channels.remove(channel_id);
        was_open
    }

    /// A connection is being made: the session is starting and a terminal is attached.
    pub fn begin_connect(&mut self)
        ensures
            final(self).lifecycle == LifecycleState::Starting,
            final(self).terminal.attached,
            final(self).ssh_connected == old(self).ssh_connected,
            final(self).sftp_connected == old(self).sftp_connected,
            final(self).wf() == old(self).wf(),
            forall|k: Seq<char>| #[trigger] final(self).transfer(k) == old(self).transfer(k),
    {
        self.lifecycle = LifecycleState::Starting;
        self.terminal.attached = true;
    }

    /// The connection attempt ended: active when it succeeded, in error otherwise.
    pub fn finish_connect(&mut self, succeeded: bool)
        ensures
            final(self).lifecycle == if succeeded {
                LifecycleState::Active
            } else {
                LifecycleState::Error
            },
            final(self).ssh_connected == (succeeded || old(self).ssh_connected),
            final(self).terminal == old(self).terminal,
            final(self).sftp_connected == old(self).sftp_connected,
            final(self).wf() == old(self).wf(),
            forall|k: Seq<char>| #[trigger] final(self).transfer(k) == old(self).transfer(k),
    {
        if succeeded {
            self.lifecycle = LifecycleState::Active;
            self.ssh_connected = true;
        } else {
            self.lifecycle = LifecycleState::Error;
        }
    }

    /// A transfer of this session starts.
    pub fn register_transfer(&mut self, req_id: &str)
        requires
            old(self).wf(),
        ensures
            final(self).wf(),
            final(self).transfer(req_id@) == Some(false),
            forall|k: Seq<char>| k != req_id@ ==> #[trigger] final(self).transfer(k) == old(self).transfer(k),
    {
        self.transfers.register_cancel_token(req_id);
    }

    /// Asks one transfer to stop.
    pub fn cancel_transfer(&mut self, req_id: &str) -> (result: Result<(), String>)
        requires
            old(self).wf(),
        ensures
            final(self).wf(),
            match result {
                Ok(()) => old(self).transfer(req_id@) is Some && final(self).transfer(req_id@) == Some(true),
                Err(e) => old(self).transfer(req_id@) is None && e@ == "No active transfer found for this ID"@,
            },
            forall|k: Seq<char>| k != req_id@ ==> #[trigger] final(self).transfer(k) == old(self).transfer(k),
    {
        self.transfers.cancel(req_id)
    }

    /// The SFTP connection is closed: every transfer is asked to stop.
    pub fn disconnect_sftp(&mut self)
        requires
            old(self).wf(),
        ensures
            final(self).wf(),
            !final(self).sftp_connected,
            final(self).ssh_connected == old(self).ssh_connected,
            final(self).lifecycle == old(self).lifecycle,
            forall|k: Seq<char>| #[trigger] final(self).transfer(k) == match old(self).transfer(k) {
                Some(_) => Some(true),
                None => None::<bool>,
            },
    {
        self.transfers.cancel_all();
        self.sftp_connected = false;
    }

    /// The session is closed: detached, both connections down, every transfer asked to
    /// stop, every shell channel closed.
    pub fn disconnect(&mut self)
        requires
            old(self).wf(),
        ensures
            final(self).wf(),
            final(self).lifecycle == LifecycleState::Closed,
            !final(self).terminal.attached,
            !final(self).ssh_connected,
            !final(self).sftp_connected,
            forall|k: Seq<char>| #[trigger] final(self).transfer(k) == match old(self).transfer(k) {
                Some(_) => Some(true),
                None => None::<bool>,
            },
            forall|k: Seq<char>| !#[trigger] final(self).has_shell_channel(k),
    {
        self.lifecycle = LifecycleState::Closed;
        self.terminal.attached = false;
        self.transfers.cancel_all();
        self.sftp_connected = false;
        self.ssh_connected = false;
        self.shell_channels = KeyedList::new();
    }

    /// Terminal requests need the SSH connection.
    pub fn require_ssh(&self) -> (result: Result<(), String>)
        ensures
            match result {
                Ok(()) => self.ssh_connected,
                Err(e) => !self.ssh_connected && e@ == "Session not connected"@,
            },
    {
        if self.ssh_connected {
            Ok(())
        } else {
            Err(owned("Session not connected"))
        }
    }

    /// File requests need the SFTP connection.
    pub fn require_sftp(&self) -> (result: Result<(), String>)
        ensures
            match result {
                Ok(()) => self.sftp_connected,
                Err(e) => !self.sftp_connected && e@ == "SFTP Session not found"@,
            },
    {
        if self.sftp_connected {
            Ok(())
        } else {
            Err(owned("SFTP Session not found"))
        }
    }

    /// Monitoring needs the SSH connection.
    pub fn require_monitoring(&self) -> (result: Result<(), String>)
        ensures
            match result {
                Ok(()) => self.ssh_connected,
                Err(e) => !self.ssh_connected && e@ == "SSH session not available for monitoring"@,
            },
    {
        if self.ssh_connected {
            Ok(())
        } else {
            Err(owned("SSH session not available for monitoring"))
        }
    }
}

/// The outcome of closing a session: the first failure among closing SFTP, SSH and the
/// tunnels, in that order.
pub fn disconnect_outcome(sftp: Result<(), String>, ssh: Result<(), String>, tunnels: Result<(), String>) -> (result: Result<(), String>)
    ensures
        result == match (sftp, ssh, tunnels) {
            (Err(e), _, _) => Err::<(), String>(e),
            (Ok(_), Err(e), _) => Err(e),
            (Ok(_), Ok(_), Err(e)) => Err(e),
            (Ok(_), Ok(_), Ok(_)) => Ok(()),
        },
{
    match (sftp, ssh, tunnels) {
        (Err(e), _, _) => Err(e),
        (Ok(_), Err(e), _) => Err(e),
        (Ok(_), Ok(_), Err(e)) => Err(e),
        (Ok(_), Ok(_), Ok(_)) => Ok(()),
    }
}

/// After a session is closed no transfer of it is left running: each one it had is marked
/// to stop, and no new one appears.
pub proof fn lemma_closed_session_stops_every_transfer(before: SessionCore, after: SessionCore, req_id: Seq<char>)
    requires
        forall|k: Seq<char>| #[trigger] after.transfer(k) == match before.transfer(k) {
            Some(_) => Some(true),
            None => None::<bool>,
        },
    ensures
        after.transfer(req_id) is None || after.transfer(req_id) == Some(true),
        before.transfer(req_id) is Some <==> after.transfer(req_id) is Some,
{
    assert(after.transfer(req_id) == match before.transfer(req_id) {
        Some(_) => Some(true),
        None => None::<bool>,
    });
}

} // verus!
