use vstd::prelude::*;

use crate::file_names::{file_extension, file_stem};
use crate::sftp_files::{file_name_of_path, path_file_name};
use crate::text::{chars_eq_str, chars_of, concat, decimal, decimal_string, owned, string_of};
use crate::zmodem::{spec_inspect, TransferDirection, ZmodemProbe};

verus! {

/// Direction of a transfer started from the terminal.
#[derive(Clone, Copy, Debug, PartialEq, Eq, Structural)]
pub enum TerminalTransferDirection {
    Upload,
    Download,
}

/// What a download does when a file of the same name exists.
#[derive(Clone, Copy, Debug, PartialEq, Eq, Structural)]
pub enum DownloadCollisionPolicy {
    AutoRename,
    Overwrite,
}

impl Default for DownloadCollisionPolicy {
    fn default() -> (policy: Self)
        ensures
            policy == DownloadCollisionPolicy::AutoRename,
    {
        DownloadCollisionPolicy::AutoRename
    }
}

/// What the user chose for a transfer that the remote side asked for.
#[derive(Clone, Debug, PartialEq, Eq)]
pub enum TerminalTransferSelection {
    Upload { paths: Vec<String> },
    Download { directory: String, collision_policy: DownloadCollisionPolicy },
}

impl TerminalTransferSelection {
    pub fn direction(&self) -> (direction: TerminalTransferDirection)
        ensures
            direction == match self {
                TerminalTransferSelection::Upload { .. } => TerminalTransferDirection::Upload,
                TerminalTransferSelection::Download { .. } => TerminalTransferDirection::Download,
            },
    {
        match self {
            TerminalTransferSelection::Upload { .. } => TerminalTransferDirection::Upload,
            TerminalTransferSelection::Download { .. } => TerminalTransferDirection::Download,
        }
    }
}

/// The direction a detected ZMODEM header asks for.
pub fn map_direction(direction: TransferDirection) -> (mapped: TerminalTransferDirection)
    ensures
        mapped == match direction {
            TransferDirection::Upload => TerminalTransferDirection::Upload,
            TransferDirection::Download => TerminalTransferDirection::Download,
        },
{
    match direction {
        TransferDirection::Upload => TerminalTransferDirection::Upload,
        TransferDirection::Download => TerminalTransferDirection::Download,
    }
}

/// A transfer the remote side asked for, waiting for the user's decision.
#[derive(Clone, Debug, PartialEq, Eq)]
pub struct TerminalTransferRequest {
    pub request_id: String,
    pub session_id: String,
    pub workspace_session_id: String,
    pub channel_id: Option<String>,
    pub protocol: &'static str,
    pub direction: TerminalTransferDirection,
    pub expires_at: u64,
}

/// Progress of one file of a terminal transfer.
#[derive(Clone, Debug, PartialEq, Eq)]
pub struct TransferProgressPayload {
    pub operation_id: String,
    pub task_id: String,
    pub session_id: String,
    pub workspace_session_id: String,
    pub channel_id: Option<String>,
    pub protocol: &'static str,
    pub direction: TerminalTransferDirection,
    pub file_name: String,
    pub local_path: Option<String>,
    pub remote_path: Option<String>,
    pub current: u64,
    pub total: u64,
    pub percent: u8,
    pub status: &'static str,
    pub phase: &'static str,
    pub terminal_restored: bool,
    pub error: Option<String>,
}

/// The end of a terminal transfer.
#[derive(Clone, Debug, PartialEq, Eq)]
pub struct TerminalTransferEnded {
    pub operation_id: Option<String>,
    pub request_id: Option<String>,
    pub session_id: String,
    pub workspace_session_id: String,
    pub channel_id: Option<String>,
    pub direction: TerminalTransferDirection,
    pub terminal_restored: bool,
    pub error: Option<String>,
}

/// The stem a renamed download keeps: the stem of its name, `download` when it has none.
pub open spec fn collision_stem(file_name: Seq<char>) -> Seq<char> {
    match path_file_name(file_name) {
        Some(n) => if file_stem(n).len() == 0 {
            "download"@
        } else {
            file_stem(n)
        },
        None => "download"@,
    }
}

/// The extension a renamed download keeps.
pub open spec fn collision_extension(file_name: Seq<char>) -> Option<Seq<char>> {
    match path_file_name(file_name) {
        Some(n) => file_extension(n),
        None => None,
    }
}

/// The `index`-th name tried for a download whose name is taken: `stem (index).ext`, or
/// `stem (index)` for a name without extension.
pub open spec fn spec_collision_candidate(file_name: Seq<char>, index: u32) -> Seq<char> {
    let base = collision_stem(file_name) + " ("@ + decimal(index as nat) + ")"@;
    match collision_extension(file_name) {
        Some(ext) => base + "."@ + ext,
        None => base,
    }
}

/// The name tried at a step of the search for a free download name: first the name
/// itself, then "name (n).ext" for n from 1 to 9999, then none is left.
pub open spec fn spec_search_candidate(file_name: Seq<char>, index: u32) -> Option<Seq<char>> {
    if index == 0 {
        Some(file_name)
    } else if index <= 9999 {
        Some(spec_collision_candidate(file_name, index))
    } else {
        None
    }
}

/// Whether a download may land on a name only when nothing is there: unless the policy is
/// to overwrite.
pub fn needs_free_name(policy: DownloadCollisionPolicy) -> (check: bool)
    ensures
        check == (policy == DownloadCollisionPolicy::AutoRename),
{
    match policy {
        DownloadCollisionPolicy::AutoRename => true,
        DownloadCollisionPolicy::Overwrite => false,
    }
}

/// The search for a free name for a download: the names are tried in order, each found
/// taken moves the search on.
pub struct CollisionSearch {
    /// The step the search is at: 0 for the name itself, n for "name (n).ext".
    pub next_index: u32,
}

impl CollisionSearch {
    pub fn new() -> (search: Self)
        ensures
            search.next_index == 0,
    {
        CollisionSearch { next_index: 0 }
    }

    /// The name to try now, or none once every name was taken.
    pub fn candidate(&self, file_name: &str) -> (name: Option<String>)
        ensures
            match name {
                Some(n) => spec_search_candidate(file_name@, self.next_index) == Some(n@),
                None => spec_search_candidate(file_name@, self.next_index) is None,
            },
    {
        if self.next_index == 0 {
            Some(owned(file_name))
        } else if self.next_index <= 9999 {
            Some(collision_candidate(file_name, self.next_index))
        } else {
            None
        }
    }

    /// The name just tried is taken.
    pub fn taken(&mut self)
        requires
            old(self).next_index <= 9999,
        ensures
            final(self).next_index == old(self).next_index + 1,
    {
        self.next_index = self.next_index + 1;
    }
}

/// The error once every name was taken.
pub fn collision_exhausted_message() -> (message: String)
    ensures
        message@ == "无法为下载文件生成不冲突的名称"@,
{
    owned("无法为下载文件生成不冲突的名称")
}

fn stem_and_extension(name: &[char]) -> (parts: (Vec<char>, Option<Vec<char>>))
    ensures
        parts.0@ == file_stem(name@),
        match parts.1 {
            Some(e) => file_extension(name@) == Some(e@),
            None => file_extension(name@) is None,
        },
{
    let mut i: usize = name.len();
    while i > 0 && name[i - 1] != '.'
        invariant
            i <= name@.len(),
            crate::file_names::last_dot(name@, name@.len() as int) == crate::file_names::last_dot(name@, i as int),
        decreases i,
    {
        i -= 1;
    }
    if chars_eq_str(name, "..") || i <= 1 {
        (crate::text::copy_chars(name, 0, name.len()), None)
    } else {
        (crate::text::copy_chars(name, 0, i - 1), Some(crate::text::copy_chars(name, i, name.len())))
    }
}

pub fn collision_candidate(file_name: &str, index: u32) -> (candidate: String)
    ensures
        candidate@ == spec_collision_candidate(file_name@, index),
{
    let chars = chars_of(file_name);
    let (stem, extension) = match file_name_of_path(chars.as_slice()) {
        Some(n) => stem_and_extension(n.as_slice()),
        None => (Vec::new(), None),
    };
    let stem_text = if stem.len() == 0 {
        owned("download")
    } else {
        string_of(stem.as_slice())
    };
    let a = concat(stem_text.as_str(), " (");
    let b = concat(a.as_str(), decimal_string(index as u64).as_str());
    let base = concat(b.as_str(), ")");
    match extension {
        Some(ext) => {
            let with_dot = concat(base.as_str(), ".");
            concat(with_dot.as_str(), string_of(ext.as_slice()).as_str())
        },
        None => base,
    }
}

/// A byte kept when a prompt is restored after a transfer: tab, line feed, carriage
/// return, escape, printable ASCII, and every byte from 0x80 up.
pub open spec fn restorable_byte(b: u8) -> bool {
    b == 0x09 || b == 0x0a || b == 0x0d || b == 0x1b || (0x20 <= b && b <= 0x7e) || b >= 0x80
}

pub open spec fn keep_restorable(s: Seq<u8>) -> Seq<u8>
    decreases s.len(),
{
    if s.len() == 0 {
        seq![]
    } else {
        keep_restorable(s.drop_last()) + if restorable_byte(s.last()) {
            seq![s.last()]
        } else {
            Seq::<u8>::empty()
        }
    }
}

/// The text shown when the terminal is restored from the bytes that arrived during a
/// transfer: the terminal data a fresh probe lets through (with what it still holds when it
/// detected nothing), without control bytes other than the restorable ones.
pub open spec fn spec_recovery_terminal_text(data: Seq<u8>) -> Seq<u8> {
    let r = spec_inspect(data);
    let shown = if r.2 is None {
        r.0 + r.3
    } else {
        r.0
    };
    keep_restorable(shown)
}

pub fn recovery_terminal_text(data: &[u8]) -> (text: Vec<u8>)
    ensures
        text@ == spec_recovery_terminal_text(data@),
{
    let mut probe = ZmodemProbe::new();
    let output = probe.inspect(data);
    assert(Seq::<u8>::empty() + data@ =~= data@);
    let mut terminal = output.terminal_data;
    if output.detection.is_none() {
        let mut rest = probe.flush();
        terminal.append(&mut rest);
    }
    let mut kept: Vec<u8> = Vec::new();
    let mut i: usize = 0;
    while i < terminal.len()
        invariant
            i <= terminal@.len(),
            kept@ == keep_restorable(terminal@.take(i as int)),
        decreases terminal@.len() - i,
    {
        let b = terminal[i];
        assert(terminal@.take(i + 1).drop_last() =~= terminal@.take(i as int));
        if b == 0x09 || b == 0x0a || b == 0x0d || b == 0x1b || (0x20 <= b && b <= 0x7e) || b >= 0x80 {
            kept.push(b);
        }
        i += 1;
        assert(kept@ =~= keep_restorable(terminal@.take(i as int)));
    }
    assert(terminal@.take(terminal@.len() as int) =~= terminal@);
    kept
}


/// Bytes received from the remote side and not yet handed to the protocol engine.
pub struct WireBuffer {
    buffer: Vec<u8>,
    offset: usize,
}

impl WireBuffer {
    /// The bytes not yet consumed.
    pub closed spec fn unread(&self) -> Seq<u8> {
        self.buffer@.subrange(self.offset as int, self.buffer@.len() as int)
    }

    /// How many bytes are stored, consumed ones included.
    pub closed spec fn stored(&self) -> nat {
        self.buffer@.len()
    }

    pub closed spec fn wf(&self) -> bool {
        self.offset <= self.buffer@.len()
    }

    pub fn new() -> (wire: Self)
        ensures
            wire.wf(),
            wire.unread() == Seq::<u8>::empty(),
    {
        WireBuffer { buffer: Vec::new(), offset: 0 }
    }

    pub fn push_wire(&mut self, data: &[u8])
        requires
            old(self).wf(),
        ensures
            final(self).wf(),
            final(self).unread() == old(self).unread() + data@,
    {
        crate::bytes::push_all(&mut self.buffer, data);
        assert(self.unread() =~= old(self).unread() + data@);
    }

    pub fn unread_len(&self) -> (n: usize)
        requires
            self.wf(),
        ensures
            n == self.unread().len(),
    {
        self.buffer.len() - self.offset
    }

    /// Marks the first `n` unread bytes as consumed.
    pub fn consume(&mut self, n: usize)
        requires
            old(self).wf(),
            n <= old(self).unread().len(),
        ensures
            final(self).wf(),
            final(self).unread() == old(self).unread().subrange(n as int, old(self).unread().len() as int),
    {
        let len = self.buffer.len();
        assert(old(self).unread().len() == len - self.offset);
        self.offset = self.offset + n;
        assert(self.unread() =~= old(self).unread().subrange(n as int, old(self).unread().len() as int));
    }

    /// Drops consumed bytes: all of them once everything is consumed, or once more than
    /// 4096 are; the unread bytes stay as they are.
    pub fn compact_wire_buffer(&mut self)
        requires
            old(self).wf(),
        ensures
            final(self).wf(),
            final(self).unread() == old(self).unread(),
            old(self).unread().len() == 0 ==> final(self).stored() == 0,
    {
        if self.offset == self.buffer.len() {
            self.buffer = Vec::new();
            self.offset = 0;
            assert(self.unread() =~= old(self).unread());
        } else if self.offset > 4096 {
            let rest = crate::bytes::copy_range(&self.buffer, self.offset, self.buffer.len());
            self.buffer = rest;
            self.offset = 0;
            assert(self.unread() =~= old(self).unread());
        }
    }

    /// Hands out the unread bytes and empties the buffer.
    pub fn take_remaining_wire(&mut self) -> (remaining: Vec<u8>)
        requires
            old(self).wf(),
        ensures
            remaining@ == old(self).unread(),
            final(self).wf(),
            final(self).unread() == Seq::<u8>::empty(),
            final(self).stored() == 0,
    {
        let remaining = crate::bytes::copy_range(&self.buffer, self.offset, self.buffer.len());
        self.buffer = Vec::new();
        self.offset = 0;
        assert(self.unread() =~= Seq::<u8>::empty());
        remaining
    }
}

/// How an uploaded file ended, as its progress reports it.
#[derive(Clone, Debug, PartialEq, Eq)]
pub struct UploadFileEnd {
    /// The bytes reported as sent.
    pub current: u64,
    pub status: &'static str,
    pub phase: &'static str,
    pub error: Option<String>,
}

/// The end of an uploaded file that the receiver reported complete: when the receiver
/// stopped asking for data before the whole file (of a known, non-zero size) was sent, it
/// already had the file and the upload is reported skipped at what was sent; otherwise it
/// succeeded with the whole size sent.
pub fn upload_file_end(size: u64, sent: u64) -> (end: UploadFileEnd)
    ensures
        (size > 0 && sent < size) ==> {
            &&& end.current == sent
            &&& end.status@ == "skipped"@
            &&& end.phase@ == "skipped"@
            &&& end.error matches Some(e) && e@ == "远端未请求文件内容，通常是同名目标已经存在"@
        },
        !(size > 0 && sent < size) ==> {
            &&& end.current == size
            &&& end.status@ == "success"@
            &&& end.phase@ == "completed"@
            &&& end.error is None
        },
{
    if size > 0 && sent < size {
        UploadFileEnd {
            current: sent,
            status: "skipped",
            phase: "skipped",
            error: Some(owned("远端未请求文件内容，通常是同名目标已经存在")),
        }
    } else {
        UploadFileEnd { current: size, status: "success", phase: "completed", error: None }
    }
}

/// A downloaded file whose size was announced must have exactly that size.
pub fn check_download_length(total: u64, received: u64) -> (result: Result<(), String>)
    ensures
        match result {
            Ok(()) => total == 0 || received == total,
            Err(e) => total > 0 && received != total && e@ == "ZMODEM 文件长度不一致：预期 "@ + decimal(total as nat)
                + "，实际 "@ + decimal(received as nat),
        },
{
    if total > 0 && received != total {
        let a = concat("ZMODEM 文件长度不一致：预期 ", decimal_string(total).as_str());
        let b = concat(a.as_str(), "，实际 ");
        Err(concat(b.as_str(), decimal_string(received).as_str()))
    } else {
        Ok(())
    }
}

} // verus!
