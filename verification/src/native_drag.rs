use vstd::prelude::*;

use crate::sftp_files::SftpStreamCompletion;
use crate::text::{chars_of, concat, decimal, decimal_string, owned, signed_decimal, signed_decimal_string};

verus! {

/// What the native drag and drop of this platform can carry.
#[derive(Clone, Copy, Debug, PartialEq, Eq, Structural)]
pub struct NativeDragCapabilities {
    pub local_files: bool,
    pub local_directories: bool,
    pub remote_virtual_files: bool,
}

/// Native dragging of local files, local directories and remote files is offered on
/// Windows only.
pub fn native_drag_capabilities(on_windows: bool) -> (capabilities: NativeDragCapabilities)
    ensures
        capabilities == (NativeDragCapabilities {
            local_files: on_windows,
            local_directories: on_windows,
            remote_virtual_files: on_windows,
        }),
{
    NativeDragCapabilities { local_files: on_windows, local_directories: on_windows, remote_virtual_files: on_windows }
}

/// How a native drag ended, and where the cursor was.
#[derive(Clone, Copy, Debug, PartialEq, Eq, Structural)]
pub struct NativeDragOutcome {
    pub dropped: bool,
    pub cursor_x: i32,
    pub cursor_y: i32,
}

/// How a drag of a remote file out of the application ended.
#[derive(Clone, Copy, Debug, PartialEq, Eq, Structural)]
pub struct VirtualDragOutcome {
    pub dropped: bool,
    pub cursor_x: i32,
    pub cursor_y: i32,
}

/// A local path is dragged only when it is absolute.
pub open spec fn absolute_path(path: Seq<char>) -> bool {
    path.len() > 0 && path[0] == '/'
}

/// The first problem with a list of paths to drag, checking each path in turn: the list is
/// empty; a path is relative; a path does not exist (`exists[i]` says whether path `i` does).
pub open spec fn drag_paths_error(paths: Seq<Seq<char>>, exists: Seq<bool>) -> Option<Seq<char>> {
    if paths.len() == 0 {
        Some("没有可拖动的本地文件"@)
    } else {
        drag_path_error_from(paths, exists, 0)
    }
}

pub open spec fn drag_path_error_from(paths: Seq<Seq<char>>, exists: Seq<bool>, i: int) -> Option<Seq<char>>
    decreases paths.len() - i,
{
    if i < 0 || i >= paths.len() {
        None
    } else if !absolute_path(paths[i]) {
        Some("拖动路径必须是绝对路径: "@ + paths[i])
    } else if !exists[i] {
        Some("拖动路径不存在: "@ + paths[i])
    } else {
        drag_path_error_from(paths, exists, i + 1)
    }
}

pub open spec fn string_views(strings: Seq<String>) -> Seq<Seq<char>> {
    strings.map_values(|s: String| s@)
}

/// Checks the local paths of a drag; `exists[i]` tells whether `paths[i]` exists.
pub fn validate_local_paths(paths: Vec<String>, exists: &[bool]) -> (result: Result<Vec<String>, String>)
    requires
        exists@.len() == paths@.len(),
    ensures
        match result {
            Ok(p) => drag_paths_error(string_views(paths@), exists@) is None && p@ == paths@,
            Err(e) => drag_paths_error(string_views(paths@), exists@) == Some(e@),
        },
{
    if paths.len() == 0 {
        return Err(owned("没有可拖动的本地文件"));
    }
    let ghost views = string_views(paths@);
    let mut i: usize = 0;
    while i < paths.len()
        invariant
            i <= paths@.len(),
            exists@.len() == paths@.len(),
            views == string_views(paths@),
            paths@.len() > 0,
            drag_path_error_from(views, exists@, 0) == drag_path_error_from(views, exists@, i as int),
        decreases paths@.len() - i,
    {
        let p = chars_of(paths[i].as_str());
        assert(views[i as int] == paths@[i as int]@);
        if p.len() == 0 || p[0] != '/' {
            return Err(concat("拖动路径必须是绝对路径: ", paths[i].as_str()));
        }
        if !exists[i] {
            return Err(concat("拖动路径不存在: ", paths[i].as_str()));
        }
        i += 1;
    }
    Ok(paths)
}

/// Progress of a drag of a remote file: the flags that decide when, and how, the download
/// feeding it is told that it is over.
#[derive(Clone, Copy, Debug, PartialEq, Eq, Structural)]
pub struct CompletionState {
    pub data_consumed: bool,
    pub drop_finished: bool,
    pub drop_accepted: bool,
    pub async_mode: bool,
    pub operation_started: bool,
    pub operation_finished: bool,
    pub operation_succeeded: bool,
    pub notified: bool,
}

/// The download is reported consumed once its data was read, the drop was accepted, and an
/// asynchronous operation, if one was started, ended successfully.
pub open spec fn consumed_ready(s: CompletionState) -> bool {
    &&& s.data_consumed
    &&& s.drop_finished
    &&& s.drop_accepted
    &&& (s.operation_started ==> s.operation_finished && s.operation_succeeded)
}

/// One report at most: a step reports exactly when it is the first to mark the state
/// notified, and a report of success is only made when the download was fully consumed.
pub open spec fn reports_once(before: CompletionState, after: CompletionState, report: Option<SftpStreamCompletion>) -> bool {
    &&& (before.notified ==> after.notified && report is None)
    &&& (report is Some <==> (!before.notified && after.notified))
    &&& (report == Some(SftpStreamCompletion::Consumed) ==> consumed_ready(after))
}

impl CompletionState {
    pub fn new() -> (state: Self)
        ensures
            state == (CompletionState {
                data_consumed: false,
                drop_finished: false,
                drop_accepted: false,
                async_mode: false,
                operation_started: false,
                operation_finished: false,
                operation_succeeded: false,
                notified: false,
            }),
    {
        CompletionState {
            data_consumed: false,
            drop_finished: false,
            drop_accepted: false,
            async_mode: false,
            operation_started: false,
            operation_finished: false,
            operation_succeeded: false,
            notified: false,
        }
    }

    /// Reports the download consumed if it is ready and nothing was reported yet.
    pub fn notify_if_ready(&mut self) -> (report: Option<SftpStreamCompletion>)
        ensures
            report == if !old(self).notified && consumed_ready(*old(self)) {
                Some(SftpStreamCompletion::Consumed)
            } else {
                None
            },
            *final(self) == (CompletionState { notified: old(self).notified || consumed_ready(*old(self)), ..*old(self) }),
            reports_once(*old(self), *final(self), report),
    {
        if self.notified || !self.data_consumed || !self.drop_finished || !self.drop_accepted || (
        self.operation_started && (!self.operation_finished || !self.operation_succeeded)) {
            return None;
        }
        self.notified = true;
        Some(SftpStreamCompletion::Consumed)
    }

    /// The reader has read all the data.
    pub fn data_consumed(&mut self) -> (report: Option<SftpStreamCompletion>)
        ensures
            reports_once(*old(self), *final(self), report),
            final(self).data_consumed,
            *final(self) == (CompletionState {
                data_consumed: true,
                notified: final(self).notified,
                ..*old(self)
            }),
    {
        self.data_consumed = true;
        self.notify_if_ready()
    }

    /// The drop ended; a refused drop is reported as failed (with its error) or cancelled.
    pub fn drop_finished(&mut self, accepted: bool, error: Option<String>) -> (report: Option<SftpStreamCompletion>)
        ensures
            reports_once(*old(self), *final(self), report),
            final(self).drop_finished,
            final(self).drop_accepted == accepted,
            *final(self) == (CompletionState {
                drop_finished: true,
                drop_accepted: accepted,
                notified: final(self).notified,
                ..*old(self)
            }),
            !accepted && !old(self).notified ==> report == Some(
                match error {
                    Some(e) => SftpStreamCompletion::Failed(e),
                    None => SftpStreamCompletion::Cancelled,
                },
            ),
    {
        self.drop_finished = true;
        self.drop_accepted = accepted;
        if !accepted && !self.notified {
            self.notified = true;
            return Some(
                match error {
                    Some(e) => SftpStreamCompletion::Failed(e),
                    None => SftpStreamCompletion::Cancelled,
                },
            );
        }
        self.notify_if_ready()
    }

    /// The download failed; reported unless something was reported already.
    pub fn failed(&mut self, error: String) -> (report: Option<SftpStreamCompletion>)
        ensures
            reports_once(*old(self), *final(self), report),
            *final(self) == (CompletionState { notified: true, ..*old(self) }),
            !old(self).notified ==> report == Some(SftpStreamCompletion::Failed(error)),
    {
        if self.notified {
            return None;
        }
        self.notified = true;
        Some(SftpStreamCompletion::Failed(error))
    }

    /// The drag was cancelled; reported unless something was reported already.
    pub fn cancelled(&mut self) -> (report: Option<SftpStreamCompletion>)
        ensures
            reports_once(*old(self), *final(self), report),
            *final(self) == (CompletionState { notified: true, ..*old(self) }),
            !old(self).notified ==> report == Some(SftpStreamCompletion::Cancelled),
    {
        if self.notified {
            return None;
        }
        self.notified = true;
        Some(SftpStreamCompletion::Cancelled)
    }

    pub fn set_async_mode(&mut self, enabled: bool)
        ensures
            *final(self) == (CompletionState { async_mode: enabled, ..*old(self) }),
    {
        self.async_mode = enabled;
    }

    pub fn async_mode(&self) -> (enabled: bool)
        ensures
            enabled == self.async_mode,
    {
        self.async_mode
    }

    /// The drop target starts an asynchronous operation.
    pub fn start_operation(&mut self)
        ensures
            *final(self) == (CompletionState {
                operation_started: true,
                operation_finished: false,
                operation_succeeded: false,
                ..*old(self)
            }),
    {
        self.operation_started = true;
        self.operation_finished = false;
        self.operation_succeeded = false;
    }

    pub fn in_operation(&self) -> (busy: bool)
        ensures
            busy == (self.operation_started && !self.operation_finished),
    {
        self.operation_started && !self.operation_finished
    }

    /// The asynchronous operation ended; a failure is reported with its error, or a
    /// standard message when it gave none.
    pub fn end_operation(&mut self, succeeded: bool, error: Option<String>) -> (report: Option<SftpStreamCompletion>)
        ensures
            reports_once(*old(self), *final(self), report),
            *final(self) == (CompletionState {
                operation_finished: true,
                operation_succeeded: succeeded,
                notified: final(self).notified,
                ..*old(self)
            }),
            !succeeded && !old(self).notified ==> (report matches Some(SftpStreamCompletion::Failed(m)) && m@
                == match error {
                Some(e) => e@,
                None => "Windows 文件拖放操作失败"@,
            }),
    {
        self.operation_finished = true;
        self.operation_succeeded = succeeded;
        if !succeeded && !self.notified {
            self.notified = true;
            let message = match error {
                Some(e) => e,
                None => owned("Windows 文件拖放操作失败"),
            };
            return Some(SftpStreamCompletion::Failed(message));
        }
        self.notify_if_ready()
    }
}


/// The answer of a drag and drop that ended in a drop (`DRAGDROP_S_DROP`).
pub const DRAGDROP_S_DROP: i32 = 0x0004_0100i32;

/// The answer of a drag and drop that was cancelled (`DRAGDROP_S_CANCEL`).
pub const DRAGDROP_S_CANCEL: i32 = 0x0004_0101i32;

/// The answer that lets a drag go on (`S_OK`).
pub const S_OK: i32 = 0i32;

/// The drop effect of a copy (`DROPEFFECT_COPY`).
pub const DROPEFFECT_COPY: u32 = 1u32;

/// The key-state bit of the left mouse button (`MK_LBUTTON`).
pub const MK_LBUTTON: u32 = 1u32;

/// A drag of a remote file succeeded when it ended in a drop whose effect includes a copy.
pub fn is_copy_drop(result: i32, effect: u32) -> (dropped: bool)
    ensures
        dropped == (result == DRAGDROP_S_DROP && effect & DROPEFFECT_COPY != 0),
{
    result == DRAGDROP_S_DROP && effect & DROPEFFECT_COPY != 0
}

/// While a remote file is dragged: escape cancels it, releasing the left button drops it,
/// anything else lets it go on.
pub fn query_continue_drag(escape_pressed: bool, key_state: u32) -> (answer: i32)
    ensures
        answer == if escape_pressed {
            DRAGDROP_S_CANCEL
        } else if key_state & MK_LBUTTON == 0 {
            DRAGDROP_S_DROP
        } else {
            S_OK
        },
{
    if escape_pressed {
        DRAGDROP_S_CANCEL
    } else if key_state & MK_LBUTTON == 0 {
        DRAGDROP_S_DROP
    } else {
        S_OK
    }
}

/// The error a finished drag of a remote file leaves for the download: none when the file
/// was dropped or the drag cancelled, else that the target did not take the file.
pub fn drop_completion_error(result: i32, effect: u32) -> (error: Option<String>)
    ensures
        match error {
            None => is_copy_drop_spec(result, effect) || result == DRAGDROP_S_CANCEL,
            Some(e) => !(is_copy_drop_spec(result, effect) || result == DRAGDROP_S_CANCEL) && e@
                == "Windows 拖放目标未接受文件: hresult="@ + signed_decimal(result as int) + " effect="@ + decimal(
                effect as nat,
            ),
        },
{
    if is_copy_drop(result, effect) || result == DRAGDROP_S_CANCEL {
        None
    } else {
        Some(drop_failure_message("Windows 拖放目标未接受文件: hresult=", result, effect))
    }
}

pub open spec fn is_copy_drop_spec(result: i32, effect: u32) -> bool {
    result == DRAGDROP_S_DROP && effect & DROPEFFECT_COPY != 0
}

fn drop_failure_message(label: &str, result: i32, effect: u32) -> (message: String)
    ensures
        message@ == label@ + signed_decimal(result as int) + " effect="@ + decimal(effect as nat),
{
    let head = concat(label, signed_decimal_string(result).as_str());
    let with_effect = concat(head.as_str(), " effect=");
    concat(with_effect.as_str(), decimal_string(effect as u64).as_str())
}

/// How an asynchronous drop operation ended: it succeeded when its result is a success
/// code and its effects include a copy; a failure carries the result and the effects.
pub fn end_operation_outcome(result: i32, effects: u32) -> (outcome: (bool, Option<String>))
    ensures
        outcome.0 == (result >= 0 && effects & DROPEFFECT_COPY != 0),
        match outcome.1 {
            None => outcome.0,
            Some(e) => !outcome.0 && e@ == "Windows 异步文件拖放失败: hresult="@ + signed_decimal(result as int)
                + " effect="@ + decimal(effects as nat),
        },
{
    let succeeded = result >= 0 && effects & DROPEFFECT_COPY != 0;
    if succeeded {
        (true, None)
    } else {
        (false, Some(drop_failure_message("Windows 异步文件拖放失败: hresult=", result, effects)))
    }
}

/// The UTF-16 code units of a character, as `char::encode_utf16` gives them.
pub open spec fn utf16_units(c: char) -> Seq<u16> {
    let v = c as u32;
    if v < 0x10000 {
        seq![v as u16]
    } else {
        let w = (v - 0x10000) as u32;
        seq![(0xD800 + w / 0x400) as u16, (0xDC00 + w % 0x400) as u16]
    }
}

/// The UTF-16 encoding of a sequence of characters.
pub open spec fn utf16_of(chars: Seq<char>) -> Seq<u16>
    decreases chars.len(),
{
    if chars.len() == 0 {
        Seq::empty()
    } else {
        utf16_of(chars.drop_last()) + utf16_units(chars.last())
    }
}

/// The file name of a dragged remote file as a drop target reads it: a buffer of 260 UTF-16
/// units that ends in a zero, so at most 259 units of the name, cut before the first
/// character that would not fit whole.
pub open spec fn descriptor_name_fits(chars: Seq<char>, units: Seq<u16>) -> bool {
    exists|k: int|
        0 <= k <= chars.len() && units == utf16_of(#[trigger] chars.take(k)) && units.len() <= 259 && (k < chars.len()
            ==> utf16_of(chars.take(k + 1)).len() > 259)
}

fn encode_utf16_char(c: char, out: &mut Vec<u16>)
    ensures
        final(out)@ == old(out)@ + utf16_units(c),
{
    let v = c as u32;
    if v < 0x10000 {
        out.push(v as u16);
    } else {
        let w = v - 0x10000;
        out.push((0xD800 + w / 0x400) as u16);
        out.push((0xDC00 + w % 0x400) as u16);
    }
}

/// The UTF-16 units of a dragged file's name that its descriptor carries.
pub fn descriptor_file_name(name: &str) -> (units: Vec<u16>)
    ensures
        descriptor_name_fits(name@, units@),
{
    let chars = chars_of(name);
    let n = chars.len();
    let mut units: Vec<u16> = Vec::new();
    let mut i: usize = 0;
    while i < n
        invariant
            n == chars@.len(),
            chars@ == name@,
            i <= n,
            units@ == utf16_of(chars@.take(i as int)),
            units@.len() <= 259,
        decreases n - i,
    {
        let c = chars[i];
        assert(chars@.take(i + 1).drop_last() =~= chars@.take(i as int));
        let mut next = Vec::new();
        encode_utf16_char(c, &mut next);
        if units.len() + next.len() > 259 {
            assert(utf16_of(chars@.take(i + 1)).len() > 259);
            assert(descriptor_name_fits(name@, units@));
            return units;
        }
        encode_utf16_char(c, &mut units);
        i += 1;
    }
    assert(chars@.take(n as int) =~= chars@);
    assert(descriptor_name_fits(name@, units@));
    units
}

/// The size of a dragged file as a descriptor carries it: its high and its low 32 bits.
pub fn descriptor_file_size(total_size: u64) -> (parts: (u32, u32))
    ensures
        parts.0 as int * 0x1_0000_0000 + parts.1 as int == total_size as int,
{
    let high = (total_size / 0x1_0000_0000u64) as u32;
    let low = (total_size % 0x1_0000_0000u64) as u32;
    (high, low)
}

/// The content aspect of a clipboard format (`DVASPECT_CONTENT`).
pub const DVASPECT_CONTENT: u32 = 1u32;

/// The global-memory medium (`TYMED_HGLOBAL`).
pub const TYMED_HGLOBAL: u32 = 1u32;

/// The stream medium (`TYMED_ISTREAM`).
pub const TYMED_ISTREAM: u32 = 4u32;

/// A data format a drop target asks for: its clipboard format, aspect, index and the media
/// it can take.
#[derive(Clone, Copy, Debug, PartialEq, Eq, Structural)]
pub struct DataFormat {
    pub format: u16,
    pub aspect: u32,
    pub index: i32,
    pub media: u32,
}

/// What a dragged remote file offers: its descriptor, its contents as a stream, and the
/// preferred drop effect.
#[derive(Clone, Copy, Debug, PartialEq, Eq, Structural)]
pub enum OfferedData {
    Descriptor,
    Contents,
    PreferredEffect,
}

/// The registered clipboard formats of the three kinds of data.
#[derive(Clone, Copy, Debug, PartialEq, Eq, Structural)]
pub struct OfferedFormats {
    pub descriptor: u16,
    pub contents: u16,
    pub preferred_effect: u16,
}

pub open spec fn spec_offered_data(formats: OfferedFormats, f: DataFormat) -> Option<OfferedData> {
    if f.format == formats.descriptor && f.aspect == DVASPECT_CONTENT && f.media & TYMED_HGLOBAL != 0 {
        Some(OfferedData::Descriptor)
    } else if f.format == formats.contents && f.aspect == DVASPECT_CONTENT && (f.index == -1 || f.index == 0)
        && f.media & TYMED_ISTREAM != 0 {
        Some(OfferedData::Contents)
    } else if f.format == formats.preferred_effect && f.aspect == DVASPECT_CONTENT && f.media & TYMED_HGLOBAL != 0 {
        Some(OfferedData::PreferredEffect)
    } else {
        None
    }
}

impl OfferedFormats {
    /// Which data a request for this format gets, checked in the order descriptor,
    /// contents, preferred effect; nothing when the format is not offered.
    pub fn offered_data(&self, f: DataFormat) -> (data: Option<OfferedData>)
        ensures
            data == spec_offered_data(*self, f),
    {
        if f.format == self.descriptor && f.aspect == DVASPECT_CONTENT && f.media & TYMED_HGLOBAL != 0 {
            Some(OfferedData::Descriptor)
        } else if f.format == self.contents && f.aspect == DVASPECT_CONTENT && (f.index == -1 || f.index == 0)
            && f.media & TYMED_ISTREAM != 0 {
            Some(OfferedData::Contents)
        } else if f.format == self.preferred_effect && f.aspect == DVASPECT_CONTENT && f.media & TYMED_HGLOBAL != 0 {
            Some(OfferedData::PreferredEffect)
        } else {
            None
        }
    }

    /// The formats listed to a drop target, in order: descriptor, contents, preferred effect.
    pub fn listed_formats(&self) -> (formats: Vec<DataFormat>)
        ensures
            formats@ == seq![
                DataFormat { format: self.descriptor, aspect: DVASPECT_CONTENT, index: -1i32, media: TYMED_HGLOBAL },
                DataFormat { format: self.contents, aspect: DVASPECT_CONTENT, index: 0i32, media: TYMED_ISTREAM },
                DataFormat { format: self.preferred_effect, aspect: DVASPECT_CONTENT, index: -1i32, media: TYMED_HGLOBAL },
            ],
    {
        let mut formats = Vec::new();
        formats.push(DataFormat { format: self.descriptor, aspect: DVASPECT_CONTENT, index: -1i32, media: TYMED_HGLOBAL });
        formats.push(DataFormat { format: self.contents, aspect: DVASPECT_CONTENT, index: 0i32, media: TYMED_ISTREAM });
        formats.push(
            DataFormat { format: self.preferred_effect, aspect: DVASPECT_CONTENT, index: -1i32, media: TYMED_HGLOBAL },
        );
        formats
    }
}

/// Every format a dragged file lists is one it then serves, each as its own kind of data
/// (the descriptor and the preferred effect being registered as distinct formats).
pub proof fn lemma_listed_formats_are_served(formats: OfferedFormats)
    requires
        formats.descriptor != formats.preferred_effect,
    ensures
        spec_offered_data(formats, DataFormat { format: formats.descriptor, aspect: DVASPECT_CONTENT, index: -1i32, media: TYMED_HGLOBAL })
            == Some(OfferedData::Descriptor),
        spec_offered_data(formats, DataFormat { format: formats.contents, aspect: DVASPECT_CONTENT, index: 0i32, media: TYMED_ISTREAM })
            == Some(OfferedData::Contents),
        spec_offered_data(formats, DataFormat { format: formats.preferred_effect, aspect: DVASPECT_CONTENT, index: -1i32, media: TYMED_HGLOBAL })
            == Some(OfferedData::PreferredEffect),
{
    assert(TYMED_HGLOBAL & TYMED_HGLOBAL != 0) by (bit_vector);
    assert(TYMED_ISTREAM & TYMED_ISTREAM != 0) by (bit_vector);
    assert(TYMED_HGLOBAL & TYMED_ISTREAM == 0) by (bit_vector);
    assert(TYMED_ISTREAM & TYMED_HGLOBAL == 0) by (bit_vector);
}

/// What the reader of a dragged remote file learns while it waits for data.
#[derive(Clone, Debug, PartialEq, Eq)]
pub enum StreamEvent {
    /// A message of the download.
    Message(crate::sftp_files::SftpStreamMessage),
    /// No message came in time; whether the drag has been cancelled meanwhile.
    TimedOut { cancelled: bool },
    /// The download went away.
    Disconnected,
}

/// Whether a read goes on or fails.
#[derive(Clone, Copy, Debug, PartialEq, Eq, Structural)]
pub enum ReadStep {
    Continue,
    Fault,
}

/// The reading side of a dragged remote file: the data of the download is handed out in
/// order, as the drop target reads it, and the download is told when all of it was read.
pub struct DragStreamReader {
    total_size: u64,
    pending: Vec<u8>,
    pending_offset: usize,
    /// How many bytes were handed out (at most the largest `u64`).
    position: u64,
    ended: bool,
    fully_consumed: bool,
    /// Everything the download sent.
    received: Ghost<Seq<u8>>,
    /// Everything handed out.
    handed: Ghost<Seq<u8>>,
}

impl DragStreamReader {
    pub closed spec fn spec_total_size(&self) -> u64 {
        self.total_size
    }

    pub closed spec fn spec_position(&self) -> u64 {
        self.position
    }

    pub closed spec fn spec_ended(&self) -> bool {
        self.ended
    }

    pub closed spec fn spec_fully_consumed(&self) -> bool {
        self.fully_consumed
    }

    /// How many bytes were handed out (at most the largest `u64`).
    pub fn position(&self) -> (n: u64)
        ensures
            n == self.spec_position(),
    {
        self.position
    }

    /// Whether the download ended.
    pub fn ended(&self) -> (e: bool)
        ensures
            e == self.spec_ended(),
    {
        self.ended
    }

    /// Whether the whole file was read.
    pub fn fully_consumed(&self) -> (c: bool)
        ensures
            c == self.spec_fully_consumed(),
    {
        self.fully_consumed
    }

    pub closed spec fn received(&self) -> Seq<u8> {
        self.received@
    }

    pub closed spec fn handed(&self) -> Seq<u8> {
        self.handed@
    }

    /// Whether data is waiting to be handed out.
    pub closed spec fn has_pending(&self) -> bool {
        self.pending_offset < self.pending@.len()
    }

    pub closed spec fn wf(&self) -> bool {
        &&& self.pending_offset <= self.pending@.len()
        &&& self.handed@ + self.pending@.subrange(self.pending_offset as int, self.pending@.len() as int) == self.received@
        &&& self.position == if self.handed@.len() > u64::MAX {
            u64::MAX as int
        } else {
            self.handed@.len() as int
        }
        &&& self.ended ==> !self.has_pending()
    }

    pub fn new(total_size: u64) -> (r: Self)
        ensures
            r.wf(),
            r.spec_total_size() == total_size,
            r.spec_position() == 0,
            !r.spec_ended(),
            !r.spec_fully_consumed(),
            r.received() == Seq::<u8>::empty(),
            r.handed() == Seq::<u8>::empty(),
            !r.has_pending(),
    {
        let r = DragStreamReader {
            total_size,
            pending: Vec::new(),
            pending_offset: 0,
            position: 0,
            ended: false,
            fully_consumed: false,
            received: Ghost(Seq::empty()),
            handed: Ghost(Seq::empty()),
        };
        assert(r.handed@ + r.pending@.subrange(0, 0) =~= r.received@);
        r
    }

    /// Whether data is waiting to be handed out.
    pub fn pending_data(&self) -> (pending: bool)
        ensures
            pending == self.has_pending(),
    {
        self.pending_offset < self.pending.len()
    }

    /// Hands out waiting data into `out`, up to `want` bytes in all; when the whole file
    /// (of a known size) has been handed out, the download is told it was consumed.
    pub fn copy_out(&mut self, out: &mut Vec<u8>, want: usize, completion: &mut CompletionState) -> (report: Option<
        SftpStreamCompletion,
    >)
        requires
            old(self).wf(),
            old(out)@.len() < want,
        ensures
            final(self).wf(),
            final(self).spec_total_size() == old(self).spec_total_size(),
            final(self).spec_ended() == old(self).spec_ended(),
            final(self).received() == old(self).received(),
            final(out)@.len() <= want,
            exists|copied: Seq<u8>|
                final(out)@ == old(out)@ + copied && final(self).handed() == old(self).handed() + copied && (old(
                    self,
                ).has_pending() ==> copied.len() > 0 && (final(out)@.len() == want || !final(self).has_pending())) && (
                !old(self).has_pending() ==> copied.len() == 0),
            ({
                let consumed = old(self).has_pending() && final(self).spec_total_size() > 0 && final(self).spec_position()
                    >= final(self).spec_total_size();
                &&& final(self).spec_fully_consumed() == (old(self).spec_fully_consumed() || consumed)
                &&& if consumed {
                    reports_once(*old(completion), *final(completion), report) && final(completion).data_consumed
                } else {
                    *final(completion) == *old(completion) && report is None
                }
            }),
    {
        if self.pending_offset >= self.pending.len() {
            assert(out@ == out@ + Seq::<u8>::empty());
            assert(self.handed@ == self.handed@ + Seq::<u8>::empty());
            return None;
        }
        let available = self.pending.len() - self.pending_offset;
        let room = want - out.len();
        let copy_len = if available < room {
            available
        } else {
            room
        };
        let ghost before_handed = self.handed@;
        let ghost before_out = out@;
        let start = self.pending_offset;
        let n = self.pending.len();
        let mut k: usize = 0;
        while k < copy_len
            invariant
                k <= copy_len,
                n == self.pending@.len(),
                start + copy_len <= self.pending@.len(),
                out@ == before_out + self.pending@.subrange(start as int, start + k),
            decreases copy_len - k,
        {
            out.push(self.pending[start + k]);
            k += 1;
            assert(out@ =~= before_out + self.pending@.subrange(start as int, start + k));
        }
        let ghost copied = self.pending@.subrange(start as int, start + copy_len);
        self.pending_offset = start + copy_len;
        self.position = self.position.saturating_add(copy_len as u64);
        self.handed = Ghost(self.handed@ + copied);
        proof {
            assert(self.pending@.subrange(start as int, self.pending@.len() as int) =~= copied + self.pending@.subrange(
                self.pending_offset as int,
                self.pending@.len() as int,
            ));
            assert(self.handed@ + self.pending@.subrange(self.pending_offset as int, self.pending@.len() as int)
                =~= self.received@);
        }
        proof {
            let m = u64::MAX as int;
            let a = before_handed.len() as int;
            assert(self.handed@.len() == a + copy_len);
            assert(self.position == if a + copy_len > m { m } else { a + copy_len });
        }
        let mut report = None;
        if self.total_size > 0 && self.position >= self.total_size {
            self.fully_consumed = true;
            report = completion.data_consumed();
        }
        if self.pending_offset == self.pending.len() {
            assert(self.pending@.subrange(self.pending_offset as int, self.pending@.len() as int) =~= Seq::<u8>::empty());
            self.pending = Vec::new();
            self.pending_offset = 0;
            assert(self.pending@.subrange(0, 0) =~= Seq::<u8>::empty());
        }
        report
    }

    /// Takes what came while no data was waiting: new data is held to be handed out; the
    /// end of the download means all was read; an error, a cancelled drag or a lost
    /// download fail the read, and the download is told why.
    pub fn on_event(&mut self, event: StreamEvent, completion: &mut CompletionState) -> (result: (ReadStep, Option<
        SftpStreamCompletion,
    >))
        requires
            old(self).wf(),
            !old(self).has_pending(),
            !old(self).spec_ended(),
        ensures
            final(self).wf(),
            final(self).spec_total_size() == old(self).spec_total_size(),
            final(self).handed() == old(self).handed(),
            reports_once(*old(completion), *final(completion), result.1),
            match event {
                StreamEvent::Message(crate::sftp_files::SftpStreamMessage::Data(chunk)) => {
                    &&& result.0 == ReadStep::Continue
                    &&& final(self).received() == old(self).received() + chunk@
                    &&& final(self).spec_ended() == old(self).spec_ended()
                    &&& final(self).spec_fully_consumed() == old(self).spec_fully_consumed()
                    &&& final(self).has_pending() == (chunk@.len() > 0)
                    &&& *final(completion) == *old(completion)
                },
                StreamEvent::Message(crate::sftp_files::SftpStreamMessage::End) => {
                    &&& result.0 == ReadStep::Continue
                    &&& final(self).received() == old(self).received()
                    &&& final(self).spec_ended()
                    &&& final(self).spec_fully_consumed()
                    &&& final(completion).data_consumed
                },
                StreamEvent::Message(crate::sftp_files::SftpStreamMessage::Error(e)) => {
                    &&& result.0 == ReadStep::Fault
                    &&& final(self).received() == old(self).received()
                    &&& !old(completion).notified ==> result.1 == Some(SftpStreamCompletion::Failed(e))
                },
                StreamEvent::TimedOut { cancelled } => {
                    &&& result.0 == if cancelled {
                        ReadStep::Fault
                    } else {
                        ReadStep::Continue
                    }
                    &&& final(self).received() == old(self).received()
                    &&& (cancelled && !old(completion).notified ==> result.1 == Some(SftpStreamCompletion::Cancelled))
                    &&& (!cancelled ==> *final(completion) == *old(completion))
                },
                StreamEvent::Disconnected => {
                    &&& result.0 == ReadStep::Fault
                    &&& final(self).received() == old(self).received()
                    &&& !old(completion).notified ==> (result.1 matches Some(SftpStreamCompletion::Failed(e)) && e@
                        == "SFTP 下载流意外关闭"@)
                },
            },
    {
        match event {
            StreamEvent::Message(crate::sftp_files::SftpStreamMessage::Data(chunk)) => {
                let ghost c = chunk@;
                proof {
                    assert(self.pending@.subrange(self.pending_offset as int, self.pending@.len() as int) =~= Seq::<u8>::empty());
                }
                self.pending = chunk;
                self.pending_offset = 0;
                self.received = Ghost(self.received@ + c);
                assert(self.pending@.subrange(0, self.pending@.len() as int) =~= c);
                (ReadStep::Continue, None)
            },
            StreamEvent::Message(crate::sftp_files::SftpStreamMessage::End) => {
                self.ended = true;
                self.fully_consumed = true;
                let report = completion.data_consumed();
                (ReadStep::Continue, report)
            },
            StreamEvent::Message(crate::sftp_files::SftpStreamMessage::Error(error)) => {
                let report = completion.failed(error);
                (ReadStep::Fault, report)
            },
            StreamEvent::TimedOut { cancelled } => {
                if !cancelled {
                    (ReadStep::Continue, None)
                } else {
                    let report = completion.cancelled();
                    (ReadStep::Fault, report)
                }
            },
            StreamEvent::Disconnected => {
                let report = completion.failed(owned("SFTP 下载流意外关闭"));
                (ReadStep::Fault, report)
            },
        }
    }
}

/// A stream of a dragged file only tells where it is: seeking by nothing from the current
/// position, or to the current position from the start.
pub fn seek_supported(from_current: bool, from_start: bool, distance: i64, position: u64) -> (supported: bool)
    ensures
        supported == ((from_current && distance == 0) || (from_start && distance as u64 == position)),
{
    (from_current && distance == 0) || (from_start && distance as u64 == position)
}

/// A drag stream hands out exactly what the download sent, in order: what was handed out
/// is always the start of what was received, and once the download ended, all of it.
pub proof fn lemma_stream_hands_out_received(r: DragStreamReader)
    requires
        r.wf(),
    ensures
        r.handed() == r.received().take(r.handed().len() as int),
        r.spec_ended() ==> r.handed() == r.received(),
{
    assert(r.handed@ =~= r.received@.take(r.handed@.len() as int));
    if r.spec_ended() {
        assert(r.pending@.subrange(r.pending_offset as int, r.pending@.len() as int) =~= Seq::<u8>::empty());
    }
}

} // verus!
