use vstd::prelude::*;

use crate::file_names::file_stem;
use crate::sftp_files::{file_name_of_path, path_file_name};
use crate::ssh_config::opt_view;
use crate::text::{
    char_to_uppercase, chars_eq, chars_eq_str, chars_of, concat, lowercase_chars, owned, string_of, to_ascii_lowercase,
    trim, trim_chars, unicode_uppercase_char,
};

verus! {

pub const DEFAULT_COLS: u16 = 80;

pub const DEFAULT_ROWS: u16 = 24;

/// Output of a local shell is forwarded in batches of at most this many bytes (16 KiB),
/// unless one chunk alone is larger.
pub const MAX_OUTPUT_BATCH_BYTES: usize = 16384;

/// A shell the local terminal can start.
#[derive(Clone, Debug, PartialEq, Eq)]
pub struct LocalShellProfile {
    pub id: String,
    pub name: String,
    pub executable: String,
}

/// The shells of this machine and the one started by default.
#[derive(Clone, Debug)]
pub struct LocalShellProfileResult {
    pub platform: String,
    pub default_profile_id: String,
    pub profiles: Vec<LocalShellProfile>,
}

/// How a local terminal is started.
#[derive(Clone, Debug)]
pub struct LocalTerminalConfig {
    pub profile_id: String,
    pub executable: String,
    pub args: Vec<String>,
    pub working_directory: String,
    pub initial_cols: u16,
    pub initial_rows: u16,
}

/// Whether adding `incoming` bytes to a non-empty batch of `batch_len` bytes would make it
/// larger than a batch may be.
pub open spec fn batch_overflows(batch_len: nat, incoming: nat) -> bool {
    batch_len > 0 && batch_len + incoming > MAX_OUTPUT_BATCH_BYTES
}

/// Adds a chunk of shell output to the batch being collected. When the batch is not empty
/// and the chunk would make it too large, the batch is handed back to be sent and the
/// chunk starts a new one.
pub fn append_output_chunk(output_batch: &mut Vec<u8>, data: Vec<u8>) -> (ready: Option<Vec<u8>>)
    ensures
        match ready {
            Some(batch) => batch_overflows(old(output_batch)@.len(), data@.len()) && batch@ == old(output_batch)@
                && final(output_batch)@ == data@,
            None => !batch_overflows(old(output_batch)@.len(), data@.len()) && final(output_batch)@
                == old(output_batch)@ + data@,
        },
{
    let overflows = output_batch.len() > 0 && (data.len() > MAX_OUTPUT_BATCH_BYTES || output_batch.len()
        > MAX_OUTPUT_BATCH_BYTES - data.len());
    let ghost incoming = data@;
    let mut data = data;
    if overflows {
        let mut ready: Vec<u8> = Vec::new();
        core::mem::swap(output_batch, &mut ready);
        output_batch.append(&mut data);
        assert(output_batch@ =~= incoming);
        Some(ready)
    } else {
        output_batch.append(&mut data);
        None
    }
}

/// Nothing is lost or reordered by batching: the batch handed back (if any), followed by
/// the batch that is left, is the old batch followed by the chunk; a batch handed back is
/// never empty; and when the old batch and the chunk each fit the limit, so does the batch
/// that is left.
pub proof fn lemma_batching_keeps_every_byte(old_batch: Seq<u8>, data: Seq<u8>, ready: Option<Seq<u8>>, new_batch: Seq<u8>)
    requires
        match ready {
            Some(batch) => batch_overflows(old_batch.len(), data.len()) && batch == old_batch && new_batch
                == data,
            None => !batch_overflows(old_batch.len(), data.len()) && new_batch == old_batch + data,
        },
    ensures
        match ready {
            Some(batch) => batch + new_batch == old_batch + data && batch.len() > 0,
            None => new_batch == old_batch + data,
        },
        old_batch.len() <= MAX_OUTPUT_BATCH_BYTES && data.len() <= MAX_OUTPUT_BATCH_BYTES
            ==> new_batch.len() <= MAX_OUTPUT_BATCH_BYTES,
{
}

/// The name a shell is shown under: the stem of its file name with its first character in
/// upper case; `Shell` when the path has no file name.
pub open spec fn spec_shell_display_name(path: Seq<char>) -> Seq<char> {
    let stem = match path_file_name(path) {
        Some(n) => file_stem(n),
        None => "Shell"@,
    };
    if stem.len() == 0 {
        "Shell"@
    } else {
        unicode_uppercase_char(stem[0]) + stem.drop_first()
    }
}

fn stem_of(name: &[char]) -> (stem: Vec<char>)
    ensures
        stem@ == file_stem(name@),
{
    let mut i: usize = name.len();
    while i > 0 && name[i - 1] != '.'
        invariant
            i <= name@.len(),
            crate::file_names::last_dot(name@, name@.len() as int) == crate::file_names::last_dot(name@, i as int),
        decreases i,
    {
        i -= 1;
    }
    if chars_eq_str(name, "..") || i <= 1 {
        crate::text::copy_chars(name, 0, name.len())
    } else {
        crate::text::copy_chars(name, 0, i - 1)
    }
}

pub fn shell_display_name(path: &str) -> (name: String)
    ensures
        name@ == spec_shell_display_name(path@),
{
    let chars = chars_of(path);
    let stem = match file_name_of_path(chars.as_slice()) {
        Some(n) => stem_of(n.as_slice()),
        None => chars_of("Shell"),
    };
    if stem.len() == 0 {
        return owned("Shell");
    }
    let first = char_to_uppercase(stem[0]);
    let rest = crate::text::copy_chars(stem.as_slice(), 1, stem.len());
    assert(rest@ =~= stem@.drop_first());
    concat(first.as_str(), string_of(rest.as_slice()).as_str())
}

/// Login shells get the flag that makes them read the login profile: `--login` for bash
/// and fish, `-l` for zsh (by the file name of the executable, in ASCII lower case).
pub open spec fn spec_login_args(executable: Seq<char>) -> Seq<Seq<char>> {
    let name = match path_file_name(executable) {
        Some(n) => to_ascii_lowercase(n),
        None => Seq::<char>::empty(),
    };
    if name == "bash"@ || name == "fish"@ {
        seq!["--login"@]
    } else if name == "zsh"@ {
        seq!["-l"@]
    } else {
        Seq::<Seq<char>>::empty()
    }
}

pub open spec fn views(strings: Seq<String>) -> Seq<Seq<char>> {
    strings.map_values(|s: String| s@)
}

pub fn login_args(executable: &str) -> (args: Vec<String>)
    ensures
        views(args@) == spec_login_args(executable@),
{
    let chars = chars_of(executable);
    let name = match file_name_of_path(chars.as_slice()) {
        Some(n) => lowercase_chars(n.as_slice()),
        None => Vec::new(),
    };
    let mut args: Vec<String> = Vec::new();
    if chars_eq_str(name.as_slice(), "bash") || chars_eq_str(name.as_slice(), "fish") {
        args.push(owned("--login"));
    } else if chars_eq_str(name.as_slice(), "zsh") {
        args.push(owned("-l"));
    }
    assert(views(args@) =~= spec_login_args(executable@));
    args
}

/// A requested terminal size: the default when none is given, between 2 and 1000.
pub open spec fn spec_initial_dimension(value: Option<u16>, default: u16) -> u16 {
    let v = match value {
        Some(v) => v,
        None => default,
    };
    if v < 2 {
        2
    } else if v > 1000 {
        1000
    } else {
        v
    }
}

pub fn initial_dimension(value: Option<u16>, default: u16) -> (dimension: u16)
    ensures
        dimension == spec_initial_dimension(value, default),
{
    let v = match value {
        Some(v) => v,
        None => default,
    };
    if v < 2 {
        2
    } else if v > 1000 {
        1000
    } else {
        v
    }
}

/// The profile a local session asks for: its trimmed choice, or the default when it gives
/// none or an empty one.
pub open spec fn spec_requested_profile_id(local_profile: Option<Seq<char>>, default_id: Seq<char>) -> Seq<char> {
    match local_profile {
        Some(p) => if trim(p).len() > 0 {
            trim(p)
        } else {
            default_id
        },
        None => default_id,
    }
}

pub fn requested_profile_id(local_profile: &Option<String>, default_id: &str) -> (id: String)
    ensures
        id@ == spec_requested_profile_id(opt_view(*local_profile), default_id@),
{
    match local_profile {
        Some(p) => {
            let t = trim_chars(chars_of(p.as_str()).as_slice());
            if t.len() > 0 {
                string_of(t.as_slice())
            } else {
                owned(default_id)
            }
        },
        None => owned(default_id),
    }
}

/// Position of the first profile with the given id.
pub fn find_profile(profiles: &[LocalShellProfile], id: &str) -> (index: Option<usize>)
    ensures
        match index {
            Some(i) => i < profiles@.len() && profiles@[i as int].id@ == id@ && forall|k: int|
                0 <= k < i ==> #[trigger] profiles@[k].id@ != id@,
            None => forall|k: int| 0 <= k < profiles@.len() ==> #[trigger] profiles@[k].id@ != id@,
        },
{
    let target = chars_of(id);
    let mut i: usize = 0;
    while i < profiles.len()
        invariant
            i <= profiles@.len(),
            target@ == id@,
            forall|k: int| 0 <= k < i ==> #[trigger] profiles@[k].id@ != id@,
        decreases profiles@.len() - i,
    {
        if chars_eq(chars_of(profiles[i].id.as_str()).as_slice(), target.as_slice()) {
            return Some(i);
        }
        i += 1;
    }
    None
}

/// The message for a requested profile that is not offered.
pub fn unsupported_profile_message(requested: &str) -> (message: String)
    ensures
        message@ == "不支持的本地 Shell："@ + requested@,
{
    concat("不支持的本地 Shell：", requested)
}


/// The shells tried, in order, when neither the environment nor the account names one.
pub open spec fn unix_shell_candidates(macos: bool) -> Seq<Seq<char>> {
    if macos {
        seq!["/bin/zsh"@, "/bin/bash"@, "/bin/sh"@]
    } else {
        seq!["/bin/bash"@, "/bin/sh"@, "/usr/bin/sh"@]
    }
}

/// The first candidate shell that is an executable file (`executable[i]` tells for the
/// `i`-th), else `/bin/sh`.
pub open spec fn spec_fallback_unix_shell(macos: bool, executable: Seq<bool>) -> Seq<char> {
    let c = unix_shell_candidates(macos);
    if executable[0] {
        c[0]
    } else if executable[1] {
        c[1]
    } else if executable[2] {
        c[2]
    } else {
        "/bin/sh"@
    }
}

pub fn fallback_unix_shell(macos: bool, executable: &[bool]) -> (shell: String)
    requires
        executable@.len() == 3,
    ensures
        shell@ == spec_fallback_unix_shell(macos, executable@),
{
    let (a, b, c) = if macos {
        ("/bin/zsh", "/bin/bash", "/bin/sh")
    } else {
        ("/bin/bash", "/bin/sh", "/usr/bin/sh")
    };
    if executable[0] {
        owned(a)
    } else if executable[1] {
        owned(b)
    } else if executable[2] {
        owned(c)
    } else {
        owned("/bin/sh")
    }
}

/// The shells offered on a Unix system: one profile, `default`, for the user's shell,
/// named after it.
pub fn shell_profiles(shell: &str, macos: bool) -> (result: LocalShellProfileResult)
    ensures
        result.platform@ == if macos {
            "macos"@
        } else {
            "linux"@
        },
        result.default_profile_id@ == "default"@,
        result.profiles@.len() == 1,
        result.profiles@[0].id@ == "default"@,
        result.profiles@[0].name@ == spec_shell_display_name(shell@),
        result.profiles@[0].executable@ == shell@,
{
    let profile = LocalShellProfile { id: owned("default"), name: shell_display_name(shell), executable: owned(shell) };
    LocalShellProfileResult {
        platform: if macos {
            owned("macos")
        } else {
            owned("linux")
        },
        default_profile_id: owned("default"),
        profiles: vec![profile],
    }
}

/// A terminal size from the front end, kept between 1 and 1000 cells.
pub fn pty_dimension(value: u32) -> (cells: u16)
    ensures
        cells == if value < 1 {
            1
        } else if value > 1000 {
            1000
        } else {
            value
        },
{
    if value < 1 {
        1
    } else if value > 1000 {
        1000
    } else {
        value as u16
    }
}

/// Why a local terminal closed: the shell's exit code when it exited, else that it was
/// closed.
pub fn local_close_reason(exit_code: Option<u32>) -> (reason: String)
    ensures
        reason@ == match exit_code {
            Some(code) => "本地 Shell 已退出，退出码 "@ + crate::text::decimal(code as nat),
            None => "本地 Shell 已关闭"@,
        },
{
    match exit_code {
        Some(code) => concat("本地 Shell 已退出，退出码 ", crate::text::decimal_string(code as u64).as_str()),
        None => owned("本地 Shell 已关闭"),
    }
}

} // verus!
