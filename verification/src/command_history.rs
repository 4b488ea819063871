use vstd::prelude::*;

use crate::text::{
    char_is_control, chars_of, concat, copy_chars, decimal, decimal_string, is_control, owned, string_of,
    trim, trim_chars,
};

verus! {

pub const SCHEMA_VERSION: i64 = 1;

pub const DEFAULT_HISTORY_LIMIT: usize = 1000;

pub const MAX_HISTORY_LIMIT: usize = 5000;

pub const MAX_COMMAND_CHARS: usize = 4096;

pub const MAX_SOURCE_CHARS: usize = 64;

pub const MAX_PROTOCOL_CHARS: usize = 32;

pub const MAX_HOST_CHARS: usize = 255;

pub const MAX_USERNAME_CHARS: usize = 255;

/// Longest scope key kept, in characters.
pub const MAX_SCOPE_KEY_CHARS: usize = 256;

/// A remembered command, as the history returns it.
#[derive(Clone, Debug, PartialEq, Eq)]
pub struct CommandHistoryEntry {
    pub id: i64,
    pub cmd: String,
    pub count: u64,
    pub last_used_at: u64,
}

/// A stored integer read as a count: negative values read as 0.
pub open spec fn nonnegative(v: i64) -> u64 {
    if v < 0 {
        0
    } else {
        v as u64
    }
}

/// The entry for a stored row; a negative use count or time reads as 0.
pub fn entry_from_row(id: i64, cmd: String, use_count: i64, last_used_at: i64) -> (entry: CommandHistoryEntry)
    ensures
        entry.id == id,
        entry.cmd == cmd,
        entry.count == nonnegative(use_count),
        entry.last_used_at == nonnegative(last_used_at),
{
    CommandHistoryEntry {
        id,
        cmd,
        count: if use_count < 0 {
            0
        } else {
            use_count as u64
        },
        last_used_at: if last_used_at < 0 {
            0
        } else {
            last_used_at as u64
        },
    }
}

/// The first `n` characters of `s` (all of them when it is shorter).
pub open spec fn take_chars(s: Seq<char>, n: nat) -> Seq<char> {
    if s.len() <= n {
        s
    } else {
        s.take(n as int)
    }
}

fn take_prefix(chars: &[char], n: usize) -> (out: Vec<char>)
    ensures
        out@ == take_chars(chars@, n as nat),
{
    if chars.len() <= n {
        let out = copy_chars(chars, 0, chars.len());
        assert(out@ =~= chars@);
        out
    } else {
        copy_chars(chars, 0, n)
    }
}

/// The scope a command is recorded under: trimmed and cut to 256 characters, `global` when
/// none or an empty one is given.
pub open spec fn spec_normalize_scope_key(scope_key: Option<Seq<char>>) -> Seq<char> {
    let value = match scope_key {
        Some(s) => trim(s),
        None => Seq::<char>::empty(),
    };
    if value.len() == 0 {
        "global"@
    } else {
        take_chars(value, MAX_SCOPE_KEY_CHARS as nat)
    }
}

pub open spec fn optional_view(value: Option<String>) -> Option<Seq<char>> {
    match value {
        Some(s) => Some(s@),
        None => None,
    }
}

pub fn normalize_scope_key(scope_key: Option<String>) -> (key: String)
    ensures
        key@ == spec_normalize_scope_key(optional_view(scope_key)),
{
    let value = match &scope_key {
        Some(s) => trim_chars(chars_of(s.as_str()).as_slice()),
        None => Vec::new(),
    };
    if value.len() == 0 {
        owned("global")
    } else {
        string_of(take_prefix(value.as_slice(), MAX_SCOPE_KEY_CHARS).as_slice())
    }
}

/// Optional metadata trimmed and cut to `max_chars` characters; nothing when it is absent
/// or empty after that.
pub open spec fn spec_normalize_metadata(value: Option<Seq<char>>, max_chars: nat) -> Option<Seq<char>> {
    match value {
        Some(s) => {
            let t = take_chars(trim(s), max_chars);
            if t.len() == 0 {
                None
            } else {
                Some(t)
            }
        },
        None => None,
    }
}

pub fn normalize_metadata(value: Option<String>, max_chars: usize) -> (normalized: Option<String>)
    ensures
        optional_view(normalized) == spec_normalize_metadata(optional_view(value), max_chars as nat),
{
    match value {
        Some(s) => {
            let t = take_prefix(trim_chars(chars_of(s.as_str()).as_slice()).as_slice(), max_chars);
            if t.len() == 0 {
                None
            } else {
                Some(string_of(t.as_slice()))
            }
        },
        None => None,
    }
}

/// Why a command is not recorded, checked in this order: it is empty after trimming; it is
/// longer than 4096 characters; it holds a line break; it holds a control character other
/// than tab.
pub open spec fn spec_command_error(command: Seq<char>) -> Option<Seq<char>> {
    let c = trim(command);
    if c.len() == 0 {
        Some("Command history entry cannot be empty"@)
    } else if c.len() > MAX_COMMAND_CHARS {
        Some("Command history entry exceeds "@ + decimal(MAX_COMMAND_CHARS as nat) + " characters"@)
    } else if c.contains('\r') || c.contains('\n') {
        Some("Multiline commands are not stored in command history"@)
    } else if exists|i: int| 0 <= i < c.len() && #[trigger] is_control(c[i]) && c[i] != '\t' {
        Some("Command history entry contains control characters"@)
    } else {
        None
    }
}

pub fn validate_command(command: String) -> (result: Result<String, String>)
    ensures
        match result {
            Ok(c) => spec_command_error(command@) is None && c@ == trim(command@),
            Err(e) => spec_command_error(command@) == Some(e@),
        },
{
    let c = trim_chars(chars_of(command.as_str()).as_slice());
    if c.len() == 0 {
        return Err(owned("Command history entry cannot be empty"));
    }
    if c.len() > MAX_COMMAND_CHARS {
        let head = concat("Command history entry exceeds ", decimal_string(MAX_COMMAND_CHARS as u64).as_str());
        return Err(concat(head.as_str(), " characters"));
    }
    let mut i: usize = 0;
    while i < c.len()
        invariant
            i <= c@.len(),
            c@ == trim(command@),
            0 < c@.len() <= MAX_COMMAND_CHARS,
            forall|k: int| 0 <= k < i ==> c@[k] != '\r' && c@[k] != '\n',
        decreases c@.len() - i,
    {
        if c[i] == '\r' || c[i] == '\n' {
            assert(c@[i as int] == '\r' ==> c@.contains('\r'));
            assert(c@[i as int] == '\n' ==> c@.contains('\n'));
            return Err(owned("Multiline commands are not stored in command history"));
        }
        i += 1;
    }
    assert(!c@.contains('\r') && !c@.contains('\n'));
    let mut k: usize = 0;
    while k < c.len()
        invariant
            k <= c@.len(),
            c@ == trim(command@),
            0 < c@.len() <= MAX_COMMAND_CHARS,
            !c@.contains('\r') && !c@.contains('\n'),
            forall|j: int| 0 <= j < k ==> !(#[trigger] is_control(c@[j]) && c@[j] != '\t'),
        decreases c@.len() - k,
    {
        if char_is_control(c[k]) && c[k] != '\t' {
            assert(is_control(c@[k as int]) && c@[k as int] != '\t');
            return Err(owned("Command history entry contains control characters"));
        }
        k += 1;
    }
    Ok(string_of(c.as_slice()))
}

/// How many entries a request may return or keep: 1000 when not given, between 1 and 5000.
pub open spec fn spec_clamp_limit(limit: Option<usize>) -> usize {
    let v = match limit {
        Some(l) => l,
        None => DEFAULT_HISTORY_LIMIT,
    };
    if v < 1 {
        1
    } else if v > MAX_HISTORY_LIMIT {
        MAX_HISTORY_LIMIT
    } else {
        v
    }
}

pub fn clamp_limit(limit: Option<usize>) -> (clamped: usize)
    ensures
        clamped == spec_clamp_limit(limit),
{
    let v = match limit {
        Some(l) => l,
        None => DEFAULT_HISTORY_LIMIT,
    };
    if v < 1 {
        1
    } else if v > MAX_HISTORY_LIMIT {
        MAX_HISTORY_LIMIT
    } else {
        v
    }
}

/// What opening the history database does with the schema version it finds.
#[derive(Clone, Copy, Debug, PartialEq, Eq, Structural)]
pub enum MigrationPlan {
    /// The schema is current.
    UpToDate,
    /// An empty database: create the table and indexes, then record the version.
    CreateSchema,
    /// Record the current version without creating anything.
    StampVersion,
}

/// A database whose schema is newer than this one is refused, with both versions named.
pub fn plan_migration(version: i64) -> (plan: Result<MigrationPlan, String>)
    ensures
        match plan {
            Ok(MigrationPlan::UpToDate) => version == SCHEMA_VERSION,
            Ok(MigrationPlan::CreateSchema) => version == 0,
            Ok(MigrationPlan::StampVersion) => version < SCHEMA_VERSION && version != 0,
            Err(e) => version > SCHEMA_VERSION && e@ == "Command history database schema "@ + decimal(
                version as nat,
            ) + " is newer than supported schema "@ + decimal(SCHEMA_VERSION as nat),
        },
{
    if version > SCHEMA_VERSION {
        let a = concat("Command history database schema ", decimal_string(version as u64).as_str());
        let b = concat(a.as_str(), " is newer than supported schema ");
        return Err(concat(b.as_str(), decimal_string(SCHEMA_VERSION as u64).as_str()));
    }
    if version == SCHEMA_VERSION {
        Ok(MigrationPlan::UpToDate)
    } else if version == 0 {
        Ok(MigrationPlan::CreateSchema)
    } else {
        Ok(MigrationPlan::StampVersion)
    }
}


/// A command ready to be recorded: validated, with its lower-case form for searching, and
/// its metadata normalised.
#[derive(Clone, Debug)]
pub struct HistoryRecord {
    pub command: String,
    pub normalized: String,
    pub source: String,
    pub protocol: Option<String>,
    pub host: Option<String>,
    pub username: Option<String>,
    pub scope_key: String,
    pub max: usize,
}

/// The record for a command: the source defaults to `terminal`, protocol, host and user
/// name are cut to 32, 255 and 255 characters, and `max` (the entries kept per scope) is
/// clamped like a limit.
pub open spec fn record_matches(
    record: HistoryRecord,
    command: Seq<char>,
    source: Option<Seq<char>>,
    protocol: Option<Seq<char>>,
    host: Option<Seq<char>>,
    username: Option<Seq<char>>,
    scope_key: Option<Seq<char>>,
    max: Option<usize>,
) -> bool {
    &&& record.command@ == trim(command)
    &&& record.normalized@ == crate::text::unicode_lowercase(trim(command))
    &&& record.source@ == match spec_normalize_metadata(source, MAX_SOURCE_CHARS as nat) {
        Some(s) => s,
        None => "terminal"@,
    }
    &&& optional_view(record.protocol) == spec_normalize_metadata(protocol, MAX_PROTOCOL_CHARS as nat)
    &&& optional_view(record.host) == spec_normalize_metadata(host, MAX_HOST_CHARS as nat)
    &&& optional_view(record.username) == spec_normalize_metadata(username, MAX_USERNAME_CHARS as nat)
    &&& record.scope_key@ == spec_normalize_scope_key(scope_key)
    &&& record.max == spec_clamp_limit(max)
}

/// Checks and normalises what is recorded for a command; a command that cannot be
/// recorded is refused with the reason `validate_command` gives.
pub fn prepare_history_record(
    command: String,
    source: Option<String>,
    protocol: Option<String>,
    host: Option<String>,
    username: Option<String>,
    scope_key: Option<String>,
    max: Option<usize>,
) -> (record: Result<HistoryRecord, String>)
    ensures
        match record {
            Ok(r) => spec_command_error(command@) is None && record_matches(
                r,
                command@,
                optional_view(source),
                optional_view(protocol),
                optional_view(host),
                optional_view(username),
                optional_view(scope_key),
                max,
            ),
            Err(e) => spec_command_error(command@) == Some(e@),
        },
{
    let ghost (command_v, source_v, protocol_v, host_v, username_v, scope_v) = (
        command@,
        optional_view(source),
        optional_view(protocol),
        optional_view(host),
        optional_view(username),
        optional_view(scope_key),
    );
    let command = validate_command(command)?;
    let normalized = crate::text::to_lowercase(command.as_str());
    let source = match normalize_metadata(source, MAX_SOURCE_CHARS) {
        Some(s) => s,
        None => owned("terminal"),
    };
    let record = HistoryRecord {
        command,
        normalized,
        source,
        protocol: normalize_metadata(protocol, MAX_PROTOCOL_CHARS),
        host: normalize_metadata(host, MAX_HOST_CHARS),
        username: normalize_metadata(username, MAX_USERNAME_CHARS),
        scope_key: normalize_scope_key(scope_key),
        max: clamp_limit(max),
    };
    assert(record_matches(record, command_v, source_v, protocol_v, host_v, username_v, scope_v, max));
    Ok(record)
}

} // verus!
