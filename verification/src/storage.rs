use vstd::prelude::*;

use crate::ssh_config::opt_view;
use crate::text::{chars_eq_str, chars_of, concat, decimal, decimal_string, owned, string_of, to_ascii_lowercase, trim, trim_chars, trimmed_lowercase};

verus! {

/// A saved connection, as stored on disk (secrets encrypted).
#[derive(Clone, Debug)]
pub struct SessionConfig {
    pub id: String,
    pub name: String,
    pub protocol: Option<String>,
    pub host: String,
    pub port: u16,
    pub username: String,
    pub auth_type: String,
    pub password: Option<String>,
    pub private_key_path: Option<String>,
    pub passphrase: Option<String>,
    pub remarks: Option<String>,
    pub group: Option<String>,
    pub term_type: Option<String>,
    pub encoding: Option<String>,
    pub font_size: Option<u16>,
    pub font_family: Option<String>,
    pub connect_timeout: Option<u64>,
    pub keep_alive_interval: Option<u64>,
    pub last_connected: Option<u64>,
    pub local_forward: Option<String>,
    pub remote_forward: Option<String>,
    pub proxy_type: Option<String>,
    pub proxy_host: Option<String>,
    pub proxy_port: Option<u16>,
    pub proxy_auth: Option<bool>,
    pub proxy_user: Option<String>,
    pub proxy_pass: Option<String>,
    pub jump_host: Option<String>,
    pub jump_port: Option<u16>,
    pub jump_username: Option<String>,
    pub jump_auth_type: Option<String>,
    pub jump_password: Option<String>,
    pub jump_private_key_path: Option<String>,
    pub jump_passphrase: Option<String>,
    pub login_script: Option<String>,
    pub serial_path: Option<String>,
    pub baud_rate: Option<u32>,
    pub data_bits: Option<u8>,
    pub stop_bits: Option<String>,
    pub parity: Option<String>,
    pub flow_control: Option<String>,
}

impl SessionConfig {
    /// A field-for-field copy.
    pub fn duplicate(&self) -> (copy: SessionConfig)
        ensures
            copy == *self,
    {
        SessionConfig {
            id: self.id.clone(),
            name: self.name.clone(),
            protocol: crate::sftp_files::copy_optional(&self.protocol),
            host: self.host.clone(),
            port: self.port,
            username: self.username.clone(),
            auth_type: self.auth_type.clone(),
            password: crate::sftp_files::copy_optional(&self.password),
            private_key_path: crate::sftp_files::copy_optional(&self.private_key_path),
            passphrase: crate::sftp_files::copy_optional(&self.passphrase),
            remarks: crate::sftp_files::copy_optional(&self.remarks),
            group: crate::sftp_files::copy_optional(&self.group),
            term_type: crate::sftp_files::copy_optional(&self.term_type),
            encoding: crate::sftp_files::copy_optional(&self.encoding),
            font_size: self.font_size,
            font_family: crate::sftp_files::copy_optional(&self.font_family),
            connect_timeout: self.connect_timeout,
            keep_alive_interval: self.keep_alive_interval,
            last_connected: self.last_connected,
            local_forward: crate::sftp_files::copy_optional(&self.local_forward),
            remote_forward: crate::sftp_files::copy_optional(&self.remote_forward),
            proxy_type: crate::sftp_files::copy_optional(&self.proxy_type),
            proxy_host: crate::sftp_files::copy_optional(&self.proxy_host),
            proxy_port: self.proxy_port,
            proxy_auth: self.proxy_auth,
            proxy_user: crate::sftp_files::copy_optional(&self.proxy_user),
            proxy_pass: crate::sftp_files::copy_optional(&self.proxy_pass),
            jump_host: crate::sftp_files::copy_optional(&self.jump_host),
            jump_port: self.jump_port,
            jump_username: crate::sftp_files::copy_optional(&self.jump_username),
            jump_auth_type: crate::sftp_files::copy_optional(&self.jump_auth_type),
            jump_password: crate::sftp_files::copy_optional(&self.jump_password),
            jump_private_key_path: crate::sftp_files::copy_optional(&self.jump_private_key_path),
            jump_passphrase: crate::sftp_files::copy_optional(&self.jump_passphrase),
            login_script: crate::sftp_files::copy_optional(&self.login_script),
            serial_path: crate::sftp_files::copy_optional(&self.serial_path),
            baud_rate: self.baud_rate,
            data_bits: self.data_bits,
            stop_bits: crate::sftp_files::copy_optional(&self.stop_bits),
            parity: crate::sftp_files::copy_optional(&self.parity),
            flow_control: crate::sftp_files::copy_optional(&self.flow_control),
        }
    }
}

/// A saved port forward of a session.
#[derive(Clone, Debug)]
pub struct TunnelConfig {
    pub id: String,
    pub session_id: String,
    pub name: String,
    pub mode: String,
    pub listen_host: String,
    pub listen_port: u16,
    pub target_host: Option<String>,
    pub target_port: Option<u16>,
    pub server_alive_interval: u64,
    pub allow_public_bind: bool,
    pub created_at: u64,
    pub updated_at: u64,
}

/// A saved command snippet.
#[derive(Clone, Debug)]
pub struct CommandKnowledgeEntry {
    pub id: String,
    pub title: String,
    pub command: String,
    pub trigger: Option<String>,
    pub tags: Vec<String>,
    pub description: Option<String>,
    pub favorite: bool,
    pub safety_level: String,
    pub execution_policy: String,
    pub usage_count: u64,
    pub last_used_at: Option<u64>,
    pub created_at: u64,
    pub updated_at: u64,
    pub legacy_source: Option<String>,
}

/// The stored collection of command snippets.
#[derive(Clone, Debug)]
pub struct CommandKnowledgeStorageData {
    pub schema_version: u16,
    pub entries: Vec<CommandKnowledgeEntry>,
}

impl Default for CommandKnowledgeStorageData {
    fn default() -> (data: Self)
        ensures
            data.schema_version == 1,
            data.entries@.len() == 0,
    {
        CommandKnowledgeStorageData { schema_version: 1, entries: Vec::new() }
    }
}

/// Calls `uuid::Uuid::new_v4` and formats it; the id is random, so only its length (the 36
/// characters of the hyphenated form) is claimed.
#[verifier::external_body]
pub(crate) fn fresh_uuid() -> (id: String)
    ensures
        id@.len() == 36,
{
    uuid::Uuid::new_v4().to_string()
}

/// Optional text trimmed; nothing when it is absent or blank.
pub open spec fn spec_optional_text(value: Option<Seq<char>>) -> Option<Seq<char>> {
    match value {
        Some(s) => if trim(s).len() == 0 {
            None
        } else {
            Some(trim(s))
        },
        None => None,
    }
}

pub fn normalize_optional_text(value: Option<String>) -> (normalized: Option<String>)
    ensures
        opt_view(normalized) == spec_optional_text(opt_view(value)),
{
    match value {
        Some(raw) => {
            let t = trim_chars(chars_of(raw.as_str()).as_slice());
            if t.len() == 0 {
                None
            } else {
                Some(string_of(t.as_slice()))
            }
        },
        None => None,
    }
}

/// The tunnel modes: local, remote and dynamic, in any case and padding.
pub open spec fn spec_normalize_mode(mode: Seq<char>) -> Option<Seq<char>> {
    let m = to_ascii_lowercase(trim(mode));
    if m == "local"@ || m == "remote"@ || m == "dynamic"@ {
        Some(m)
    } else {
        None
    }
}

pub fn normalize_mode(mode: &str) -> (result: Result<String, String>)
    ensures
        match result {
            Ok(m) => spec_normalize_mode(mode@) == Some(m@),
            Err(e) => spec_normalize_mode(mode@) is None && e@
                == "Unsupported tunnel mode; use local, remote, or dynamic"@,
        },
{
    let m = trimmed_lowercase(mode);
    let s = m.as_slice();
    if chars_eq_str(s, "local") || chars_eq_str(s, "remote") || chars_eq_str(s, "dynamic") {
        Ok(string_of(s))
    } else {
        Err(owned("Unsupported tunnel mode; use local, remote, or dynamic"))
    }
}

/// Why a tunnel cannot be saved, checked in this order: it belongs to no session; its mode
/// is unknown; it has no listen port; a local or remote tunnel has no target host, or no
/// target port.
pub open spec fn spec_tunnel_error(c: TunnelConfig) -> Option<Seq<char>> {
    if trim(c.session_id@).len() == 0 {
        Some("Tunnel config must belong to a saved session"@)
    } else if spec_normalize_mode(c.mode@) is None {
        Some("Unsupported tunnel mode; use local, remote, or dynamic"@)
    } else if c.listen_port == 0 {
        Some("Tunnel listen port is required"@)
    } else if spec_normalize_mode(c.mode@) != Some("dynamic"@) && spec_optional_text(opt_view(c.target_host)) is None {
        Some("Target host is required for local and remote tunnels"@)
    } else if spec_normalize_mode(c.mode@) != Some("dynamic"@) && match c.target_port {
        Some(p) => p == 0,
        None => true,
    } {
        Some("Target port is required for local and remote tunnels"@)
    } else {
        None
    }
}

/// A keep-alive interval: 30 seconds when unset (0), else between 10 and 120.
pub open spec fn spec_alive_interval(v: u64) -> u64 {
    if v == 0 {
        30
    } else if v < 10 {
        10
    } else if v > 120 {
        120
    } else {
        v
    }
}

/// The saved form of a tunnel that has no error: trimmed id (`fresh_id` when blank), session
/// and name (a blank name becomes `host:port [mode]` from the values given), the mode in
/// lower case, listen host `127.0.0.1` when blank, the keep-alive interval bounded, the
/// target trimmed (dropped for dynamic tunnels), the creation time kept from the stored
/// tunnel, else from the one given, else `now`, and `now` as the time of the change.
pub open spec fn tunnel_normalized(
    out: TunnelConfig,
    c: TunnelConfig,
    existing_created_at: Option<u64>,
    fresh_id: Seq<char>,
    now: u64,
) -> bool {
    let mode = spec_normalize_mode(c.mode@).unwrap();
    &&& out.id@ == if trim(c.id@).len() == 0 {
        fresh_id
    } else {
        trim(c.id@)
    }
    &&& out.session_id@ == trim(c.session_id@)
    &&& out.name@ == if trim(c.name@).len() == 0 {
        c.listen_host@ + ":"@ + decimal(c.listen_port as nat) + " ["@ + c.mode@ + "]"@
    } else {
        trim(c.name@)
    }
    &&& out.mode@ == mode
    &&& out.listen_host@ == if trim(c.listen_host@).len() == 0 {
        "127.0.0.1"@
    } else {
        trim(c.listen_host@)
    }
    &&& out.listen_port == c.listen_port
    &&& out.server_alive_interval == spec_alive_interval(c.server_alive_interval)
    &&& out.allow_public_bind == c.allow_public_bind
    &&& if mode == "dynamic"@ {
        out.target_host is None && out.target_port is None
    } else {
        opt_view(out.target_host) == spec_optional_text(opt_view(c.target_host)) && out.target_port == c.target_port
    }
    &&& out.created_at == match existing_created_at {
        Some(t) => t,
        None => if c.created_at == 0 {
            now
        } else {
            c.created_at
        },
    }
    &&& out.updated_at == now
}

/// Normalises a tunnel with the given fresh id and time; see `tunnel_normalized`.
pub fn normalize_tunnel_config_at(
    config: TunnelConfig,
    existing_created_at: Option<u64>,
    fresh_id: String,
    now: u64,
) -> (result: Result<TunnelConfig, String>)
    ensures
        match result {
            Ok(out) => spec_tunnel_error(config) is None && tunnel_normalized(
                out,
                config,
                existing_created_at,
                fresh_id@,
                now,
            ),
            Err(e) => spec_tunnel_error(config) == Some(e@),
        },
{
    let id_t = trim_chars(chars_of(config.id.as_str()).as_slice());
    let id = if id_t.len() == 0 {
        fresh_id
    } else {
        string_of(id_t.as_slice())
    };
    let session_t = trim_chars(chars_of(config.session_id.as_str()).as_slice());
    if session_t.len() == 0 {
        return Err(owned("Tunnel config must belong to a saved session"));
    }
    let name_t = trim_chars(chars_of(config.name.as_str()).as_slice());
    let name = if name_t.len() == 0 {
        let a = concat(config.listen_host.as_str(), ":");
        let b = concat(a.as_str(), decimal_string(config.listen_port as u64).as_str());
        let b = concat(b.as_str(), " [");
        let b = concat(b.as_str(), config.mode.as_str());
        concat(b.as_str(), "]")
    } else {
        string_of(name_t.as_slice())
    };
    let mode = normalize_mode(config.mode.as_str())?;
    let host_t = trim_chars(chars_of(config.listen_host.as_str()).as_slice());
    let listen_host = if host_t.len() == 0 {
        owned("127.0.0.1")
    } else {
        string_of(host_t.as_slice())
    };
    if config.listen_port == 0 {
        return Err(owned("Tunnel listen port is required"));
    }
    let interval = if config.server_alive_interval == 0 {
        30
    } else if config.server_alive_interval < 10 {
        10
    } else if config.server_alive_interval > 120 {
        120
    } else {
        config.server_alive_interval
    };
    let dynamic = chars_eq_str(chars_of(mode.as_str()).as_slice(), "dynamic");
    let (target_host, target_port) = if dynamic {
        (None, None)
    } else {
        let th = normalize_optional_text(config.target_host);
        if th.is_none() {
            return Err(owned("Target host is required for local and remote tunnels"));
        }
        let zero_port = match config.target_port {
            Some(p) => p == 0,
            None => true,
        };
        if zero_port {
            return Err(owned("Target port is required for local and remote tunnels"));
        }
        (th, config.target_port)
    };
    let created_at = match existing_created_at {
        Some(t) => t,
        None => if config.created_at == 0 {
            now
        } else {
            config.created_at
        },
    };
    let out = TunnelConfig {
        id,
        session_id: string_of(session_t.as_slice()),
        name,
        mode,
        listen_host,
        listen_port: config.listen_port,
        target_host,
        target_port,
        server_alive_interval: interval,
        allow_public_bind: config.allow_public_bind,
        created_at,
        updated_at: now,
    };
    Ok(out)
}

/// Normalises a tunnel before it is saved, with a fresh random id when it has none and the
/// current time; which id and time those are is left open.
pub fn normalize_tunnel_config(config: TunnelConfig, existing_created_at: Option<u64>) -> (result: Result<
    TunnelConfig,
    String,
>)
    ensures
        match result {
            Ok(out) => spec_tunnel_error(config) is None && exists|id: Seq<char>, now: u64|
                id.len() == 36 && tunnel_normalized(out, config, existing_created_at, id, now),
            Err(e) => spec_tunnel_error(config) == Some(e@),
        },
{
    let id = fresh_uuid();
    let now = crate::clock::now_millis();
    let ghost idv = id@;
    let result = normalize_tunnel_config_at(config, existing_created_at, id, now);
    proof {
        if result is Ok {
            assert(tunnel_normalized(result->Ok_0, config, existing_created_at, idv, now));
        }
    }
    result
}


/// The trimmed tags, blank ones dropped, in order.
pub open spec fn spec_normalize_tags(tags: Seq<String>) -> Seq<Seq<char>>
    decreases tags.len(),
{
    if tags.len() == 0 {
        seq![]
    } else {
        let t = trim(tags.last()@);
        spec_normalize_tags(tags.drop_last()) + if t.len() == 0 {
            Seq::<Seq<char>>::empty()
        } else {
            seq![t]
        }
    }
}

pub open spec fn string_views(strings: Seq<String>) -> Seq<Seq<char>> {
    strings.map_values(|s: String| s@)
}

fn normalize_tags(tags: Vec<String>) -> (out: Vec<String>)
    ensures
        string_views(out@) == spec_normalize_tags(tags@),
{
    let mut out: Vec<String> = Vec::new();
    let mut i: usize = 0;
    while i < tags.len()
        invariant
            i <= tags@.len(),
            string_views(out@) == spec_normalize_tags(tags@.take(i as int)),
        decreases tags@.len() - i,
    {
        assert(tags@.take(i + 1).drop_last() =~= tags@.take(i as int));
        let t = trim_chars(chars_of(tags[i].as_str()).as_slice());
        if t.len() > 0 {
            out.push(string_of(t.as_slice()));
        }
        i += 1;
        assert(string_views(out@) =~= spec_normalize_tags(tags@.take(i as int)));
    }
    assert(tags@.take(tags@.len() as int) =~= tags@);
    out
}

/// A snippet's safety level: `sensitive` or `dangerous` as given (after trimming), else
/// `normal`.
pub open spec fn spec_safety_level(level: Seq<char>) -> Seq<char> {
    let t = trim(level);
    if t == "sensitive"@ {
        "sensitive"@
    } else if t == "dangerous"@ {
        "dangerous"@
    } else {
        "normal"@
    }
}

/// A snippet's execution policy: one of the two explicit policies as given, else the one
/// its safety level calls for (dangerous blocks direct execution, sensitive asks first,
/// normal only inserts).
pub open spec fn spec_execution_policy(policy: Seq<char>, safety: Seq<char>) -> Seq<char> {
    let t = trim(policy);
    if t == "confirmBeforeExecute"@ {
        "confirmBeforeExecute"@
    } else if t == "blockDirectExecute"@ {
        "blockDirectExecute"@
    } else if safety == "dangerous"@ {
        "blockDirectExecute"@
    } else if safety == "sensitive"@ {
        "confirmBeforeExecute"@
    } else {
        "insertOnly"@
    }
}

/// Why a snippet cannot be saved: it has no title, or no command (after trimming).
pub open spec fn spec_knowledge_error(e: CommandKnowledgeEntry) -> Option<Seq<char>> {
    if trim(e.title@).len() == 0 {
        Some("Command knowledge title is required"@)
    } else if trim(e.command@).len() == 0 {
        Some("Command knowledge command is required"@)
    } else {
        None
    }
}

/// The saved form of a snippet that has no error.
pub open spec fn knowledge_normalized(out: CommandKnowledgeEntry, e: CommandKnowledgeEntry, fresh_id: Seq<char>, now: u64) -> bool {
    let safety = spec_safety_level(e.safety_level@);
    &&& out.id@ == if trim(e.id@).len() == 0 {
        fresh_id
    } else {
        trim(e.id@)
    }
    &&& out.title@ == trim(e.title@)
    &&& out.command@ == trim(e.command@)
    &&& opt_view(out.trigger) == spec_optional_text(opt_view(e.trigger))
    &&& string_views(out.tags@) == spec_normalize_tags(e.tags@)
    &&& opt_view(out.description) == spec_optional_text(opt_view(e.description))
    &&& out.favorite == e.favorite
    &&& out.safety_level@ == safety
    &&& out.execution_policy@ == spec_execution_policy(e.execution_policy@, safety)
    &&& out.usage_count == e.usage_count
    &&& out.last_used_at == e.last_used_at
    &&& out.created_at == if e.created_at == 0 {
        now
    } else {
        e.created_at
    }
    &&& out.updated_at == now
    &&& opt_view(out.legacy_source) == spec_optional_text(opt_view(e.legacy_source))
}

/// Normalises a snippet with the given fresh id and time; see `knowledge_normalized`.
pub fn normalize_command_knowledge_entry_at(entry: CommandKnowledgeEntry, fresh_id: String, now: u64) -> (result:
    Result<CommandKnowledgeEntry, String>)
    ensures
        match result {
            Ok(out) => spec_knowledge_error(entry) is None && knowledge_normalized(out, entry, fresh_id@, now),
            Err(e) => spec_knowledge_error(entry) == Some(e@),
        },
{
    let id_t = trim_chars(chars_of(entry.id.as_str()).as_slice());
    let id = if id_t.len() == 0 {
        fresh_id
    } else {
        string_of(id_t.as_slice())
    };
    let title = trim_chars(chars_of(entry.title.as_str()).as_slice());
    let command = trim_chars(chars_of(entry.command.as_str()).as_slice());
    if title.len() == 0 {
        return Err(owned("Command knowledge title is required"));
    }
    if command.len() == 0 {
        return Err(owned("Command knowledge command is required"));
    }
    let level = trim_chars(chars_of(entry.safety_level.as_str()).as_slice());
    let safety = if chars_eq_str(level.as_slice(), "sensitive") {
        owned("sensitive")
    } else if chars_eq_str(level.as_slice(), "dangerous") {
        owned("dangerous")
    } else {
        owned("normal")
    };
    let policy_t = trim_chars(chars_of(entry.execution_policy.as_str()).as_slice());
    let safety_chars = chars_of(safety.as_str());
    let policy = if chars_eq_str(policy_t.as_slice(), "confirmBeforeExecute") {
        owned("confirmBeforeExecute")
    } else if chars_eq_str(policy_t.as_slice(), "blockDirectExecute") {
        owned("blockDirectExecute")
    } else if chars_eq_str(safety_chars.as_slice(), "dangerous") {
        owned("blockDirectExecute")
    } else if chars_eq_str(safety_chars.as_slice(), "sensitive") {
        owned("confirmBeforeExecute")
    } else {
        owned("insertOnly")
    };
    let out = CommandKnowledgeEntry {
        id,
        title: string_of(title.as_slice()),
        command: string_of(command.as_slice()),
        trigger: normalize_optional_text(entry.trigger),
        tags: normalize_tags(entry.tags),
        description: normalize_optional_text(entry.description),
        favorite: entry.favorite,
        safety_level: safety,
        execution_policy: policy,
        usage_count: entry.usage_count,
        last_used_at: entry.last_used_at,
        created_at: if entry.created_at == 0 {
            now
        } else {
            entry.created_at
        },
        updated_at: now,
        legacy_source: normalize_optional_text(entry.legacy_source),
    };
    Ok(out)
}

/// Normalises a snippet before it is saved, with a fresh random id when it has none and
/// the current time; which id and time those are is left open.
pub fn normalize_command_knowledge_entry(entry: CommandKnowledgeEntry) -> (result: Result<CommandKnowledgeEntry, String>)
    ensures
        match result {
            Ok(out) => spec_knowledge_error(entry) is None && exists|id: Seq<char>, now: u64|
                id.len() == 36 && knowledge_normalized(out, entry, id, now),
            Err(e) => spec_knowledge_error(entry) == Some(e@),
        },
{
    let id = fresh_uuid();
    let now = crate::clock::now_millis();
    let ghost idv = id@;
    let result = normalize_command_knowledge_entry_at(entry, id, now);
    proof {
        if result is Ok {
            assert(knowledge_normalized(result->Ok_0, entry, idv, now));
        }
    }
    result
}


/// A tunnel normalised from `config` with some fresh id of 36 characters and some time.
pub open spec fn tunnel_saved_as(out: TunnelConfig, config: TunnelConfig, existing: Option<u64>) -> bool {
    exists|id: Seq<char>, now: u64| id.len() == 36 && #[trigger] tunnel_normalized(out, config, existing, id, now)
}

/// A snippet normalised from `entry`, which has no error, with some fresh id of 36
/// characters and some time.
pub open spec fn entry_saved_as(out: CommandKnowledgeEntry, entry: CommandKnowledgeEntry) -> bool {
    &&& spec_knowledge_error(entry) is None
    &&& exists|id: Seq<char>, now: u64| id.len() == 36 && #[trigger] knowledge_normalized(out, entry, id, now)
}

/// A stored record with an id.
pub trait Identified {
    spec fn key(&self) -> Seq<char>;

    fn id_str(&self) -> (id: &str)
        ensures
            id@ == self.key(),
    ;
}

impl Identified for SessionConfig {
    open spec fn key(&self) -> Seq<char> {
        self.id@
    }

    fn id_str(&self) -> (id: &str) {
        self.id.as_str()
    }
}

impl Identified for TunnelConfig {
    open spec fn key(&self) -> Seq<char> {
        self.id@
    }

    fn id_str(&self) -> (id: &str) {
        self.id.as_str()
    }
}

impl Identified for CommandKnowledgeEntry {
    open spec fn key(&self) -> Seq<char> {
        self.id@
    }

    fn id_str(&self) -> (id: &str) {
        self.id.as_str()
    }
}

/// The first record with the id, if any.
pub fn position_of<T: Identified>(items: &[T], id: &str) -> (index: Option<usize>)
    ensures
        match index {
            Some(i) => i < items@.len() && items@[i as int].key() == id@ && forall|j: int|
                0 <= j < i ==> #[trigger] items@[j].key() != id@,
            None => forall|j: int| 0 <= j < items@.len() ==> #[trigger] items@[j].key() != id@,
        },
{
    let target = chars_of(id);
    let mut i: usize = 0;
    while i < items.len()
        invariant
            i <= items@.len(),
            target@ == id@,
            forall|j: int| 0 <= j < i ==> #[trigger] items@[j].key() != id@,
        decreases items@.len() - i,
    {
        if crate::text::chars_eq(chars_of(items[i].id_str()).as_slice(), target.as_slice()) {
            return Some(i);
        }
        i += 1;
    }
    None
}

/// Stores a record: it replaces the first one with its id, or is added at the end.
pub fn upsert<T: Identified>(items: &mut Vec<T>, item: T)
    ensures
        upserted(old(items)@, final(items)@, item),
{
    match position_of(items.as_slice(), item.id_str()) {
        Some(i) => {
            items.set(i, item);
        },
        None => {
            items.push(item);
        },
    }
}

/// Drops every record with the id and says whether any was dropped.
pub fn remove_with_id<T: Identified>(items: &mut Vec<T>, id: &str) -> (removed: bool)
    ensures
        final(items)@ == old(items)@.filter(|x: T| x.key() != id@),
        removed == (final(items)@.len() != old(items)@.len()),
{
    let ghost original = items@;
    let original_len = items.len();
    let target = chars_of(id);
    let mut i: usize = 0;
    let ghost mut k: int = 0;
    assert(original.take(0).filter(|x: T| x.key() != id@) =~= Seq::<T>::empty());
    assert(items@.take(0) =~= Seq::<T>::empty());
    assert(original.skip(0) =~= original);
    while i < items.len()
        invariant
            0 <= k <= original.len(),
            i <= items@.len(),
            target@ == id@,
            items@.take(i as int) == original.take(k).filter(|x: T| x.key() != id@),
            items@.skip(i as int) == original.skip(k),
        decreases items@.len() - i,
    {
        let ghost before = items@;
        proof {
            assert(before.skip(i as int).len() == before.len() - i);
            assert(original.skip(k).len() == original.len() - k);
            assert(k < original.len());
            assert(original.skip(k)[0] == before[i as int]);
            assert(original.take(k + 1) =~= original.take(k).push(original[k]));
            original.take(k).lemma_filter_push(original[k], |x: T| x.key() != id@);
        }
        if crate::text::chars_eq(chars_of(items[i].id_str()).as_slice(), target.as_slice()) {
            items.remove(i);
            assert(items@.take(i as int) =~= before.take(i as int));
            assert(items@.skip(i as int) =~= before.skip(i as int + 1));
            assert(before.skip(i as int + 1) =~= original.skip(k + 1)) by {
                assert(before.skip(i as int + 1) =~= before.skip(i as int).skip(1));
                assert(original.skip(k + 1) =~= original.skip(k).skip(1));
            }
        } else {
            i += 1;
            assert(items@.take(i as int) =~= before.take(i - 1).push(before[i - 1]));
            assert(items@.skip(i as int) =~= original.skip(k + 1)) by {
                assert(before.skip(i as int) =~= before.skip(i - 1).skip(1));
                assert(original.skip(k + 1) =~= original.skip(k).skip(1));
            }
        }
        proof {
            k = k + 1;
        }
    }
    proof {
        assert(original.skip(k).len() == 0);
        assert(k == original.len());
        assert(original.take(k) =~= original);
        assert(items@ =~= items@.take(i as int));
        original.lemma_filter_len(|x: T| x.key() != id@);
    }
    items.len() != original_len
}


/// A record stored in place of another: it replaces the first one with its id, or is added
/// at the end when none has it.
pub open spec fn upserted<T: Identified>(before: Seq<T>, after: Seq<T>, item: T) -> bool {
    &&& (exists|j: int| 0 <= j < before.len() && #[trigger] before[j].key() == item.key()) ==> exists|i: int|
        0 <= i < before.len() && before[i].key() == item.key() && (forall|j: int|
            0 <= j < i ==> #[trigger] before[j].key() != item.key()) && after == before.update(i, item)
    &&& !(exists|j: int| 0 <= j < before.len() && #[trigger] before[j].key() == item.key()) ==> after == before.push(item)
}

impl TunnelConfig {
    /// A field-for-field copy.
    pub fn duplicate(&self) -> (copy: TunnelConfig)
        ensures
            copy == *self,
    {
        TunnelConfig {
            id: self.id.clone(),
            session_id: self.session_id.clone(),
            name: self.name.clone(),
            mode: self.mode.clone(),
            listen_host: self.listen_host.clone(),
            listen_port: self.listen_port,
            target_host: crate::sftp_files::copy_optional(&self.target_host),
            target_port: self.target_port,
            server_alive_interval: self.server_alive_interval,
            allow_public_bind: self.allow_public_bind,
            created_at: self.created_at,
            updated_at: self.updated_at,
        }
    }
}

/// The order tunnels are listed in: the most recently changed first, then by name.
pub open spec fn tunnel_listed_before(a: TunnelConfig, b: TunnelConfig) -> bool {
    a.updated_at > b.updated_at || (a.updated_at == b.updated_at && crate::sftp_files::name_le(a.name@, b.name@))
}

fn listed_before(a: &TunnelConfig, b: &TunnelConfig) -> (before: bool)
    ensures
        before == tunnel_listed_before(*a, *b),
{
    if a.updated_at != b.updated_at {
        a.updated_at > b.updated_at
    } else {
        crate::sftp_files::names_le(chars_of(a.name.as_str()).as_slice(), chars_of(b.name.as_str()).as_slice())
    }
}

/// Whether a tunnel is listed for the session asked for (all are when none is).
pub open spec fn listed_for(t: TunnelConfig, session: Option<Seq<char>>) -> bool {
    match session {
        Some(s) => t.session_id@ == s,
        None => true,
    }
}

/// The tunnels of a session (of every session when none is given, or a blank one), most
/// recently changed first, then by name.
pub fn list_tunnels(tunnels: &[TunnelConfig], session_id: Option<String>) -> (listed: Vec<TunnelConfig>)
    ensures
        forall|i: int, j: int|
            0 <= i < j < listed@.len() ==> tunnel_listed_before(#[trigger] listed@[i], #[trigger] listed@[j]),
        listed@.to_multiset() == tunnels@.filter(
            |t: TunnelConfig| listed_for(t, spec_optional_text(opt_view(session_id))),
        ).to_multiset(),
{
    broadcast use vstd::seq_lib::group_to_multiset_ensures;

    let session = normalize_optional_text(session_id);
    let ghost keep = |t: TunnelConfig| listed_for(t, opt_view(session));
    let ghost input = tunnels@;
    let mut out: Vec<TunnelConfig> = Vec::new();
    let mut i: usize = 0;
    assert(input.take(0) =~= Seq::<TunnelConfig>::empty());
    assert(input.take(0).filter(keep) =~= Seq::<TunnelConfig>::empty());
    while i < tunnels.len()
        invariant
            i <= input.len(),
            input == tunnels@,
            keep == (|t: TunnelConfig| listed_for(t, opt_view(session))),
            forall|a: int, b: int| 0 <= a < b < out@.len() ==> tunnel_listed_before(#[trigger] out@[a], #[trigger] out@[b]),
            out@.to_multiset() == input.take(i as int).filter(keep).to_multiset(),
        decreases input.len() - i,
    {
        let e = tunnels[i].duplicate();
        proof {
            assert(input.take(i + 1) =~= input.take(i as int).push(input[i as int]));
            input.take(i as int).lemma_filter_push(input[i as int], keep);
        }
        let wanted = match &session {
            Some(s) => crate::text::chars_eq(chars_of(e.session_id.as_str()).as_slice(), chars_of(s.as_str()).as_slice()),
            None => true,
        };
        if wanted {
            let mut k: usize = 0;
            while k < out.len() && listed_before(&out[k], &e)
                invariant
                    k <= out@.len(),
                    forall|j: int| 0 <= j < k ==> tunnel_listed_before(#[trigger] out@[j], e),
                decreases out@.len() - k,
            {
                k += 1;
            }
            proof {
                if k < out@.len() {
                    crate::sftp_files::lemma_name_le_total(out@[k as int].name@, e.name@);
                    assert forall|j: int| k <= j < out@.len() implies tunnel_listed_before(e, #[trigger] out@[j]) by {
                        if j > k {
                            assert(tunnel_listed_before(out@[k as int], out@[j]));
                            if e.updated_at == out@[j].updated_at {
                                crate::sftp_files::lemma_name_le_transitive(e.name@, out@[k as int].name@, out@[j].name@);
                            }
                        }
                    }
                }
            }
            let ghost before = out@;
            out.insert(k, e);
            proof {
                assert forall|a: int, b: int| 0 <= a < b < out@.len() implies tunnel_listed_before(
                    #[trigger] out@[a],
                    #[trigger] out@[b],
                ) by {
                    if a < k && b == k {
                    } else if a == k && b > k {
                        assert(out@[b] == before[b - 1]);
                    } else if a < k && b > k {
                        assert(out@[b] == before[b - 1]);
                        if out@[a].updated_at == out@[b].updated_at {
                            crate::sftp_files::lemma_name_le_transitive(out@[a].name@, out@[k as int].name@, out@[b].name@);
                        }
                    } else if a > k {
                        assert(out@[a] == before[a - 1]);
                        assert(out@[b] == before[b - 1]);
                    }
                }
                vstd::seq_lib::to_multiset_insert(before, k as int, input[i as int]);
                vstd::seq_lib::to_multiset_build(input.take(i as int).filter(keep), input[i as int]);
            }
        }
        i += 1;
    }
    assert(input.take(input.len() as int) =~= input);
    out
}

/// Drops the tunnels of a session and says whether any was dropped.
pub fn remove_tunnels_of_session(tunnels: &mut Vec<TunnelConfig>, session_id: &str) -> (removed: bool)
    ensures
        final(tunnels)@ == old(tunnels)@.filter(|t: TunnelConfig| t.session_id@ != session_id@),
        removed == (final(tunnels)@.len() != old(tunnels)@.len()),
{
    let ghost original = tunnels@;
    let original_len = tunnels.len();
    let target = chars_of(session_id);
    let mut i: usize = 0;
    let ghost mut k: int = 0;
    assert(original.take(0).filter(|t: TunnelConfig| t.session_id@ != session_id@) =~= Seq::<TunnelConfig>::empty());
    assert(tunnels@.take(0) =~= Seq::<TunnelConfig>::empty());
    assert(original.skip(0) =~= original);
    while i < tunnels.len()
        invariant
            0 <= k <= original.len(),
            i <= tunnels@.len(),
            target@ == session_id@,
            tunnels@.take(i as int) == original.take(k).filter(|t: TunnelConfig| t.session_id@ != session_id@),
            tunnels@.skip(i as int) == original.skip(k),
        decreases tunnels@.len() - i,
    {
        let ghost before = tunnels@;
        proof {
            assert(before.skip(i as int).len() == before.len() - i);
            assert(original.skip(k).len() == original.len() - k);
            assert(original.skip(k)[0] == before[i as int]);
            assert(original.take(k + 1) =~= original.take(k).push(original[k]));
            original.take(k).lemma_filter_push(original[k], |t: TunnelConfig| t.session_id@ != session_id@);
        }
        if crate::text::chars_eq(chars_of(tunnels[i].session_id.as_str()).as_slice(), target.as_slice()) {
            tunnels.remove(i);
            assert(tunnels@.take(i as int) =~= before.take(i as int));
            assert(tunnels@.skip(i as int) =~= original.skip(k + 1)) by {
                assert(tunnels@.skip(i as int) =~= before.skip(i as int + 1));
                assert(before.skip(i as int + 1) =~= before.skip(i as int).skip(1));
                assert(original.skip(k + 1) =~= original.skip(k).skip(1));
            }
        } else {
            i += 1;
            assert(tunnels@.take(i as int) =~= before.take(i - 1).push(before[i - 1]));
            assert(tunnels@.skip(i as int) =~= original.skip(k + 1)) by {
                assert(before.skip(i as int) =~= before.skip(i - 1).skip(1));
                assert(original.skip(k + 1) =~= original.skip(k).skip(1));
            }
        }
        proof {
            k = k + 1;
        }
    }
    proof {
        assert(original.skip(k).len() == 0);
        assert(original.take(k) =~= original);
        assert(tunnels@ =~= tunnels@.take(i as int));
    }
    tunnels.len() != original_len
}


/// Two snippets with the same fields.
pub open spec fn same_entry(a: CommandKnowledgeEntry, b: CommandKnowledgeEntry) -> bool {
    &&& a.id == b.id
    &&& a.title == b.title
    &&& a.command == b.command
    &&& a.trigger == b.trigger
    &&& a.tags@ == b.tags@
    &&& a.description == b.description
    &&& a.favorite == b.favorite
    &&& a.safety_level == b.safety_level
    &&& a.execution_policy == b.execution_policy
    &&& a.usage_count == b.usage_count
    &&& a.last_used_at == b.last_used_at
    &&& a.created_at == b.created_at
    &&& a.updated_at == b.updated_at
    &&& a.legacy_source == b.legacy_source
}

impl CommandKnowledgeEntry {
    /// A field-for-field copy.
    pub fn duplicate(&self) -> (copy: CommandKnowledgeEntry)
        ensures
            same_entry(copy, *self),
    {
        let mut tags: Vec<String> = Vec::new();
        let mut i: usize = 0;
        while i < self.tags.len()
            invariant
                i <= self.tags@.len(),
                tags@ == self.tags@.take(i as int),
            decreases self.tags@.len() - i,
        {
            tags.push(self.tags[i].clone());
            i += 1;
            assert(tags@ =~= self.tags@.take(i as int));
        }
        assert(self.tags@.take(i as int) =~= self.tags@);
        CommandKnowledgeEntry {
            id: self.id.clone(),
            title: self.title.clone(),
            command: self.command.clone(),
            trigger: crate::sftp_files::copy_optional(&self.trigger),
            tags,
            description: crate::sftp_files::copy_optional(&self.description),
            favorite: self.favorite,
            safety_level: self.safety_level.clone(),
            execution_policy: self.execution_policy.clone(),
            usage_count: self.usage_count,
            last_used_at: self.last_used_at,
            created_at: self.created_at,
            updated_at: self.updated_at,
            legacy_source: crate::sftp_files::copy_optional(&self.legacy_source),
        }
    }
}

/// Saves a tunnel of a saved session: normalised (keeping the creation time of the tunnel
/// it replaces), then stored in place of the one with its id or added; refused when its
/// session is not saved, or when it is not valid.
pub fn save_tunnel(sessions: &[SessionConfig], tunnels: &mut Vec<TunnelConfig>, config: TunnelConfig) -> (result: Result<
    TunnelConfig,
    String,
>)
    ensures
        !(exists|j: int| 0 <= j < sessions@.len() && #[trigger] sessions@[j].id@ == config.session_id@) ==> (result matches Err(
            e,
        ) && e@ == "Saved session for tunnel config no longer exists"@ && final(tunnels)@ == old(tunnels)@),
        (exists|j: int| 0 <= j < sessions@.len() && #[trigger] sessions@[j].id@ == config.session_id@) ==> {
            let existing = if exists|j: int| 0 <= j < old(tunnels)@.len() && #[trigger] old(tunnels)@[j].id@ == config.id@ {
                Some(old(tunnels)@[first_with_id(old(tunnels)@, config.id@)].created_at)
            } else {
                None
            };
            match result {
                Ok(out) => spec_tunnel_error(config) is None && tunnel_saved_as(out, config, existing) && upserted(
                    old(tunnels)@,
                    final(tunnels)@,
                    out,
                ),
                Err(e) => spec_tunnel_error(config) == Some(e@) && final(tunnels)@ == old(tunnels)@,
            }
        },
{
    if position_of(sessions, config.session_id.as_str()).is_none() {
        proof {
            assert forall|j: int| 0 <= j < sessions@.len() implies #[trigger] sessions@[j].id@ != config.session_id@ by {
                assert(sessions@[j].key() != config.session_id@);
            }
        }
        return Err(owned("Saved session for tunnel config no longer exists"));
    }
    let existing = match position_of(tunnels.as_slice(), config.id.as_str()) {
        Some(i) => {
            proof {
                lemma_first_with_id(tunnels@, config.id@, i as int);
            }
            Some(tunnels[i].created_at)
        },
        None => {
            proof {
                assert forall|j: int| 0 <= j < tunnels@.len() implies #[trigger] tunnels@[j].id@ != config.id@ by {
                    assert(tunnels@[j].key() != config.id@);
                }
            }
            None
        },
    };
    let ghost config_view = config;
    let normalized = normalize_tunnel_config(config, existing)?;
    assert(tunnel_saved_as(normalized, config_view, existing));
    let stored = normalized.duplicate();
    upsert(tunnels, stored);
    Ok(normalized)
}

/// The tunnel a copy is made from before it is normalised: the source with no id, its name
/// followed by ` Copy`, and no times.
pub open spec fn copy_of(c: TunnelConfig, source: TunnelConfig) -> bool {
    &&& c.id@ == Seq::<char>::empty()
    &&& c.name@ == source.name@ + " Copy"@
    &&& c.created_at == 0
    &&& c.updated_at == 0
    &&& c.session_id == source.session_id
    &&& c.mode == source.mode
    &&& c.listen_host == source.listen_host
    &&& c.listen_port == source.listen_port
    &&& c.target_host == source.target_host
    &&& c.target_port == source.target_port
    &&& c.server_alive_interval == source.server_alive_interval
    &&& c.allow_public_bind == source.allow_public_bind
}

/// The first stored tunnel with an id.
pub open spec fn first_with_id(tunnels: Seq<TunnelConfig>, id: Seq<char>) -> int {
    choose|i: int|
        0 <= i < tunnels.len() && tunnels[i].id@ == id && forall|j: int| 0 <= j < i ==> #[trigger] tunnels[j].id@ != id
}

proof fn lemma_first_with_id(t: Seq<TunnelConfig>, id: Seq<char>, i: int)
    requires
        0 <= i < t.len(),
        t[i].key() == id,
        forall|j: int| 0 <= j < i ==> #[trigger] t[j].key() != id,
    ensures
        first_with_id(t, id) == i,
{
    assert(t[i].id@ == id);
    assert forall|j: int| 0 <= j < i implies #[trigger] t[j].id@ != id by {
        assert(t[j].key() != id);
    }
    let f = first_with_id(t, id);
    assert(0 <= f < t.len() && t[f].id@ == id && forall|j: int| 0 <= j < f ==> #[trigger] t[j].id@ != id);
    if f < i {
        assert(t[f].key() == id);
    } else if f > i {
        assert(t[i].id@ == id);
    }
}

/// Adds a copy of a stored tunnel, named after it with ` Copy`, with a fresh id and the
/// current time; refused when no tunnel has the id.
pub fn duplicate_tunnel(tunnels: &mut Vec<TunnelConfig>, id: &str) -> (result: Result<TunnelConfig, String>)
    ensures
        !(exists|j: int| 0 <= j < old(tunnels)@.len() && #[trigger] old(tunnels)@[j].id@ == id@) ==> (result matches Err(
            e,
        ) && e@ == "Tunnel config not found"@ && final(tunnels)@ == old(tunnels)@),
        (exists|j: int| 0 <= j < old(tunnels)@.len() && #[trigger] old(tunnels)@[j].id@ == id@) ==> {
            let source = old(tunnels)@[first_with_id(old(tunnels)@, id@)];
            match result {
                Ok(out) => (exists|c: TunnelConfig, fresh: Seq<char>, now: u64|
                    copy_of(c, source) && fresh.len() == 36 && spec_tunnel_error(c) is None
                        && #[trigger] tunnel_normalized(out, c, None, fresh, now)) && final(tunnels)@ == old(tunnels)@.push(out),
                Err(e) => (exists|c: TunnelConfig| #[trigger] copy_of(c, source) && spec_tunnel_error(c) == Some(e@))
                    && final(tunnels)@ == old(tunnels)@,
            }
        },
{
    let i = match position_of(tunnels.as_slice(), id) {
        Some(i) => i,
        None => {
            proof {
                assert forall|j: int| 0 <= j < tunnels@.len() implies #[trigger] tunnels@[j].id@ != id@ by {
                    assert(tunnels@[j].key() != id@);
                }
            }
            return Err(owned("Tunnel config not found"));
        },
    };
    proof {
        lemma_first_with_id(tunnels@, id@, i as int);
    }
    let source = &tunnels[i];
    let copy = TunnelConfig {
        id: String::new(),
        session_id: source.session_id.clone(),
        name: concat(source.name.as_str(), " Copy"),
        mode: source.mode.clone(),
        listen_host: source.listen_host.clone(),
        listen_port: source.listen_port,
        target_host: crate::sftp_files::copy_optional(&source.target_host),
        target_port: source.target_port,
        server_alive_interval: source.server_alive_interval,
        allow_public_bind: source.allow_public_bind,
        created_at: 0,
        updated_at: 0,
    };
    let ghost c = copy;
    assert(copy_of(c, tunnels@[i as int]));
    let normalized = normalize_tunnel_config(copy, None)?;
    tunnels.push(normalized.duplicate());
    Ok(normalized)
}

/// Saves a snippet: normalised, then stored in place of the one with its id or added.
pub fn save_knowledge_entry(entries: &mut Vec<CommandKnowledgeEntry>, entry: CommandKnowledgeEntry) -> (result: Result<
    CommandKnowledgeEntry,
    String,
>)
    ensures
        match result {
            Ok(out) => entry_saved_as(out, entry) && exists|stored: CommandKnowledgeEntry|
                same_entry(stored, out) && #[trigger] upserted(old(entries)@, final(entries)@, stored),
            Err(e) => spec_knowledge_error(entry) == Some(e@) && final(entries)@ == old(entries)@,
        },
{
    let ghost entry_view = entry;
    let normalized = normalize_command_knowledge_entry(entry)?;
    assert(entry_saved_as(normalized, entry_view));
    let stored = normalized.duplicate();
    let ghost stored_view = stored;
    upsert(entries, stored);
    assert(upserted(old(entries)@, entries@, stored_view));
    Ok(normalized)
}

proof fn lemma_same_entry_saved(n: CommandKnowledgeEntry, a: CommandKnowledgeEntry, b: CommandKnowledgeEntry)
    requires
        same_entry(a, b),
        entry_saved_as(n, a),
    ensures
        entry_saved_as(n, b),
{
    let (id, now) = choose|id: Seq<char>, now: u64| id.len() == 36 && #[trigger] knowledge_normalized(n, a, id, now);
    assert(knowledge_normalized(n, b, id, now));
}

/// The error of the first snippet that is not valid.
pub open spec fn first_knowledge_error(entries: Seq<CommandKnowledgeEntry>, e: Seq<char>) -> bool {
    exists|i: int|
        0 <= i < entries.len() && spec_knowledge_error(#[trigger] entries[i]) == Some(e) && forall|j: int|
            0 <= j < i ==> spec_knowledge_error(#[trigger] entries[j]) is None
}

/// Replaces all snippets by these, each normalised; the first that is not valid refuses
/// the whole replacement.
pub fn replace_knowledge_entries(entries: &[CommandKnowledgeEntry]) -> (result: Result<CommandKnowledgeStorageData, String>)
    ensures
        match result {
            Ok(data) => data.schema_version == 1 && data.entries@.len() == entries@.len() && forall|i: int|
                0 <= i < entries@.len() ==> #[trigger] entry_saved_as(data.entries@[i], entries@[i]),
            Err(e) => first_knowledge_error(entries@, e@),
        },
{
    let mut out: Vec<CommandKnowledgeEntry> = Vec::new();
    let mut i: usize = 0;
    while i < entries.len()
        invariant
            i <= entries@.len(),
            out@.len() == i,
            forall|k: int| 0 <= k < i ==> #[trigger] entry_saved_as(out@[k], entries@[k]),
        decreases entries@.len() - i,
    {
        let entry = entries[i].duplicate();
        let ghost copy = entry;
        match normalize_command_knowledge_entry(entry) {
            Ok(n) => {
                assert(entry_saved_as(n, copy));
                proof {
                    lemma_same_entry_saved(n, copy, entries@[i as int]);
                }
                let ghost before = out@;
                out.push(n);
                assert forall|k: int| 0 <= k < i + 1 implies #[trigger] entry_saved_as(out@[k], entries@[k]) by {
                    if k < i {
                        assert(out@[k] == before[k]);
                    }
                }
            },
            Err(e) => {
                proof {
                    assert forall|j: int| 0 <= j < i implies spec_knowledge_error(#[trigger] entries@[j]) is None by {
                        assert(entry_saved_as(out@[j], entries@[j]));
                    }
                    assert(spec_knowledge_error(entries@[i as int]) == Some(e@));
                }
                return Err(e);
            },
        }
        i += 1;
    }
    Ok(CommandKnowledgeStorageData { schema_version: 1, entries: out })
}


/// Which of the first `n` imported snippets are added, by index: those with an id (not
/// blank) that is neither stored nor the id of one added before them.
pub open spec fn kept_upto(existing: Seq<Seq<char>>, all: Seq<CommandKnowledgeEntry>, n: int) -> Seq<int>
    decreases n,
{
    if n <= 0 {
        Seq::<int>::empty()
    } else {
        let ks = kept_upto(existing, all, n - 1);
        let e = all[n - 1];
        let taken = existing + ks.map_values(|i: int| trim(all[i].id@));
        if trim(e.id@).len() > 0 && !taken.contains(e.id@) {
            ks.push(n - 1)
        } else {
            ks
        }
    }
}

pub open spec fn entry_ids(entries: Seq<CommandKnowledgeEntry>) -> Seq<Seq<char>> {
    entries.map_values(|e: CommandKnowledgeEntry| e.id@)
}

pub open spec fn id_views(ids: Seq<String>) -> Seq<Seq<char>> {
    ids.map_values(|s: String| s@)
}

fn contains_id(ids: &Vec<String>, id: &str) -> (found: bool)
    ensures
        found == id_views(ids@).contains(id@),
{
    let target = chars_of(id);
    let mut i: usize = 0;
    while i < ids.len()
        invariant
            i <= ids@.len(),
            target@ == id@,
            forall|k: int| 0 <= k < i ==> #[trigger] ids@[k]@ != id@,
        decreases ids@.len() - i,
    {
        if crate::text::chars_eq(chars_of(ids[i].as_str()).as_slice(), target.as_slice()) {
            assert(id_views(ids@)[i as int] == id@);
            return true;
        }
        i += 1;
    }
    proof {
        if id_views(ids@).contains(id@) {
            let k = choose|k: int| 0 <= k < id_views(ids@).len() && id_views(ids@)[k] == id@;
            assert(ids@[k]@ == id@);
        }
    }
    false
}

proof fn lemma_kept_prefix(existing: Seq<Seq<char>>, all: Seq<CommandKnowledgeEntry>, n: int, m: int)
    requires
        0 <= n <= m,
    ensures
        kept_upto(existing, all, n).len() <= kept_upto(existing, all, m).len(),
        forall|k: int|
            0 <= k < kept_upto(existing, all, n).len() ==> #[trigger] kept_upto(existing, all, m)[k] == kept_upto(
                existing,
                all,
                n,
            )[k],
    decreases m - n,
{
    if n < m {
        lemma_kept_prefix(existing, all, n, m - 1);
    }
}

proof fn lemma_saved_copy(n: CommandKnowledgeEntry, copy: CommandKnowledgeEntry, e: CommandKnowledgeEntry)
    requires
        entry_saved_as(n, e),
        same_entry(copy, n),
    ensures
        entry_saved_as(copy, e),
{
    let (id, now) = choose|id: Seq<char>, now: u64| id.len() == 36 && #[trigger] knowledge_normalized(n, e, id, now);
    assert(knowledge_normalized(copy, e, id, now));
}

fn duplicate_entries(entries: &Vec<CommandKnowledgeEntry>) -> (copies: Vec<CommandKnowledgeEntry>)
    ensures
        copies@.len() == entries@.len(),
        forall|k: int| 0 <= k < entries@.len() ==> same_entry(#[trigger] copies@[k], entries@[k]),
{
    let mut copies: Vec<CommandKnowledgeEntry> = Vec::new();
    let mut i: usize = 0;
    while i < entries.len()
        invariant
            i <= entries@.len(),
            copies@.len() == i,
            forall|k: int| 0 <= k < i ==> same_entry(#[trigger] copies@[k], entries@[k]),
        decreases entries@.len() - i,
    {
        copies.push(entries[i].duplicate());
        i += 1;
    }
    copies
}

/// Adds the imported snippets that have an id (not blank) that is neither stored nor
/// taken by one added before, each normalised, and returns those added; a snippet that is
/// added but not valid refuses the whole import.
pub fn import_knowledge(existing: &mut Vec<CommandKnowledgeEntry>, imported: &[CommandKnowledgeEntry]) -> (result: Result<
    Vec<CommandKnowledgeEntry>,
    String,
>)
    ensures
        ({
            let kept = kept_upto(entry_ids(old(existing)@), imported@, imported@.len() as int);
            match result {
                Ok(added) => {
                    &&& added@.len() == kept.len()
                    &&& forall|k: int| 0 <= k < kept.len() ==> #[trigger] entry_saved_as(added@[k], imported@[kept[k]])
                    &&& final(existing)@.len() == old(existing)@.len() + added@.len()
                    &&& final(existing)@.take(old(existing)@.len() as int) == old(existing)@
                    &&& forall|k: int|
                        0 <= k < added@.len() ==> same_entry(#[trigger] final(existing)@[old(existing)@.len() + k], added@[k])
                },
                Err(e) => {
                    &&& exists|m: int|
                        0 <= m < kept.len() && spec_knowledge_error(#[trigger] imported@[kept[m]]) == Some(e@) && forall|j: int|
                            0 <= j < m ==> spec_knowledge_error(#[trigger] imported@[kept[j]]) is None
                    &&& final(existing)@ == old(existing)@
                },
            }
        }),
{
    let ghost before = existing@;
    let ghost stored_ids = entry_ids(before);
    let mut ids: Vec<String> = Vec::new();
    let mut j: usize = 0;
    while j < existing.len()
        invariant
            j <= existing@.len(),
            existing@ == before,
            stored_ids == entry_ids(before),
            id_views(ids@) == stored_ids.take(j as int),
        decreases existing@.len() - j,
    {
        let ghost prev = ids@;
        assert(stored_ids[j as int] == before[j as int].id@);
        ids.push(existing[j].id.clone());
        j += 1;
        assert(id_views(ids@) =~= id_views(prev).push(stored_ids[j - 1]));
        assert(stored_ids.take(j as int) =~= stored_ids.take(j - 1).push(stored_ids[j - 1]));
    }
    assert(stored_ids.take(j as int) =~= stored_ids);
    let mut added: Vec<CommandKnowledgeEntry> = Vec::new();
    let mut i: usize = 0;
    assert(kept_upto(stored_ids, imported@, 0) =~= Seq::<int>::empty());
    assert(id_views(ids@) =~= stored_ids + kept_upto(stored_ids, imported@, 0).map_values(|k: int| trim(imported@[k].id@)));
    while i < imported.len()
        invariant
            i <= imported@.len(),
            existing@ == before,
            stored_ids == entry_ids(before),
            ({
                let kept = kept_upto(stored_ids, imported@, i as int);
                &&& id_views(ids@) == stored_ids + kept.map_values(|k: int| trim(imported@[k].id@))
                &&& added@.len() == kept.len()
                &&& forall|k: int| 0 <= k < kept.len() ==> 0 <= #[trigger] kept[k] < i
                &&& forall|k: int| 0 <= k < kept.len() ==> #[trigger] entry_saved_as(added@[k], imported@[kept[k]])
            }),
        decreases imported@.len() - i,
    {
        let ghost kept = kept_upto(stored_ids, imported@, i as int);
        let e = &imported[i];
        let blank = crate::text::trim_str(e.id.as_str()).as_str().is_empty();
        let taken = contains_id(&ids, e.id.as_str());
        if !blank && !taken {
            let copy = e.duplicate();
            let ghost cv = copy;
            let normalized = match normalize_command_knowledge_entry(copy) {
                Ok(n) => n,
                Err(error) => {
                    proof {
                        let kept2 = kept_upto(stored_ids, imported@, i + 1);
                        let full = kept_upto(stored_ids, imported@, imported@.len() as int);
                        assert(kept2 == kept.push(i as int));
                        lemma_kept_prefix(stored_ids, imported@, i + 1, imported@.len() as int);
                        assert(full[kept.len() as int] == kept2[kept.len() as int]);
                        assert(full[kept.len() as int] == i);
                        assert(spec_knowledge_error(imported@[full[kept.len() as int]]) == Some(error@));
                        assert forall|jj: int| 0 <= jj < kept.len() implies spec_knowledge_error(#[trigger] imported@[full[jj]]) is None by {
                            assert(full[jj] == kept2[jj]);
                            assert(kept2[jj] == kept[jj]);
                            assert(entry_saved_as(added@[jj], imported@[kept[jj]]));
                        }
                    }
                    return Err(error);
                },
            };
            proof {
                assert(entry_saved_as(normalized, cv));
                lemma_same_entry_saved(normalized, cv, *e);
            }
            let new_id = normalized.id.clone();
            assert(new_id@ == trim(imported@[i as int].id@));
            let ghost prev_ids = ids@;
            let ghost prev_added = added@;
            let ghost nv = normalized;
            ids.push(new_id);
            added.push(normalized);
            proof {
                let kept2 = kept_upto(stored_ids, imported@, i + 1);
                assert(kept2 == kept.push(i as int));
                assert(kept2.map_values(|k: int| trim(imported@[k].id@)) =~= kept.map_values(|k: int| trim(imported@[k].id@)).push(
                    trim(imported@[i as int].id@),
                ));
                assert(id_views(ids@) =~= id_views(prev_ids).push(trim(imported@[i as int].id@)));
                assert(id_views(ids@) == stored_ids + kept2.map_values(|k: int| trim(imported@[k].id@)));
                assert forall|k: int| 0 <= k < kept2.len() implies 0 <= #[trigger] kept2[k] < i + 1 by {
                    if k < kept.len() {
                        assert(kept2[k] == kept[k]);
                    }
                }
                assert forall|k: int| 0 <= k < kept2.len() implies #[trigger] entry_saved_as(added@[k], imported@[kept2[k]]) by {
                    if k < kept.len() {
                        assert(kept2[k] == kept[k]);
                        assert(added@[k] == prev_added[k]);
                    } else {
                        assert(added@[k] == nv);
                        assert(kept2[k] == i);
                    }
                }
            }
        } else {
            proof {
                let kept2 = kept_upto(stored_ids, imported@, i + 1);
                assert(kept2 == kept);
                assert forall|k: int| 0 <= k < kept2.len() implies 0 <= #[trigger] kept2[k] < i + 1 by {
                    assert(kept2[k] == kept[k]);
                }
            }
        }
        i += 1;
    }
    let ghost new_part = added@;
    let ghost kept = kept_upto(stored_ids, imported@, i as int);
    let returned = duplicate_entries(&added);
    existing.append(&mut added);
    assert(existing@.take(before.len() as int) =~= before);
    assert forall|k: int| 0 <= k < kept.len() implies #[trigger] entry_saved_as(returned@[k], imported@[kept[k]]) by {
        lemma_saved_copy(new_part[k], returned@[k], imported@[kept[k]]);
    }
    assert forall|k: int| 0 <= k < returned@.len() implies same_entry(#[trigger] existing@[before.len() + k], returned@[k]) by {
        assert(existing@[before.len() + k] == new_part[k]);
    }
    Ok(returned)
}

} // verus!
