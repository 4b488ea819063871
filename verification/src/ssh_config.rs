use vstd::prelude::*;

use crate::text::{chars_eq_str, trim, trim_str, trimmed_lowercase, to_ascii_lowercase};

verus! {

/// Connection settings for one terminal session (SSH, Telnet, serial or local).
#[derive(Clone, Debug)]
pub struct SshConfig {
    pub protocol: Option<String>,
    pub host: String,
    pub port: u16,
    pub username: String,
    pub password: Option<String>,
    pub private_key_path: Option<String>,
    pub passphrase: Option<String>,
    pub connect_timeout: Option<u64>,
    pub keep_alive_interval: Option<u64>,
    pub term_type: Option<String>,
    pub encoding: Option<String>,
    pub login_script: Option<String>,
    pub jump_host: Option<String>,
    pub jump_port: Option<u16>,
    pub jump_username: Option<String>,
    pub jump_auth_type: Option<String>,
    pub jump_password: Option<String>,
    pub jump_private_key_path: Option<String>,
    pub jump_passphrase: Option<String>,
    pub serial_path: Option<String>,
    pub baud_rate: Option<u32>,
    pub data_bits: Option<u8>,
    pub stop_bits: Option<String>,
    pub parity: Option<String>,
    pub flow_control: Option<String>,
    pub serial_line_ending: Option<String>,
    pub serial_device_id: Option<String>,
    pub serial_connect_delay_ms: Option<u64>,
    pub serial_line_delay_ms: Option<u64>,
    pub local_profile: Option<String>,
    pub local_working_directory: Option<String>,
    pub initial_cols: Option<u16>,
    pub initial_rows: Option<u16>,
}

/// The view of an optional string.
pub open spec fn opt_view(value: Option<String>) -> Option<Seq<char>> {
    match value {
        Some(s) => Some(s@),
        None => None,
    }
}

/// The view of an optional string slice.
pub open spec fn opt_str_view(value: Option<&str>) -> Option<Seq<char>> {
    match value {
        Some(s) => Some(s@),
        None => None,
    }
}

/// The protocol a configuration names: `telnet`, `serial`, `local`, or `ssh` for anything
/// else, compared after trimming and ASCII lower-casing; absent means `ssh`.
pub open spec fn spec_normalized_protocol(value: Option<Seq<char>>) -> Seq<char> {
    let v = to_ascii_lowercase(
        trim(
            match value {
                Some(s) => s,
                None => "ssh"@,
            },
        ),
    );
    if v == "telnet"@ {
        "telnet"@
    } else if v == "serial"@ {
        "serial"@
    } else if v == "local"@ {
        "local"@
    } else {
        "ssh"@
    }
}

pub fn normalized_protocol(value: Option<&str>) -> (protocol: &'static str)
    ensures
        protocol@ == spec_normalized_protocol(opt_str_view(value)),
{
    let v = match value {
        Some(s) => trimmed_lowercase(s),
        None => trimmed_lowercase("ssh"),
    };
    if chars_eq_str(v.as_slice(), "telnet") {
        "telnet"
    } else if chars_eq_str(v.as_slice(), "serial") {
        "serial"
    } else if chars_eq_str(v.as_slice(), "local") {
        "local"
    } else {
        "ssh"
    }
}

/// The protocol that `config` selects.
pub fn config_protocol(config: &SshConfig) -> (protocol: &'static str)
    ensures
        protocol@ == spec_normalized_protocol(opt_view(config.protocol)),
{
    match &config.protocol {
        Some(p) => normalized_protocol(Some(p.as_str())),
        None => normalized_protocol(None),
    }
}

pub fn is_local_protocol(config: &SshConfig) -> (local: bool)
    ensures
        local == (spec_normalized_protocol(opt_view(config.protocol)) == "local"@),
{
    let protocol = config_protocol(config);
    let chars = crate::text::chars_of(protocol);
    chars_eq_str(chars.as_slice(), "local")
}

/// A present value, trimmed, unless it is blank.
pub open spec fn spec_sanitize_optional(value: Option<Seq<char>>) -> Option<Seq<char>> {
    match value {
        Some(raw) => if trim(raw).len() == 0 {
            None
        } else {
            Some(trim(raw))
        },
        None => None,
    }
}

pub fn sanitize_optional(value: Option<String>) -> (out: Option<String>)
    ensures
        opt_view(out) == spec_sanitize_optional(opt_view(value)),
{
    match value {
        Some(raw) => {
            let trimmed = trim_str(raw.as_str());
            if trimmed.as_str().is_empty() {
                None
            } else {
                Some(trimmed)
            }
        },
        None => None,
    }
}

/// Settings of the jump host that a connection passes through.
#[derive(Clone, Debug)]
pub struct JumpHostConfig {
    pub host: String,
    pub port: u16,
    pub username: String,
    pub password: Option<String>,
    pub private_key_path: Option<String>,
    pub passphrase: Option<String>,
    pub connect_timeout: Option<u64>,
}

/// Whether the (sanitized) jump authentication type selects key authentication; an
/// absent or blank type means password authentication.
pub open spec fn jump_uses_key(auth_type: Option<Seq<char>>) -> bool {
    spec_sanitize_optional(auth_type) == Some("key"@)
}

/// The jump host described by these settings: there is one when both its host and its user
/// name are present and not blank; values are trimmed, the port defaults to 22, and only
/// the credentials of the selected authentication type are kept.
pub open spec fn jump_host_matches(
    jump: Option<JumpHostConfig>,
    host: Option<Seq<char>>,
    port: Option<u16>,
    username: Option<Seq<char>>,
    auth_type: Option<Seq<char>>,
    password: Option<Seq<char>>,
    private_key_path: Option<Seq<char>>,
    passphrase: Option<Seq<char>>,
    connect_timeout: Option<u64>,
) -> bool {
    match jump {
        None => spec_sanitize_optional(host) is None || spec_sanitize_optional(username) is None,
        Some(j) => {
            &&& Some(j.host@) == spec_sanitize_optional(host)
            &&& Some(j.username@) == spec_sanitize_optional(username)
            &&& j.port == match port {
                Some(p) => p,
                None => 22u16,
            }
            &&& j.connect_timeout == connect_timeout
            &&& if jump_uses_key(auth_type) {
                &&& j.password is None
                &&& opt_view(j.private_key_path) == spec_sanitize_optional(private_key_path)
                &&& opt_view(j.passphrase) == spec_sanitize_optional(passphrase)
            } else {
                &&& opt_view(j.password) == spec_sanitize_optional(password)
                &&& j.private_key_path is None
                &&& j.passphrase is None
            }
        },
    }
}

pub fn jump_host_from(
    host: &Option<String>,
    port: Option<u16>,
    username: &Option<String>,
    auth_type: &Option<String>,
    password: &Option<String>,
    private_key_path: &Option<String>,
    passphrase: &Option<String>,
    connect_timeout: Option<u64>,
) -> (jump: Option<JumpHostConfig>)
    ensures
        jump_host_matches(
            jump,
            opt_view(*host),
            port,
            opt_view(*username),
            opt_view(*auth_type),
            opt_view(*password),
            opt_view(*private_key_path),
            opt_view(*passphrase),
            connect_timeout,
        ),
        jump matches Some(j) ==> j.port == match port {
            Some(p) => p,
            None => 22u16,
        },
{
    let host = match sanitize_optional(host.clone()) {
        Some(h) => h,
        None => {
            return None;
        },
    };
    let username = match sanitize_optional(username.clone()) {
        Some(u) => u,
        None => {
            return None;
        },
    };
    let key_auth = match sanitize_optional(auth_type.clone()) {
        Some(a) => {
            let chars = crate::text::chars_of(a.as_str());
            chars_eq_str(chars.as_slice(), "key")
        },
        None => false,
    };
    Some(
        JumpHostConfig {
            host,
            port: match port {
                Some(p) => p,
                None => 22,
            },
            username,
            password: if key_auth {
                None
            } else {
                sanitize_optional(password.clone())
            },
            private_key_path: if key_auth {
                sanitize_optional(private_key_path.clone())
            } else {
                None
            },
            passphrase: if key_auth {
                sanitize_optional(passphrase.clone())
            } else {
                None
            },
            connect_timeout,
        },
    )
}

/// The jump host of a connection; see `jump_host_matches`.
pub fn extract_jump_host(config: &SshConfig) -> (jump: Option<JumpHostConfig>)
    ensures
        jump_host_matches(
            jump,
            opt_view(config.jump_host),
            config.jump_port,
            opt_view(config.jump_username),
            opt_view(config.jump_auth_type),
            opt_view(config.jump_password),
            opt_view(config.jump_private_key_path),
            opt_view(config.jump_passphrase),
            config.connect_timeout,
        ),
        jump matches Some(j) ==> j.port == match config.jump_port {
            Some(p) => p,
            None => 22u16,
        },
{
    jump_host_from(
        &config.jump_host,
        config.jump_port,
        &config.jump_username,
        &config.jump_auth_type,
        &config.jump_password,
        &config.jump_private_key_path,
        &config.jump_passphrase,
        config.connect_timeout,
    )
}


/// A jump host is used exactly when both its host and its user name are set (not blank),
/// and then it goes to the configured port (22 only when none is set), with the trimmed
/// host and user name and the connection timeout as configured; with key authentication
/// it carries the key path and passphrase and no password, otherwise the password only.
pub proof fn lemma_jump_host_settings(
    jump: Option<JumpHostConfig>,
    host: Option<Seq<char>>,
    port: Option<u16>,
    username: Option<Seq<char>>,
    auth_type: Option<Seq<char>>,
    password: Option<Seq<char>>,
    private_key_path: Option<Seq<char>>,
    passphrase: Option<Seq<char>>,
    connect_timeout: Option<u64>,
)
    requires
        jump_host_matches(jump, host, port, username, auth_type, password, private_key_path, passphrase, connect_timeout),
    ensures
        jump is Some <==> (spec_sanitize_optional(host) is Some && spec_sanitize_optional(username) is Some),
        jump matches Some(j) ==> {
            &&& j.port == (if port is Some { port.unwrap() } else { 22u16 })
            &&& (port == Some(j.port) || (port is None && j.port == 22))
            &&& Some(j.host@) == spec_sanitize_optional(host)
            &&& Some(j.username@) == spec_sanitize_optional(username)
            &&& j.connect_timeout == connect_timeout
            &&& (spec_sanitize_optional(auth_type) == Some("key"@) ==> j.password is None
                && opt_view(j.private_key_path) == spec_sanitize_optional(private_key_path)
                && opt_view(j.passphrase) == spec_sanitize_optional(passphrase))
            &&& (spec_sanitize_optional(auth_type) != Some("key"@) ==> opt_view(j.password) == spec_sanitize_optional(password)
                && j.private_key_path is None && j.passphrase is None)
        },
{
}

/// A configuration selects Telnet, serial or a local shell by naming it (`telnet`,
/// `serial`, `local`, case and surrounding whitespace aside), and SSH otherwise, also when
/// it names nothing.
pub proof fn lemma_protocol_names(value: Option<Seq<char>>)
    ensures
        ({
            let v = to_ascii_lowercase(trim(
                match value {
                    Some(s) => s,
                    None => "ssh"@,
                },
            ));
            &&& (spec_normalized_protocol(value) == "telnet"@ <==> v == "telnet"@)
            &&& (spec_normalized_protocol(value) == "serial"@ <==> v == "serial"@)
            &&& (spec_normalized_protocol(value) == "local"@ <==> v == "local"@)
            &&& (spec_normalized_protocol(value) == "ssh"@ <==> (v != "telnet"@ && v != "serial"@ && v != "local"@))
        }),
{
    reveal_strlit("telnet");
    reveal_strlit("serial");
    reveal_strlit("local");
    reveal_strlit("ssh");
    assert("telnet"@[0] != "serial"@[0]);
    assert("telnet"@.len() != "local"@.len());
    assert("telnet"@.len() != "ssh"@.len());
    assert("serial"@.len() != "local"@.len());
    assert("serial"@.len() != "ssh"@.len());
    assert("local"@.len() != "ssh"@.len());
}
} // verus!
