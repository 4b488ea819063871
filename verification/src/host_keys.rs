use vstd::prelude::*;

use crate::text::{concat, decimal, decimal_string, owned};

verus! {

/// What the known-hosts file says of the key a server shows.
#[derive(Clone, Debug, PartialEq, Eq)]
pub enum KnownHostCheck {
    /// The file holds this key for the endpoint.
    Matched,
    /// The file holds no key for the endpoint.
    Unknown,
    /// The file holds another key for the endpoint; the text says how the check failed.
    Mismatch(String),
}

/// The connection a host key is checked for: the terminal's or a file browser's.
#[derive(Clone, Copy, Debug, PartialEq, Eq, Structural)]
pub enum HostKeyChannel {
    Ssh,
    Sftp,
}

/// The question put to the user about a key that is not known to be the endpoint's.
#[derive(Clone, Debug, PartialEq, Eq)]
pub struct HostKeyPrompt {
    /// The event the question is sent as.
    pub event: String,
    pub session_id: String,
    pub host: String,
    pub port: u16,
    pub fingerprint: String,
    pub algorithm: String,
    /// The command the answer comes back through, where it is not the default one.
    pub confirm_command: Option<String>,
    /// Set when the key differs from the one on file.
    pub warning: Option<String>,
}

/// What a host key check does first.
#[derive(Clone, Debug, PartialEq, Eq)]
pub enum HostKeyStep {
    /// The key is known: the connection goes on.
    Trust,
    /// The user is asked, and the connection waits for the answer.
    Ask(HostKeyPrompt),
}

/// What comes of a host key check once the user has answered, or not.
#[derive(Clone, Debug, PartialEq, Eq)]
pub struct HostKeyVerdict {
    /// Whether the connection goes on.
    pub trusted: bool,
    /// Whether the key is added to the known-hosts file.
    pub save_key: bool,
    /// Whether a failure to add it is reported to the user.
    pub report_save_failure: bool,
    /// The error reported to the user when the connection is cancelled.
    pub error: Option<String>,
}

pub open spec fn mismatch_warning(error: Seq<char>) -> Seq<char> {
    "主机密钥与已保存的不匹配！可能是代理/堡垒机或中间人攻击。\n原始错误: "@ + error
}

pub open spec fn prompt_event(channel: HostKeyChannel) -> Seq<char> {
    match channel {
        HostKeyChannel::Ssh => "ssh-hostkey-request"@,
        HostKeyChannel::Sftp => "sftp-hostkey-request"@,
    }
}

pub open spec fn opt_view(value: Option<String>) -> Option<Seq<char>> {
    match value {
        Some(v) => Some(v@),
        None => None,
    }
}

/// The first step of a check: a known key is trusted; otherwise the user is asked, with a
/// warning when the key differs from the one on file. A file browser's question names the
/// command that answers it.
pub open spec fn step_matches(
    step: HostKeyStep,
    channel: HostKeyChannel,
    check: KnownHostCheck,
    session_id: Seq<char>,
    host: Seq<char>,
    port: u16,
    fingerprint: Seq<char>,
    algorithm: Seq<char>,
) -> bool {
    match check {
        KnownHostCheck::Matched => step is Trust,
        _ => match step {
            HostKeyStep::Ask(p) => {
                &&& p.event@ == prompt_event(channel)
                &&& p.session_id@ == session_id
                &&& p.host@ == host
                &&& p.port == port
                &&& p.fingerprint@ == fingerprint
                &&& p.algorithm@ == algorithm
                &&& opt_view(p.confirm_command) == match channel {
                    HostKeyChannel::Ssh => None,
                    HostKeyChannel::Sftp => Some("confirm_sftp_hostkey"@),
                }
                &&& opt_view(p.warning) == match check {
                    KnownHostCheck::Mismatch(e) => Some(mismatch_warning(e@)),
                    _ => None,
                }
            },
            HostKeyStep::Trust => false,
        },
    }
}

pub fn host_key_step(
    channel: HostKeyChannel,
    check: &KnownHostCheck,
    session_id: &str,
    host: &str,
    port: u16,
    fingerprint: &str,
    algorithm: &str,
) -> (step: HostKeyStep)
    ensures
        step_matches(step, channel, *check, session_id@, host@, port, fingerprint@, algorithm@),
{
    let warning = match check {
        KnownHostCheck::Matched => {
            return HostKeyStep::Trust;
        },
        KnownHostCheck::Unknown => None,
        KnownHostCheck::Mismatch(e) => Some(
            concat("主机密钥与已保存的不匹配！可能是代理/堡垒机或中间人攻击。\n原始错误: ", e.as_str()),
        ),
    };
    let (event, confirm_command) = match channel {
        HostKeyChannel::Ssh => (owned("ssh-hostkey-request"), None),
        HostKeyChannel::Sftp => (owned("sftp-hostkey-request"), Some(owned("confirm_sftp_hostkey"))),
    };
    HostKeyStep::Ask(
        HostKeyPrompt {
            event,
            session_id: owned(session_id),
            host: owned(host),
            port,
            fingerprint: owned(fingerprint),
            algorithm: owned(algorithm),
            confirm_command,
            warning,
        },
    )
}

/// The verdict of a check given the user's answer (`None` when the question timed out or
/// went unanswered): a known key is trusted as it is; another is trusted, and saved, only
/// when the user said yes, and a failure to save it is reported for a key that was not on
/// file; otherwise the connection is cancelled with an error.
pub open spec fn spec_verdict(check: KnownHostCheck, answer: Option<bool>) -> HostKeyVerdict {
    match check {
        KnownHostCheck::Matched => HostKeyVerdict { trusted: true, save_key: false, report_save_failure: false, error: None },
        _ => if answer == Some(true) {
            HostKeyVerdict {
                trusted: true,
                save_key: true,
                report_save_failure: check is Unknown,
                error: None,
            }
        } else {
            HostKeyVerdict { trusted: false, save_key: false, report_save_failure: false, error: None }
        },
    }
}

pub fn host_key_verdict(check: &KnownHostCheck, answer: Option<bool>) -> (verdict: HostKeyVerdict)
    ensures
        verdict.trusted == spec_verdict(*check, answer).trusted,
        verdict.save_key == spec_verdict(*check, answer).save_key,
        verdict.report_save_failure == spec_verdict(*check, answer).report_save_failure,
        verdict.trusted ==> verdict.error is None,
        !verdict.trusted ==> opt_view(verdict.error) == Some("Host key not trusted. Connection cancelled."@),
        verdict.trusted ==> (check is Matched || answer == Some(true)),
        verdict.save_key ==> answer == Some(true),
{
    match check {
        KnownHostCheck::Matched => HostKeyVerdict { trusted: true, save_key: false, report_save_failure: false, error: None },
        _ => {
            let accepted = match answer {
                Some(true) => true,
                _ => false,
            };
            if accepted {
                let unknown = match check {
                    KnownHostCheck::Unknown => true,
                    _ => false,
                };
                HostKeyVerdict { trusted: true, save_key: true, report_save_failure: unknown, error: None }
            } else {
                HostKeyVerdict {
                    trusted: false,
                    save_key: false,
                    report_save_failure: false,
                    error: Some(owned("Host key not trusted. Connection cancelled.")),
                }
            }
        },
    }
}

/// The event a connection's errors are sent as.
pub fn host_key_error_event(channel: HostKeyChannel, session_id: &str) -> (event: String)
    ensures
        event@ == match channel {
            HostKeyChannel::Ssh => "ssh-error-"@,
            HostKeyChannel::Sftp => "sftp-error-"@,
        } + session_id@,
{
    match channel {
        HostKeyChannel::Ssh => concat("ssh-error-", session_id),
        HostKeyChannel::Sftp => concat("sftp-error-", session_id),
    }
}

/// How an endpoint is written in a known-hosts file: the host alone on port 22, else the
/// host in brackets, a colon and the port.
pub open spec fn spec_known_host_name(host: Seq<char>, port: u16) -> Seq<char> {
    if port == 22 {
        host
    } else {
        "["@ + host + "]:"@ + decimal(port as nat)
    }
}

/// The known-hosts line for a key: the endpoint, a space, and the key in OpenSSH form.
pub fn known_host_line(host: &str, port: u16, openssh_key: &str) -> (line: String)
    ensures
        line@ == spec_known_host_name(host@, port) + " "@ + openssh_key@,
{
    let name = if port == 22 {
        owned(host)
    } else {
        let a = concat("[", host);
        let b = concat(a.as_str(), "]:");
        concat(b.as_str(), decimal_string(port as u64).as_str())
    };
    let with_space = concat(name.as_str(), " ");
    concat(with_space.as_str(), openssh_key)
}


/// A key on file is trusted at once; for any other key the user is asked, about exactly
/// the session, endpoint, fingerprint and algorithm checked, through the terminal's event
/// or the file browser's (which also names its confirm command), with a warning exactly
/// when the key differs from the one on file.
pub proof fn lemma_host_key_step_asks(
    step: HostKeyStep,
    channel: HostKeyChannel,
    check: KnownHostCheck,
    session_id: Seq<char>,
    host: Seq<char>,
    port: u16,
    fingerprint: Seq<char>,
    algorithm: Seq<char>,
)
    requires
        step_matches(step, channel, check, session_id, host, port, fingerprint, algorithm),
    ensures
        step is Trust <==> check is Matched,
        step matches HostKeyStep::Ask(p) ==> {
            &&& p.session_id@ == session_id
            &&& p.host@ == host
            &&& p.port == port
            &&& p.fingerprint@ == fingerprint
            &&& p.algorithm@ == algorithm
            &&& (channel == HostKeyChannel::Ssh ==> p.event@ == "ssh-hostkey-request"@ && p.confirm_command is None)
            &&& (channel == HostKeyChannel::Sftp ==> p.event@ == "sftp-hostkey-request"@ && p.confirm_command is Some)
            &&& (p.warning is Some <==> check is Mismatch)
        },
{
}

/// A connection goes on exactly when the key was on file or the user said yes; the key is
/// saved exactly when it was not on file and the user said yes; a failure to save it is
/// reported exactly when the key was unknown and the user said yes.
pub proof fn lemma_host_key_verdict_rules(check: KnownHostCheck, answer: Option<bool>)
    ensures
        spec_verdict(check, answer).trusted <==> (check is Matched || answer == Some(true)),
        spec_verdict(check, answer).save_key <==> (!(check is Matched) && answer == Some(true)),
        spec_verdict(check, answer).report_save_failure <==> (check is Unknown && answer == Some(true)),
{
}
} // verus!
