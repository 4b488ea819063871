use vstd::prelude::*;
use vstd::slice::slice_to_vec;
use vstd::utf8::encode_utf8;

use crate::bytes::{copy_range, push_all};
use crate::file_names::{from_utf8_lossy, utf8_lossy};
use crate::serial::{login_script_payload, spec_login_script_payload};
use crate::text::{to_lowercase, trim, trim_str, unicode_lowercase};

verus! {

/// How much of the recent terminal text, in bytes, is searched for login prompts.
pub const PROMPT_WINDOW_BYTES: usize = 800;

/// `login:`
pub open spec fn login_prompt() -> Seq<u8> {
    seq![108u8, 111u8, 103u8, 105u8, 110u8, 58u8]
}

/// `username:`
pub open spec fn username_prompt() -> Seq<u8> {
    seq![117u8, 115u8, 101u8, 114u8, 110u8, 97u8, 109u8, 101u8, 58u8]
}

/// `password:`
pub open spec fn password_prompt() -> Seq<u8> {
    seq![112u8, 97u8, 115u8, 115u8, 119u8, 111u8, 114u8, 100u8, 58u8]
}

/// Whether `needle` occurs in `hay`.
pub open spec fn bytes_contain(hay: Seq<u8>, needle: Seq<u8>) -> bool {
    exists|i: int| 0 <= i && i + needle.len() <= hay.len() && #[trigger] hay.subrange(i, i + needle.len()) == needle
}

/// The text a chunk of terminal output is searched as: read as UTF-8 with invalid bytes
/// replaced, in lower case.
pub open spec fn prompt_text(output: Seq<u8>) -> Seq<char> {
    unicode_lowercase(utf8_lossy(output))
}

pub open spec fn joined_prompt_bytes(recent: Seq<u8>, output: Seq<u8>) -> Seq<u8> {
    recent + encode_utf8(prompt_text(output))
}

/// The recent text once a chunk of output arrived: unchanged when the chunk is empty or
/// its text blank; else the chunk's text added, cut to its last 800 bytes.
pub open spec fn spec_kept_prompt(recent: Seq<u8>, output: Seq<u8>) -> Seq<u8> {
    if output.len() == 0 || trim(prompt_text(output)).len() == 0 {
        recent
    } else {
        let b = joined_prompt_bytes(recent, output);
        if b.len() > PROMPT_WINDOW_BYTES {
            b.subrange(b.len() - PROMPT_WINDOW_BYTES, b.len() as int)
        } else {
            b
        }
    }
}

/// Whether the cut to the last 800 bytes falls between characters (at a byte that is not a
/// UTF-8 continuation byte); the text cannot be cut inside a character.
pub open spec fn cut_falls_between_chars(recent: Seq<u8>, output: Seq<u8>) -> bool {
    let b = joined_prompt_bytes(recent, output);
    output.len() == 0 || trim(prompt_text(output)).len() == 0 || b.len() <= PROMPT_WINDOW_BYTES || !(0x80 <= b[b.len()
        - PROMPT_WINDOW_BYTES] < 0xc0)
}

/// What the automatic Telnet login sends.
#[derive(Clone, Debug, PartialEq, Eq)]
pub enum LoginSend {
    /// The user name and a line break, after a `login:` or `username:` prompt.
    Username(Vec<u8>),
    /// The password and a line break, after a `password:` prompt.
    Password(Vec<u8>),
    /// The login script and a line break, once the user name and password are sent.
    Script(Vec<u8>),
}

/// A send as its kind (0 the user name, 1 the password, 2 the script) and its bytes.
pub open spec fn send_view(s: LoginSend) -> (int, Seq<u8>) {
    match s {
        LoginSend::Username(b) => (0, b@),
        LoginSend::Password(b) => (1, b@),
        LoginSend::Script(b) => (2, b@),
    }
}

pub open spec fn line(text: Seq<char>) -> Seq<u8> {
    encode_utf8(text) + seq![13u8, 10u8]
}

pub open spec fn opt_view(value: Option<String>) -> Option<Seq<char>> {
    match value {
        Some(v) => Some(v@),
        None => None,
    }
}

/// The automatic login of a Telnet session: it answers the server's prompts with the
/// configured user name and password, then sends the login script.
pub struct TelnetLogin {
    pub username: String,
    pub password: String,
    pub login_script: Option<String>,
    /// The recent terminal text, as UTF-8 bytes.
    pub recent: Vec<u8>,
    pub sent_username: bool,
    pub sent_password: bool,
    pub script_sent: bool,
}

/// The login's answer to a chunk of output: the prompts are looked for in the recent text
/// with the chunk; the user name goes once a `login:` or `username:` prompt was seen, the
/// password once a `password:` prompt was, and the script once both are sent.
pub open spec fn spec_login_step(login: TelnetLogin, output: Seq<u8>) -> (Seq<u8>, bool, bool, bool, Seq<(int, Seq<u8>)>) {
    let recent = spec_kept_prompt(login.recent_bytes(), output);
    let active = output.len() > 0;
    let send_user = active && !login.sent_username && (bytes_contain(recent, login_prompt()) || bytes_contain(
        recent,
        username_prompt(),
    ));
    let send_pass = active && !login.sent_password && bytes_contain(recent, password_prompt());
    let sent_user = login.sent_username || send_user;
    let sent_pass = login.sent_password || send_pass;
    let send_script = active && !login.script_sent && sent_user && sent_pass;
    let script = spec_login_script_payload(opt_view(login.login_script), seq![13u8, 10u8]);
    let sends = (if send_user {
        seq![(0int, line(login.username@))]
    } else {
        Seq::<(int, Seq<u8>)>::empty()
    }) + (if send_pass {
        seq![(1int, line(login.password@))]
    } else {
        Seq::<(int, Seq<u8>)>::empty()
    }) + (if send_script && script is Some {
        seq![(2int, script.unwrap())]
    } else {
        Seq::<(int, Seq<u8>)>::empty()
    });
    (recent, sent_user, sent_pass, login.script_sent || send_script, sends)
}

fn line_bytes(text: &str) -> (bytes: Vec<u8>)
    ensures
        bytes@ == line(text@),
{
    let mut bytes = slice_to_vec(text.as_bytes());
    bytes.push(13);
    bytes.push(10);
    bytes
}

impl TelnetLogin {
    pub open spec fn recent_bytes(&self) -> Seq<u8> {
        self.recent@
    }

    /// A login for the configured user name (trimmed), password (none is empty) and
    /// script; a user name or password that is empty counts as sent.
    pub fn new(username: &str, password: Option<String>, login_script: Option<String>) -> (login: Self)
        ensures
            login.username@ == trim(username@),
            login.password@ == match password {
                Some(p) => p@,
                None => Seq::<char>::empty(),
            },
            login.login_script == login_script,
            login.recent_bytes() == Seq::<u8>::empty(),
            login.sent_username == (trim(username@).len() == 0),
            login.sent_password == (login.password@.len() == 0),
            !login.script_sent,
    {
        let username = trim_str(username);
        let password = match password {
            Some(p) => p,
            None => String::new(),
        };
        let sent_username = username.as_str().is_empty();
        let sent_password = password.as_str().is_empty();
        TelnetLogin { username, password, login_script, recent: Vec::new(), sent_username, sent_password, script_sent: false }
    }

    /// Whether the recent text can take this output (see `cut_falls_between_chars`).
    pub fn can_take(&self, output: &[u8]) -> (ok: bool)
        ensures
            ok == cut_falls_between_chars(self.recent_bytes(), output@),
    {
        if output.len() == 0 {
            return true;
        }
        let text = to_lowercase(from_utf8_lossy(output).as_str());
        if trim_str(text.as_str()).as_str().is_empty() {
            return true;
        }
        let bytes = text.as_str().as_bytes();
        if bytes.len() <= PROMPT_WINDOW_BYTES && self.recent.len() <= PROMPT_WINDOW_BYTES - bytes.len() {
            return true;
        }
        let b = if bytes.len() >= PROMPT_WINDOW_BYTES {
            bytes[bytes.len() - PROMPT_WINDOW_BYTES]
        } else {
            self.recent[self.recent.len() - (PROMPT_WINDOW_BYTES - bytes.len())]
        };
        !(0x80 <= b && b < 0xc0)
    }

    /// Takes a chunk of terminal output and says what to send in answer, in order.
    pub fn observe(&mut self, output: &[u8]) -> (sends: Vec<LoginSend>)
        requires
            cut_falls_between_chars(old(self).recent_bytes(), output@),
        ensures
            ({
                let (recent, sent_user, sent_pass, script_sent, expected) = spec_login_step(*old(self), output@);
                &&& final(self).recent_bytes() == recent
                &&& final(self).sent_username == sent_user
                &&& final(self).sent_password == sent_pass
                &&& final(self).script_sent == script_sent
                &&& sends@.map_values(|s: LoginSend| send_view(s)) == expected
            }),
            final(self).username == old(self).username,
            final(self).password == old(self).password,
            final(self).login_script == old(self).login_script,
    {
        let ghost before = *self;
        let mut sends: Vec<LoginSend> = Vec::new();
        if output.len() == 0 {
            assert(sends@.map_values(|s: LoginSend| send_view(s)) =~= Seq::<(int, Seq<u8>)>::empty());
            return sends;
        }
        let text = to_lowercase(from_utf8_lossy(output).as_str());
        if !trim_str(text.as_str()).as_str().is_empty() {
            let mut joined = self.recent.clone();
            push_all(&mut joined, text.as_str().as_bytes());
            if joined.len() > PROMPT_WINDOW_BYTES {
                self.recent = copy_range(joined.as_slice(), joined.len() - PROMPT_WINDOW_BYTES, joined.len());
            } else {
                self.recent = joined;
            }
        }
        let ghost recent = self.recent@;
        assert(recent == spec_kept_prompt(before.recent@, output@));
        let has_login = contains_bytes(self.recent.as_slice(), &[108u8, 111, 103, 105, 110, 58]);
        let has_user = contains_bytes(self.recent.as_slice(), &[117u8, 115, 101, 114, 110, 97, 109, 101, 58]);
        let has_pass = contains_bytes(self.recent.as_slice(), &[112u8, 97, 115, 115, 119, 111, 114, 100, 58]);
        proof {
            assert([108u8, 111, 103, 105, 110, 58]@ =~= login_prompt());
            assert([117u8, 115, 101, 114, 110, 97, 109, 101, 58]@ =~= username_prompt());
            assert([112u8, 97, 115, 115, 119, 111, 114, 100, 58]@ =~= password_prompt());
        }
        let ghost mut expected = Seq::<(int, Seq<u8>)>::empty();
        if !self.sent_username && (has_login || has_user) {
            sends.push(LoginSend::Username(line_bytes(self.username.as_str())));
            self.sent_username = true;
            proof {
                expected = expected.push((0int, line(self.username@)));
            }
        }
        if !self.sent_password && has_pass {
            sends.push(LoginSend::Password(line_bytes(self.password.as_str())));
            self.sent_password = true;
            proof {
                expected = expected.push((1int, line(self.password@)));
            }
        }
        if !self.script_sent && self.sent_username && self.sent_password {
            match login_script_payload(self.login_script.as_ref(), &[13u8, 10]) {
                Some(p) => {
                    sends.push(LoginSend::Script(p));
                    proof {
                        expected = expected.push((2int, sends@.last()->Script_0@));
                    }
                },
                None => {},
            }
            self.script_sent = true;
        }
        proof {
            assert([13u8, 10]@ =~= seq![13u8, 10u8]);
            let (r, su, sp, ss, ex) = spec_login_step(before, output@);
            assert(sends@.map_values(|s: LoginSend| send_view(s)) =~= expected);
            assert(expected =~= ex);
        }
        sends
    }

    /// When the server stays quiet and there is neither a user name nor a password to
    /// send, the login script goes at once (what to send, if the script is not blank).
    pub fn on_idle(&mut self) -> (script: Option<Vec<u8>>)
        ensures
            final(self).username == old(self).username,
            final(self).password == old(self).password,
            final(self).login_script == old(self).login_script,
            final(self).recent_bytes() == old(self).recent_bytes(),
            final(self).sent_username == old(self).sent_username,
            final(self).sent_password == old(self).sent_password,
            ({
                let due = !old(self).script_sent && old(self).username@.len() == 0 && old(self).password@.len() == 0;
                &&& final(self).script_sent == (old(self).script_sent || due)
                &&& match script {
                    Some(p) => due && spec_login_script_payload(opt_view(old(self).login_script), seq![13u8, 10u8]) == Some(p@),
                    None => !due || spec_login_script_payload(opt_view(old(self).login_script), seq![13u8, 10u8]) is None,
                }
            }),
    {
        if !self.script_sent && self.username.as_str().is_empty() && self.password.as_str().is_empty() {
            self.script_sent = true;
            let payload = login_script_payload(self.login_script.as_ref(), &[13u8, 10]);
            assert([13u8, 10]@ =~= seq![13u8, 10u8]);
            payload
        } else {
            None
        }
    }
}

fn matches_at(hay: &[u8], needle: &[u8], at: usize) -> (eq: bool)
    requires
        at + needle@.len() <= hay@.len(),
    ensures
        eq == (hay@.subrange(at as int, at + needle@.len()) == needle@),
{
    let n = hay.len();
    let mut k: usize = 0;
    while k < needle.len()
        invariant
            k <= needle@.len(),
            at + needle@.len() <= hay@.len(),
            n == hay@.len(),
            forall|j: int| 0 <= j < k ==> hay@[at + j] == needle@[j],
        decreases needle@.len() - k,
    {
        assert(at + k < hay@.len());
        if hay[at + k] != needle[k] {
            assert(hay@.subrange(at as int, at + needle@.len())[k as int] != needle@[k as int]);
            return false;
        }
        k += 1;
    }
    assert(hay@.subrange(at as int, at + needle@.len()) =~= needle@);
    true
}

/// Whether `needle` occurs in `hay`.
fn contains_bytes(hay: &[u8], needle: &[u8]) -> (found: bool)
    ensures
        found == bytes_contain(hay@, needle@),
{
    if needle.len() > hay.len() {
        return false;
    }
    if needle.len() == 0 {
        assert(hay@.subrange(0int, 0int + needle@.len()) =~= needle@);
        return true;
    }
    let mut i: usize = 0;
    while needle.len() <= hay.len() - i
        invariant
            0 < needle@.len() <= hay@.len(),
            i <= hay@.len(),
            forall|k: int| 0 <= k < i ==> #[trigger] hay@.subrange(k, k + needle@.len()) != needle@,
        decreases hay@.len() - i,
    {
        if matches_at(hay, needle, i) {
            return true;
        }
        i += 1;
    }
    false
}

/// The bytes of a Telnet `IAC NOP`, sent to keep an idle connection open.
pub fn telnet_nop() -> (bytes: Vec<u8>)
    ensures
        bytes@ == seq![255u8, 241u8],
{
    let mut bytes = Vec::new();
    bytes.push(255u8);
    bytes.push(241u8);
    bytes
}

/// Whether a keepalive is due: one is configured (`interval_secs` above 0) and that many
/// seconds have passed since anything was sent.
pub fn keepalive_due(interval_secs: u64, elapsed_nanos: u128) -> (due: bool)
    ensures
        due == (interval_secs > 0 && elapsed_nanos >= interval_secs * 1_000_000_000),
{
    interval_secs > 0 && elapsed_nanos >= interval_secs as u128 * 1_000_000_000
}

} // verus!
