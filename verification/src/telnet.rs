use vstd::prelude::*;
use vstd::slice::slice_to_vec;

use crate::bytes::{copy_range, push_all};
use crate::ssh_config::opt_str_view;
use crate::text::{
    char_is_ascii_alphanumeric, chars_eq, chars_of, is_ascii_alphanumeric, lowercase_chars, owned, string_of,
    to_ascii_lowercase, trim, trim_chars,
};

verus! {

pub const TELNET_IAC: u8 = 255;
pub const TELNET_DONT: u8 = 254;
pub const TELNET_DO: u8 = 253;
pub const TELNET_WONT: u8 = 252;
pub const TELNET_WILL: u8 = 251;
pub const TELNET_SB: u8 = 250;
pub const TELNET_SE: u8 = 240;
pub const TELNET_OPT_ECHO: u8 = 1;
pub const TELNET_OPT_SGA: u8 = 3;
pub const TELNET_OPT_TTYPE: u8 = 24;
pub const TELNET_OPT_NAWS: u8 = 31;
pub const TELNET_OPT_LINEMODE: u8 = 34;
pub const TELNET_TTYPE_IS: u8 = 0;
pub const TELNET_TTYPE_SEND: u8 = 1;

/// A character allowed in a terminal type name.
pub open spec fn term_type_char(c: char) -> bool {
    is_ascii_alphanumeric(c) || c == '-' || c == '_' || c == '.'
}

/// The terminal type to announce: the trimmed setting when it is a plain name, else
/// `xterm-256color` (also for an absent or blank setting and for `network` in any case).
pub open spec fn spec_telnet_term_type(value: Option<Seq<char>>) -> Seq<char> {
    term_type_or_default(
        trim(
            match value {
                Some(v) => v,
                None => Seq::<char>::empty(),
            },
        ),
    )
}

/// A trimmed terminal type, or `xterm-256color` when it is blank, `network` in any case,
/// or holds a character other than ASCII letters, digits, `-`, `_` and `.`.
pub open spec fn term_type_or_default(t: Seq<char>) -> Seq<char> {
    if t.len() == 0 || to_ascii_lowercase(t) == "network"@ || !(forall|i: int|
        0 <= i < t.len() ==> term_type_char(#[trigger] t[i])) {
        "xterm-256color"@
    } else {
        t
    }
}

pub fn normalize_telnet_term_type(value: Option<&str>) -> (term: String)
    ensures
        term@ == spec_telnet_term_type(opt_str_view(value)),
{
    let t = match value {
        Some(v) => trim_chars(chars_of(v).as_slice()),
        None => Vec::new(),
    };
    let mut valid = true;
    let mut i: usize = 0;
    while i < t.len()
        invariant
            i <= t@.len(),
            valid == (forall|k: int| 0 <= k < i ==> term_type_char(#[trigger] t@[k])),
        decreases t@.len() - i,
    {
        let c = t[i];
        let ok = char_is_ascii_alphanumeric(c) || c == '-' || c == '_' || c == '.';
        valid = valid && ok;
        i += 1;
    }
    proof {
        match value {
            Some(v) => {},
            None => {
                assert(t@ =~= trim(Seq::<char>::empty()));
            },
        }
    }
    let lower = lowercase_chars(t.as_slice());
    let network = chars_of("network");
    if t.len() == 0 || chars_eq(lower.as_slice(), network.as_slice()) || !valid {
        proof {
            let tt = trim(
                match opt_str_view(value) {
                    Some(v) => v,
                    None => Seq::<char>::empty(),
                },
            );
            assert(t@ == tt);
            if !valid {
                let k = choose|k: int| 0 <= k < t@.len() && !term_type_char(t@[k]);
                assert(!term_type_char(tt[k]));
            }
        }
        return owned("xterm-256color");
    }
    string_of(t.as_slice())
}

/// A byte of a subnegotiation, with IAC doubled.
pub open spec fn escaped(v: u8) -> Seq<u8> {
    if v == TELNET_IAC {
        seq![TELNET_IAC, TELNET_IAC]
    } else {
        seq![v]
    }
}

/// The NAWS report of a window size.
pub open spec fn spec_naws(cols: u32, rows: u32) -> Seq<u8> {
    let c = cols as u16;
    let r = rows as u16;
    seq![TELNET_IAC, TELNET_SB, TELNET_OPT_NAWS] + escaped((c >> 8u16) as u8) + escaped(c as u8) + escaped(
        (r >> 8u16) as u8,
    ) + escaped(r as u8) + seq![TELNET_IAC, TELNET_SE]
}

/// The terminal-type report.
pub open spec fn spec_ttype(term: Seq<u8>) -> Seq<u8> {
    seq![TELNET_IAC, TELNET_SB, TELNET_OPT_TTYPE, TELNET_TTYPE_IS] + term + seq![TELNET_IAC, TELNET_SE]
}

/// The reply to one option command, and whether window-size reports are enabled afterwards.
pub open spec fn option_reply(naws: bool, command: u8, option: u8, naws_report: Seq<u8>) -> (bool, Seq<u8>) {
    if command == TELNET_DO {
        if option == TELNET_OPT_TTYPE || option == TELNET_OPT_SGA {
            (naws, seq![TELNET_IAC, TELNET_WILL, option])
        } else if option == TELNET_OPT_NAWS {
            (true, seq![TELNET_IAC, TELNET_WILL, option] + naws_report)
        } else {
            (naws, seq![TELNET_IAC, TELNET_WONT, option])
        }
    } else if command == TELNET_DONT {
        (if option == TELNET_OPT_NAWS {
            false
        } else {
            naws
        }, seq![])
    } else if command == TELNET_WILL {
        if option == TELNET_OPT_ECHO || option == TELNET_OPT_SGA {
            (naws, seq![TELNET_IAC, TELNET_DO, option])
        } else {
            (naws, seq![TELNET_IAC, TELNET_DONT, option])
        }
    } else {
        (naws, seq![])
    }
}

/// The reply to a subnegotiation payload: the terminal type when it is asked for.
pub open spec fn subnegotiation_reply(payload: Seq<u8>, term: Seq<u8>) -> Seq<u8> {
    if payload.len() >= 2 && payload[0] == TELNET_OPT_TTYPE && payload[1] == TELNET_TTYPE_SEND {
        spec_ttype(term)
    } else {
        seq![]
    }
}

/// Where the IAC SE that closes a subnegotiation starts, scanning from `end`
/// (doubled IACs are skipped); `None` when the data ends first.
pub open spec fn subnegotiation_end(b: Seq<u8>, end: int) -> Option<int>
    decreases b.len() - end,
{
    if end < 0 || end >= b.len() {
        None
    } else if b[end] == TELNET_IAC {
        if end + 1 >= b.len() {
            None
        } else if b[end + 1] == TELNET_SE {
            Some(end)
        } else {
            subnegotiation_end(b, end + 2)
        }
    } else {
        subnegotiation_end(b, end + 1)
    }
}

/// The result of parsing: plain data, replies, an incomplete command left over, and whether
/// window-size reports are enabled.
pub type TelnetParse = (Seq<u8>, Seq<u8>, Seq<u8>, bool);

pub open spec fn prepend(data: Seq<u8>, replies: Seq<u8>, r: TelnetParse) -> TelnetParse {
    (data + r.0, replies + r.1, r.2, r.3)
}

/// Parses `b` from position `i` with window-size reports in state `naws`.
pub open spec fn telnet_parse(b: Seq<u8>, i: int, naws: bool, naws_report: Seq<u8>, term: Seq<u8>) -> TelnetParse
    decreases b.len() - i,
{
    if i < 0 || i >= b.len() {
        (seq![], seq![], seq![], naws)
    } else if b[i] != TELNET_IAC {
        prepend(seq![b[i]], seq![], telnet_parse(b, i + 1, naws, naws_report, term))
    } else if i + 1 >= b.len() {
        (seq![], seq![], b.subrange(i, b.len() as int), naws)
    } else {
        let command = b[i + 1];
        if command == TELNET_IAC {
            prepend(seq![TELNET_IAC], seq![], telnet_parse(b, i + 2, naws, naws_report, term))
        } else if command == TELNET_DO || command == TELNET_DONT || command == TELNET_WILL || command
            == TELNET_WONT {
            if i + 2 >= b.len() {
                (seq![], seq![], b.subrange(i, b.len() as int), naws)
            } else {
                let (naws2, reply) = option_reply(naws, command, b[i + 2], naws_report);
                prepend(seq![], reply, telnet_parse(b, i + 3, naws2, naws_report, term))
            }
        } else if command == TELNET_SB {
            match subnegotiation_end(b, i + 2) {
                None => (seq![], seq![], b.subrange(i, b.len() as int), naws),
                Some(end) => {
                    proof {
                        lemma_subnegotiation_end(b, i + 2);
                    }
                    prepend(
                    seq![],
                    subnegotiation_reply(b.subrange(i + 2, end), term),
                    telnet_parse(b, end + 2, naws, naws_report, term),
                )
                },
            }
        } else {
            telnet_parse(b, i + 2, naws, naws_report, term)
        }
    }
}

pub proof fn lemma_subnegotiation_end(b: Seq<u8>, end: int)
    requires
        0 <= end,
    ensures
        subnegotiation_end(b, end) matches Some(e) ==> end <= e && e + 1 < b.len() && b[e] == TELNET_IAC
            && b[e + 1] == TELNET_SE,
    decreases b.len() - end,
{
    if 0 <= end < b.len() {
        if b[end] == TELNET_IAC {
            if end + 1 < b.len() && b[end + 1] != TELNET_SE {
                lemma_subnegotiation_end(b, end + 2);
            }
        } else {
            lemma_subnegotiation_end(b, end + 1);
        }
    }
}

/// Negotiates Telnet options for a terminal: echo and suppress-go-ahead are accepted,
/// the terminal type and window size are reported, everything else is refused.
#[derive(Clone, Debug)]
pub struct TelnetNegotiator {
    term_type: String,
    cols: u32,
    rows: u32,
    naws_enabled: bool,
}

/// `v` clamped to 1..=65535.
pub open spec fn clamp_dimension(v: u32) -> u32 {
    if v < 1 {
        1
    } else if v > 0xffff {
        0xffff
    } else {
        v
    }
}

fn clamp_dim(v: u32) -> (out: u32)
    ensures
        out == clamp_dimension(v),
{
    if v < 1 {
        1
    } else if v > 0xffff {
        0xffff
    } else {
        v
    }
}

impl TelnetNegotiator {
    pub const IAC: u8 = 255;
    pub const DONT: u8 = 254;
    pub const DO: u8 = 253;
    pub const WONT: u8 = 252;
    pub const WILL: u8 = 251;
    pub const SB: u8 = 250;
    pub const SE: u8 = 240;
    pub const OPT_ECHO: u8 = 1;
    pub const OPT_SGA: u8 = 3;
    pub const OPT_TTYPE: u8 = 24;
    pub const OPT_NAWS: u8 = 31;
    pub const OPT_LINEMODE: u8 = 34;
    pub const TTYPE_IS: u8 = 0;
    pub const TTYPE_SEND: u8 = 1;

    pub closed spec fn term_bytes(&self) -> Seq<u8> {
        vstd::utf8::encode_utf8(self.term_type@)
    }

    pub closed spec fn spec_cols(&self) -> u32 {
        self.cols
    }

    pub closed spec fn spec_rows(&self) -> u32 {
        self.rows
    }

    pub closed spec fn naws(&self) -> bool {
        self.naws_enabled
    }

    /// The current window-size report.
    pub open spec fn naws_report(&self) -> Seq<u8> {
        spec_naws(self.spec_cols(), self.spec_rows())
    }

    pub fn new(term_type: String, cols: u32, rows: u32) -> (n: Self)
        ensures
            n.term_bytes() == vstd::utf8::encode_utf8(term_type@),
            n.spec_cols() == clamp_dimension(cols),
            n.spec_rows() == clamp_dimension(rows),
            !n.naws(),
    {
        TelnetNegotiator { term_type, cols: clamp_dim(cols), rows: clamp_dim(rows), naws_enabled: false }
    }

    /// Records a new window size; reports it when the server enabled window-size reports.
    pub fn set_window_size(&mut self, cols: u32, rows: u32) -> (report: Vec<u8>)
        ensures
            final(self).spec_cols() == clamp_dimension(cols),
            final(self).spec_rows() == clamp_dimension(rows),
            final(self).naws() == old(self).naws(),
            final(self).term_bytes() == old(self).term_bytes(),
            report@ == if old(self).naws() {
                spec_naws(clamp_dimension(cols), clamp_dimension(rows))
            } else {
                Seq::<u8>::empty()
            },
    {
        self.cols = clamp_dim(cols);
        self.rows = clamp_dim(rows);
        if self.naws_enabled {
            self.naws_response()
        } else {
            Vec::new()
        }
    }

    fn push_command(response: &mut Vec<u8>, command: u8, option: u8)
        ensures
            final(response)@ == old(response)@ + seq![TELNET_IAC, command, option],
    {
        response.push(Self::IAC);
        response.push(command);
        response.push(option);
        assert(response@ =~= old(response)@ + seq![TELNET_IAC, command, option]);
    }

    fn push_subnegotiation_byte(response: &mut Vec<u8>, value: u8)
        ensures
            final(response)@ == old(response)@ + escaped(value),
    {
        response.push(value);
        if value == Self::IAC {
            response.push(Self::IAC);
        }
        assert(response@ =~= old(response)@ + escaped(value));
    }

    pub fn naws_response(&self) -> (report: Vec<u8>)
        ensures
            report@ == self.naws_report(),
    {
        let cols = self.cols as u16;
        let rows = self.rows as u16;
        let mut response: Vec<u8> = Vec::new();
        response.push(Self::IAC);
        response.push(Self::SB);
        response.push(Self::OPT_NAWS);
        Self::push_subnegotiation_byte(&mut response, (cols >> 8u16) as u8);
        Self::push_subnegotiation_byte(&mut response, cols as u8);
        Self::push_subnegotiation_byte(&mut response, (rows >> 8u16) as u8);
        Self::push_subnegotiation_byte(&mut response, rows as u8);
        response.push(Self::IAC);
        response.push(Self::SE);
        assert(response@ =~= self.naws_report());
        response
    }

    pub fn ttype_response(&self) -> (report: Vec<u8>)
        ensures
            report@ == spec_ttype(self.term_bytes()),
    {
        let mut response: Vec<u8> = Vec::new();
        response.push(Self::IAC);
        response.push(Self::SB);
        response.push(Self::OPT_TTYPE);
        response.push(Self::TTYPE_IS);
        push_all(&mut response, self.term_type.as_str().as_bytes());
        response.push(Self::IAC);
        response.push(Self::SE);
        assert(response@ =~= spec_ttype(self.term_bytes()));
        response
    }

    fn handle_option(&mut self, command: u8, option: u8, responses: &mut Vec<u8>)
        ensures
            ({
                let (naws, reply) = option_reply(old(self).naws(), command, option, old(self).naws_report());
                &&& final(self).naws() == naws
                &&& final(responses)@ == old(responses)@ + reply
            }),
            final(self).spec_cols() == old(self).spec_cols(),
            final(self).spec_rows() == old(self).spec_rows(),
            final(self).term_bytes() == old(self).term_bytes(),
    {
        if command == Self::DO {
            if option == Self::OPT_TTYPE || option == Self::OPT_SGA {
                Self::push_command(responses, Self::WILL, option);
            } else if option == Self::OPT_NAWS {
                self.naws_enabled = true;
                Self::push_command(responses, Self::WILL, option);
                let report = self.naws_response();
                push_all(responses, report.as_slice());
                assert(responses@ =~= old(responses)@ + (seq![TELNET_IAC, TELNET_WILL, option]
                    + old(self).naws_report()));
            } else {
                Self::push_command(responses, Self::WONT, option);
            }
        } else if command == Self::DONT {
            if option == Self::OPT_NAWS {
                self.naws_enabled = false;
            }
            assert(responses@ =~= old(responses)@ + Seq::<u8>::empty());
        } else if command == Self::WILL {
            if option == Self::OPT_ECHO || option == Self::OPT_SGA {
                Self::push_command(responses, Self::DO, option);
            } else {
                Self::push_command(responses, Self::DONT, option);
            }
        } else {
            assert(responses@ =~= old(responses)@ + Seq::<u8>::empty());
        }
    }

    fn handle_subnegotiation(&mut self, payload: &[u8], responses: &mut Vec<u8>)
        ensures
            final(responses)@ == old(responses)@ + subnegotiation_reply(payload@, old(self).term_bytes()),
            *final(self) == *old(self),
    {
        if payload.len() >= 2 && payload[0] == Self::OPT_TTYPE && payload[1] == Self::TTYPE_SEND {
            let report = self.ttype_response();
            push_all(responses, report.as_slice());
        } else {
            assert(responses@ =~= old(responses)@ + Seq::<u8>::empty());
        }
    }

    /// Splits received bytes into plain data, the replies to send back, and an incomplete
    /// command at the end to be parsed again with the next bytes; updates whether window-size
    /// reports are enabled.
    pub fn parse(&mut self, bytes: &[u8]) -> (out: (Vec<u8>, Vec<u8>, Vec<u8>))
        ensures
            ({
                let r = telnet_parse(bytes@, 0, old(self).naws(), old(self).naws_report(), old(self).term_bytes());
                &&& out.0@ == r.0
                &&& out.1@ == r.1
                &&& out.2@ == r.2
                &&& final(self).naws() == r.3
            }),
            final(self).spec_cols() == old(self).spec_cols(),
            final(self).spec_rows() == old(self).spec_rows(),
            final(self).term_bytes() == old(self).term_bytes(),
    {
        let ghost report = old(self).naws_report();
        let ghost term = old(self).term_bytes();
        let ghost whole = telnet_parse(bytes@, 0, old(self).naws(), report, term);
        let mut data: Vec<u8> = Vec::new();
        let mut responses: Vec<u8> = Vec::new();
        let mut index: usize = 0;
        assert(whole == prepend(data@, responses@, telnet_parse(bytes@, 0, self.naws(), report, term))) by {
            let r = telnet_parse(bytes@, 0, self.naws(), report, term);
            assert(data@ + r.0 =~= r.0);
            assert(responses@ + r.1 =~= r.1);
        }
        while index < bytes.len()
            invariant
                index <= bytes@.len(),
                report == self.naws_report(),
                term == self.term_bytes(),
                report == old(self).naws_report(),
                term == old(self).term_bytes(),
                self.spec_cols() == old(self).spec_cols(),
                self.spec_rows() == old(self).spec_rows(),
                whole == telnet_parse(bytes@, 0, old(self).naws(), old(self).naws_report(), old(self).term_bytes()),
                whole == prepend(data@, responses@, telnet_parse(bytes@, index as int, self.naws(), report, term)),
            decreases bytes@.len() - index,
        {
            let ghost d0 = data@;
            let ghost r0 = responses@;
            let ghost n0 = self.naws();
            if bytes[index] != Self::IAC {
                data.push(bytes[index]);
                proof {
                    let rest = telnet_parse(bytes@, index + 1, n0, report, term);
                    assert(d0 + (seq![bytes@[index as int]] + rest.0) =~= data@ + rest.0);
                    assert(r0 + (Seq::<u8>::empty() + rest.1) =~= responses@ + rest.1);
                }
                index += 1;
                continue;
            }
            if index + 1 >= bytes.len() {
                let rest = copy_range(bytes, index, bytes.len());
                proof {
                    assert(d0 + Seq::<u8>::empty() =~= d0);
                    assert(r0 + Seq::<u8>::empty() =~= r0);
                }
                return (data, responses, rest);
            }
            let command = bytes[index + 1];
            if command == Self::IAC {
                data.push(Self::IAC);
                proof {
                    let rest = telnet_parse(bytes@, index + 2, n0, report, term);
                    assert(d0 + (seq![TELNET_IAC] + rest.0) =~= data@ + rest.0);
                    assert(r0 + (Seq::<u8>::empty() + rest.1) =~= responses@ + rest.1);
                }
                index += 2;
            } else if command == Self::DO || command == Self::DONT || command == Self::WILL || command
                == Self::WONT {
                if index + 2 >= bytes.len() {
                    let rest = copy_range(bytes, index, bytes.len());
                    proof {
                        assert(d0 + Seq::<u8>::empty() =~= d0);
                        assert(r0 + Seq::<u8>::empty() =~= r0);
                    }
                    return (data, responses, rest);
                }
                self.handle_option(command, bytes[index + 2], &mut responses);
                proof {
                    let (n2, reply) = option_reply(n0, command, bytes@[index + 2], report);
                    let rest = telnet_parse(bytes@, index + 3, n2, report, term);
                    assert(d0 + (Seq::<u8>::empty() + rest.0) =~= data@ + rest.0);
                    assert(r0 + (reply + rest.1) =~= responses@ + rest.1);
                }
                index += 3;
            } else if command == Self::SB {
                let payload_start = index + 2;
                let end = match find_subnegotiation_end(bytes, payload_start) {
                    Some(end) => end,
                    None => {
                        let rest = copy_range(bytes, index, bytes.len());
                        proof {
                            assert(d0 + Seq::<u8>::empty() =~= d0);
                            assert(r0 + Seq::<u8>::empty() =~= r0);
                        }
                        return (data, responses, rest);
                    },
                };
                proof {
                    lemma_subnegotiation_end(bytes@, payload_start as int);
                }
                let payload = slice_subrange_bytes(bytes, payload_start, end);
                self.handle_subnegotiation(payload.as_slice(), &mut responses);
                proof {
                    let reply = subnegotiation_reply(payload@, term);
                    let rest = telnet_parse(bytes@, end + 2, n0, report, term);
                    assert(d0 + (Seq::<u8>::empty() + rest.0) =~= data@ + rest.0);
                    assert(r0 + (reply + rest.1) =~= responses@ + rest.1);
                }
                index = end + 2;
            } else {
                index += 2;
            }
        }
        proof {
            assert(data@ + Seq::<u8>::empty() =~= data@);
            assert(responses@ + Seq::<u8>::empty() =~= responses@);
        }
        (data, responses, Vec::new())
    }
}

fn find_subnegotiation_end(bytes: &[u8], start: usize) -> (end: Option<usize>)
    requires
        start <= bytes@.len(),
    ensures
        match end {
            Some(e) => subnegotiation_end(bytes@, start as int) == Some(e as int),
            None => subnegotiation_end(bytes@, start as int) is None,
        },
{
    let mut end = start;
    while end < bytes.len()
        invariant
            start <= end,
            subnegotiation_end(bytes@, start as int) == subnegotiation_end(bytes@, end as int),
        decreases bytes@.len() - end,
    {
        if bytes[end] == TELNET_IAC {
            if end + 1 >= bytes.len() {
                return None;
            }
            if bytes[end + 1] == TELNET_SE {
                return Some(end);
            }
            end += 2;
        } else {
            end += 1;
        }
    }
    None
}

fn slice_subrange_bytes(bytes: &[u8], from: usize, to: usize) -> (out: Vec<u8>)
    requires
        from <= to <= bytes@.len(),
    ensures
        out@ == bytes@.subrange(from as int, to as int),
{
    copy_range(bytes, from, to)
}


proof fn lemma_subnegotiation_end_shift(x: Seq<u8>, y: Seq<u8>, k: int)
    requires
        0 <= k,
    ensures
        subnegotiation_end(x + y, x.len() + k) == match subnegotiation_end(y, k) {
            Some(e) => Some(e + x.len()),
            None => None::<int>,
        },
    decreases y.len() - k,
{
    let c = x + y;
    let i = x.len() + k;
    if k < y.len() {
        assert(c[i] == y[k]);
        if y[k] == TELNET_IAC {
            if k + 1 < y.len() {
                assert(c[i + 1] == y[k + 1]);
                if y[k + 1] != TELNET_SE {
                    lemma_subnegotiation_end_shift(x, y, k + 2);
                }
            }
        } else {
            lemma_subnegotiation_end_shift(x, y, k + 1);
        }
    }
}

proof fn lemma_subnegotiation_end_extends(a: Seq<u8>, b: Seq<u8>, k: int)
    requires
        0 <= k,
        subnegotiation_end(a, k) is Some,
    ensures
        subnegotiation_end(a + b, k) == subnegotiation_end(a, k),
    decreases a.len() - k,
{
    let c = a + b;
    assert(c[k] == a[k]);
    if a[k] == TELNET_IAC {
        assert(c[k + 1] == a[k + 1]);
        if a[k + 1] != TELNET_SE {
            lemma_subnegotiation_end_extends(a, b, k + 2);
        }
    } else {
        lemma_subnegotiation_end_extends(a, b, k + 1);
    }
}

/// Parsing bytes behind others from where they start gives what parsing them alone gives.
proof fn lemma_telnet_parse_shift(x: Seq<u8>, y: Seq<u8>, k: int, naws: bool, report: Seq<u8>, term: Seq<u8>)
    requires
        0 <= k <= y.len(),
    ensures
        telnet_parse(x + y, x.len() + k, naws, report, term) == telnet_parse(y, k, naws, report, term),
    decreases y.len() - k,
{
    let c = x + y;
    let i = x.len() + k;
    if k < y.len() {
        assert(c[i] == y[k]);
        if y[k] != TELNET_IAC {
            lemma_telnet_parse_shift(x, y, k + 1, naws, report, term);
        } else if k + 1 >= y.len() {
            assert(c.subrange(i, c.len() as int) =~= y.subrange(k, y.len() as int));
        } else {
            assert(c[i + 1] == y[k + 1]);
            let command = y[k + 1];
            if command == TELNET_IAC {
                lemma_telnet_parse_shift(x, y, k + 2, naws, report, term);
            } else if command == TELNET_DO || command == TELNET_DONT || command == TELNET_WILL || command
                == TELNET_WONT {
                if k + 2 >= y.len() {
                    assert(c.subrange(i, c.len() as int) =~= y.subrange(k, y.len() as int));
                } else {
                    assert(c[i + 2] == y[k + 2]);
                    let (naws2, _) = option_reply(naws, command, y[k + 2], report);
                    lemma_telnet_parse_shift(x, y, k + 3, naws2, report, term);
                }
            } else if command == TELNET_SB {
                lemma_subnegotiation_end_shift(x, y, k + 2);
                match subnegotiation_end(y, k + 2) {
                    None => {
                        assert(c.subrange(i, c.len() as int) =~= y.subrange(k, y.len() as int));
                    },
                    Some(end) => {
                        lemma_subnegotiation_end(y, k + 2);
                        assert(c.subrange(i + 2, end + x.len()) =~= y.subrange(k + 2, end));
                        lemma_telnet_parse_shift(x, y, end + 2, naws, report, term);
                    },
                }
            } else {
                lemma_telnet_parse_shift(x, y, k + 2, naws, report, term);
            }
        }
    }
}

proof fn lemma_telnet_parse_extends(a: Seq<u8>, b: Seq<u8>, i: int, naws: bool, report: Seq<u8>, term: Seq<u8>)
    requires
        0 <= i <= a.len(),
    ensures
        ({
            let r = telnet_parse(a, i, naws, report, term);
            telnet_parse(a + b, i, naws, report, term) == prepend(r.0, r.1, telnet_parse(r.2 + b, 0, r.3, report, term))
        }),
    decreases a.len() - i,
{
    let c = a + b;
    let r = telnet_parse(a, i, naws, report, term);
    if i >= a.len() {
        lemma_telnet_parse_shift(a, b, 0, naws, report, term);
        assert(Seq::<u8>::empty() + b =~= b);
        let t = telnet_parse(b, 0, naws, report, term);
        assert(Seq::<u8>::empty() + t.0 =~= t.0);
        assert(Seq::<u8>::empty() + t.1 =~= t.1);
    } else {
        assert(c[i] == a[i]);
        let rest = a.subrange(i, a.len() as int);
        assert(c =~= a.subrange(0, i) + (rest + b));
        if a[i] != TELNET_IAC {
            lemma_telnet_parse_extends(a, b, i + 1, naws, report, term);
            let r1 = telnet_parse(a, i + 1, naws, report, term);
            let t = telnet_parse(r1.2 + b, 0, r1.3, report, term);
            assert(seq![a[i]] + (r1.0 + t.0) =~= (seq![a[i]] + r1.0) + t.0);
            assert(Seq::<u8>::empty() + (r1.1 + t.1) =~= (Seq::<u8>::empty() + r1.1) + t.1);
        } else if i + 1 >= a.len() {
            lemma_telnet_parse_shift(a.subrange(0, i), rest + b, 0, naws, report, term);
            let t = telnet_parse(rest + b, 0, naws, report, term);
            assert(Seq::<u8>::empty() + t.0 =~= t.0);
            assert(Seq::<u8>::empty() + t.1 =~= t.1);
        } else {
            assert(c[i + 1] == a[i + 1]);
            let command = a[i + 1];
            if command == TELNET_IAC {
                lemma_telnet_parse_extends(a, b, i + 2, naws, report, term);
                let r1 = telnet_parse(a, i + 2, naws, report, term);
                let t = telnet_parse(r1.2 + b, 0, r1.3, report, term);
                assert(seq![TELNET_IAC] + (r1.0 + t.0) =~= (seq![TELNET_IAC] + r1.0) + t.0);
                assert(Seq::<u8>::empty() + (r1.1 + t.1) =~= (Seq::<u8>::empty() + r1.1) + t.1);
            } else if command == TELNET_DO || command == TELNET_DONT || command == TELNET_WILL || command
                == TELNET_WONT {
                if i + 2 >= a.len() {
                    lemma_telnet_parse_shift(a.subrange(0, i), rest + b, 0, naws, report, term);
                    let t = telnet_parse(rest + b, 0, naws, report, term);
                    assert(Seq::<u8>::empty() + t.0 =~= t.0);
                    assert(Seq::<u8>::empty() + t.1 =~= t.1);
                } else {
                    assert(c[i + 2] == a[i + 2]);
                    let (naws2, reply) = option_reply(naws, command, a[i + 2], report);
                    lemma_telnet_parse_extends(a, b, i + 3, naws2, report, term);
                    let r1 = telnet_parse(a, i + 3, naws2, report, term);
                    let t = telnet_parse(r1.2 + b, 0, r1.3, report, term);
                    assert(Seq::<u8>::empty() + (r1.0 + t.0) =~= (Seq::<u8>::empty() + r1.0) + t.0);
                    assert(reply + (r1.1 + t.1) =~= (reply + r1.1) + t.1);
                }
            } else if command == TELNET_SB {
                match subnegotiation_end(a, i + 2) {
                    None => {
                        lemma_telnet_parse_shift(a.subrange(0, i), rest + b, 0, naws, report, term);
                        let t = telnet_parse(rest + b, 0, naws, report, term);
                        assert(Seq::<u8>::empty() + t.0 =~= t.0);
                        assert(Seq::<u8>::empty() + t.1 =~= t.1);
                    },
                    Some(end) => {
                        lemma_subnegotiation_end(a, i + 2);
                        lemma_subnegotiation_end_extends(a, b, i + 2);
                        assert(c.subrange(i + 2, end) =~= a.subrange(i + 2, end));
                        lemma_telnet_parse_extends(a, b, end + 2, naws, report, term);
                        let reply = subnegotiation_reply(a.subrange(i + 2, end), term);
                        let r1 = telnet_parse(a, end + 2, naws, report, term);
                        let t = telnet_parse(r1.2 + b, 0, r1.3, report, term);
                        assert(Seq::<u8>::empty() + (r1.0 + t.0) =~= (Seq::<u8>::empty() + r1.0) + t.0);
                        assert(reply + (r1.1 + t.1) =~= (reply + r1.1) + t.1);
                    },
                }
            } else {
                lemma_telnet_parse_extends(a, b, i + 2, naws, report, term);
            }
        }
    }
}

/// Received bytes may be split anywhere: parsing the first piece, then what it left over
/// followed by the second piece (with the window-size state the first parse ended in),
/// gives the data and replies of parsing both at once, one after the other, and the same
/// leftover and state.
pub proof fn lemma_telnet_parse_split(a: Seq<u8>, b: Seq<u8>, naws: bool, report: Seq<u8>, term: Seq<u8>)
    ensures
        ({
            let r1 = telnet_parse(a, 0, naws, report, term);
            let r2 = telnet_parse(r1.2 + b, 0, r1.3, report, term);
            let whole = telnet_parse(a + b, 0, naws, report, term);
            &&& whole.0 == r1.0 + r2.0
            &&& whole.1 == r1.1 + r2.1
            &&& whole.2 == r2.2
            &&& whole.3 == r2.3
        }),
{
    lemma_telnet_parse_extends(a, b, 0, naws, report, term);
}

/// How each option command is answered, whatever the option and the window-size state:
/// a server's WILL is accepted (DO) for echo (1) and suppress-go-ahead (3) and refused
/// (DONT) otherwise; its DO is accepted (WILL) for terminal type (24) and
/// suppress-go-ahead, accepted for window size (31) together with the current window-size
/// report and with reports switched on, and refused (WONT) otherwise; its DONT is not
/// answered and switches window-size reports off for window size; its WONT is not
/// answered.
pub proof fn lemma_option_replies(naws: bool, option: u8, report: Seq<u8>)
    ensures
        option_reply(naws, 251, option, report) == (naws, if option == 1 || option == 3 {
            seq![255u8, 253u8, option]
        } else {
            seq![255u8, 254u8, option]
        }),
        option_reply(naws, 253, option, report) == if option == 24 || option == 3 {
            (naws, seq![255u8, 251u8, option])
        } else if option == 31 {
            (true, seq![255u8, 251u8, 31u8] + report)
        } else {
            (naws, seq![255u8, 252u8, option])
        },
        option_reply(naws, 254, option, report) == (option != 31 && naws, Seq::<u8>::empty()),
        option_reply(naws, 252, option, report) == (naws, Seq::<u8>::empty()),
{
    assert(option_reply(naws, 254, option, report).1 =~= Seq::<u8>::empty());
    assert(option_reply(naws, 252, option, report).1 =~= Seq::<u8>::empty());
}

/// Parsing a three-byte option command answers it as `option_reply` says and passes no
/// data on; for example a server's IAC WILL SGA is answered IAC DO SGA.
pub proof fn lemma_parse_single_option(naws: bool, command: u8, option: u8, report: Seq<u8>, term: Seq<u8>)
    requires
        command == 251 || command == 252 || command == 253 || command == 254,
    ensures
        telnet_parse(seq![255u8, command, option], 0, naws, report, term) == (
            Seq::<u8>::empty(),
            option_reply(naws, command, option, report).1,
            Seq::<u8>::empty(),
            option_reply(naws, command, option, report).0,
        ),
{
    let b = seq![255u8, command, option];
    let (naws2, reply) = option_reply(naws, command, option, report);
    assert(telnet_parse(b, 3, naws2, report, term) == (Seq::<u8>::empty(), Seq::<u8>::empty(), Seq::<u8>::empty(), naws2));
    assert(Seq::<u8>::empty() + Seq::<u8>::empty() =~= Seq::<u8>::empty());
    assert(reply + Seq::<u8>::empty() =~= reply);
}

/// A subnegotiation asking for the terminal type (option 24, SEND 1) is answered with IAC
/// SB TERMINAL-TYPE IS, the terminal type's bytes and IAC SE; any other subnegotiation is
/// not answered.
pub proof fn lemma_subnegotiation_replies(payload: Seq<u8>, term: Seq<u8>)
    ensures
        subnegotiation_reply(payload, term) == if payload.len() >= 2 && payload[0] == 24 && payload[1] == 1 {
            seq![255u8, 250u8, 24u8, 0u8] + term + seq![255u8, 240u8]
        } else {
            Seq::<u8>::empty()
        },
{
}

/// A window dimension is kept when it lies in 1..=65535, raised to 1 when it is 0 and
/// lowered to 65535 when it is larger.
pub proof fn lemma_clamped_dimensions(v: u32)
    ensures
        1 <= clamp_dimension(v) <= 65535,
        1 <= v <= 65535 ==> clamp_dimension(v) == v,
        v == 0 ==> clamp_dimension(v) == 1,
        v > 65535 ==> clamp_dimension(v) == 65535,
{
}

/// The window-size report of dimensions up to 65535 is IAC SB NAWS, the columns and then
/// the rows as two bytes each, high byte first, each 255 doubled, and IAC SE.
pub proof fn lemma_naws_report_bytes(cols: u32, rows: u32)
    requires
        cols <= 65535,
        rows <= 65535,
    ensures
        spec_naws(cols, rows) == seq![255u8, 250u8, 31u8] + escaped((cols / 256) as u8) + escaped((cols % 256) as u8)
            + escaped((rows / 256) as u8) + escaped((rows % 256) as u8) + seq![255u8, 240u8],
        forall|v: u8| #[trigger] escaped(v) == if v == 255 { seq![255u8, 255u8] } else { seq![v] },
{
    let c = cols as u16;
    let r = rows as u16;
    assert((c >> 8u16) as u8 == (cols / 256) as u8 && c as u8 == (cols % 256) as u8) by (bit_vector)
        requires
            cols <= 65535,
            c == cols as u16,
    ;
    assert((r >> 8u16) as u8 == (rows / 256) as u8 && r as u8 == (rows % 256) as u8) by (bit_vector)
        requires
            rows <= 65535,
            r == rows as u16,
    ;
}

/// Without a terminal type setting, or with a blank one, `xterm-256color` is announced.
pub proof fn lemma_default_term_type(value: Option<Seq<char>>)
    requires
        value matches Some(v) ==> trim(v).len() == 0,
    ensures
        spec_telnet_term_type(value) == "xterm-256color"@,
{
    if value is None {
        crate::text::lemma_trim_ends(Seq::<char>::empty());
    }
}
} // verus!
