use vstd::prelude::*;
use vstd::slice::slice_to_vec;

use crate::ssh_config::{opt_str_view, opt_view, spec_sanitize_optional, sanitize_optional, SshConfig};
use crate::text::{
    chars_eq, chars_eq_str, chars_of, concat, decimal, decimal_string, hex4, hex4_string, lowercase_chars,
    owned, push_char, string_of, to_ascii_lowercase, trim, trim_chars, trim_str, trimmed_lowercase,
};

verus! {

/// The lowest baud rate a serial port may be opened with.
pub const SERIAL_MIN_BAUD_RATE: u32 = 50;
/// Longest allowed delay, in milliseconds, after connecting and between script lines.
pub const SERIAL_MAX_DELAY_MS: u64 = 60_000;

#[derive(Clone, Copy, Debug, PartialEq, Eq, Structural)]
pub enum DataBits {
    Five,
    Six,
    Seven,
    Eight,
}

#[derive(Clone, Copy, Debug, PartialEq, Eq, Structural)]
pub enum StopBits {
    One,
    Two,
}

#[derive(Clone, Copy, Debug, PartialEq, Eq, Structural)]
pub enum Parity {
    Disabled,
    Odd,
    Even,
}

#[derive(Clone, Copy, Debug, PartialEq, Eq, Structural)]
pub enum FlowControl {
    Disabled,
    Software,
    Hardware,
}

// ---------------------------------------------------------------------------
// Single settings
// ---------------------------------------------------------------------------

pub open spec fn spec_serial_path(path: Option<Seq<char>>) -> Result<Seq<char>, Seq<char>> {
    match spec_sanitize_optional(path) {
        Some(p) => Ok(p),
        None => Err("串口设备路径不能为空"@),
    }
}

pub fn configured_serial_port_path(config: &SshConfig) -> (result: Result<String, String>)
    ensures
        match result {
            Ok(p) => spec_serial_path(opt_view(config.serial_path)) == Ok::<Seq<char>, Seq<char>>(p@),
            Err(e) => spec_serial_path(opt_view(config.serial_path)) == Err::<Seq<char>, Seq<char>>(e@),
        },
{
    match sanitize_optional(config.serial_path.clone()) {
        Some(p) => Ok(p),
        None => Err(owned("串口设备路径不能为空")),
    }
}

pub open spec fn spec_baud_rate(baud_rate: Option<u32>) -> Result<u32, Seq<char>> {
    let value = match baud_rate {
        Some(v) => v,
        None => 9600u32,
    };
    if value >= SERIAL_MIN_BAUD_RATE {
        Ok(value)
    } else {
        Err("波特率不能低于 50"@)
    }
}

pub fn serial_baud_rate(config: &SshConfig) -> (result: Result<u32, String>)
    ensures
        match result {
            Ok(v) => spec_baud_rate(config.baud_rate) == Ok::<u32, Seq<char>>(v),
            Err(e) => spec_baud_rate(config.baud_rate) == Err::<u32, Seq<char>>(e@),
        },
{
    let value = match config.baud_rate {
        Some(v) => v,
        None => 9600,
    };
    if value >= SERIAL_MIN_BAUD_RATE {
        Ok(value)
    } else {
        Err(owned("波特率不能低于 50"))
    }
}

pub open spec fn spec_data_bits(data_bits: Option<u8>) -> Result<DataBits, Seq<char>> {
    let value = match data_bits {
        Some(v) => v,
        None => 8u8,
    };
    if value == 5 {
        Ok(DataBits::Five)
    } else if value == 6 {
        Ok(DataBits::Six)
    } else if value == 7 {
        Ok(DataBits::Seven)
    } else if value == 8 {
        Ok(DataBits::Eight)
    } else {
        Err("不支持的数据位: "@ + decimal(value as nat))
    }
}

pub fn serial_data_bits(config: &SshConfig) -> (result: Result<DataBits, String>)
    ensures
        match result {
            Ok(v) => spec_data_bits(config.data_bits) == Ok::<DataBits, Seq<char>>(v),
            Err(e) => spec_data_bits(config.data_bits) == Err::<DataBits, Seq<char>>(e@),
        },
{
    let value = match config.data_bits {
        Some(v) => v,
        None => 8,
    };
    if value == 5 {
        Ok(DataBits::Five)
    } else if value == 6 {
        Ok(DataBits::Six)
    } else if value == 7 {
        Ok(DataBits::Seven)
    } else if value == 8 {
        Ok(DataBits::Eight)
    } else {
        let number = decimal_string(value as u64);
        Err(concat("不支持的数据位: ", number.as_str()))
    }
}

/// The trimmed setting, or `default` when absent.
pub open spec fn setting_or(value: Option<Seq<char>>, default: Seq<char>) -> Seq<char> {
    trim(
        match value {
            Some(v) => v,
            None => default,
        },
    )
}

pub open spec fn spec_stop_bits(stop_bits: Option<Seq<char>>) -> Result<StopBits, Seq<char>> {
    let v = setting_or(stop_bits, "1"@);
    if v == "1"@ {
        Ok(StopBits::One)
    } else if v == "2"@ {
        Ok(StopBits::Two)
    } else {
        Err("不支持的停止位: "@ + v)
    }
}

/// The trimmed setting (or `default`), as characters.
fn setting_chars(value: &Option<String>, default: &str) -> (out: Vec<char>)
    ensures
        out@ == setting_or(opt_view(*value), default@),
{
    match value {
        Some(v) => trim_chars(chars_of(v.as_str()).as_slice()),
        None => trim_chars(chars_of(default).as_slice()),
    }
}

pub fn serial_stop_bits(config: &SshConfig) -> (result: Result<StopBits, String>)
    ensures
        match result {
            Ok(v) => spec_stop_bits(opt_view(config.stop_bits)) == Ok::<StopBits, Seq<char>>(v),
            Err(e) => spec_stop_bits(opt_view(config.stop_bits)) == Err::<StopBits, Seq<char>>(e@),
        },
{
    let v = setting_chars(&config.stop_bits, "1");
    if chars_eq_str(v.as_slice(), "1") {
        Ok(StopBits::One)
    } else if chars_eq_str(v.as_slice(), "2") {
        Ok(StopBits::Two)
    } else {
        let shown = string_of(v.as_slice());
        Err(concat("不支持的停止位: ", shown.as_str()))
    }
}

pub open spec fn spec_parity(parity: Option<Seq<char>>) -> Result<Parity, Seq<char>> {
    let v = to_ascii_lowercase(setting_or(parity, "none"@));
    if v == "none"@ {
        Ok(Parity::Disabled)
    } else if v == "odd"@ {
        Ok(Parity::Odd)
    } else if v == "even"@ {
        Ok(Parity::Even)
    } else {
        Err("不支持的校验位: "@ + v)
    }
}

pub fn serial_parity(config: &SshConfig) -> (result: Result<Parity, String>)
    ensures
        match result {
            Ok(v) => spec_parity(opt_view(config.parity)) == Ok::<Parity, Seq<char>>(v),
            Err(e) => spec_parity(opt_view(config.parity)) == Err::<Parity, Seq<char>>(e@),
        },
{
    let raw = setting_chars(&config.parity, "none");
    let v = lowercase_chars(raw.as_slice());
    if chars_eq_str(v.as_slice(), "none") {
        Ok(Parity::Disabled)
    } else if chars_eq_str(v.as_slice(), "odd") {
        Ok(Parity::Odd)
    } else if chars_eq_str(v.as_slice(), "even") {
        Ok(Parity::Even)
    } else {
        let shown = string_of(v.as_slice());
        Err(concat("不支持的校验位: ", shown.as_str()))
    }
}

pub open spec fn spec_flow_control(flow: Option<Seq<char>>) -> Result<FlowControl, Seq<char>> {
    let v = to_ascii_lowercase(setting_or(flow, "none"@));
    if v == "none"@ {
        Ok(FlowControl::Disabled)
    } else if v == "software"@ {
        Ok(FlowControl::Software)
    } else if v == "hardware"@ {
        Ok(FlowControl::Hardware)
    } else {
        Err("不支持的流控方式: "@ + v)
    }
}

pub fn serial_flow_control(config: &SshConfig) -> (result: Result<FlowControl, String>)
    ensures
        match result {
            Ok(v) => spec_flow_control(opt_view(config.flow_control)) == Ok::<FlowControl, Seq<char>>(v),
            Err(e) => spec_flow_control(opt_view(config.flow_control)) == Err::<FlowControl, Seq<char>>(e@),
        },
{
    let raw = setting_chars(&config.flow_control, "none");
    let v = lowercase_chars(raw.as_slice());
    if chars_eq_str(v.as_slice(), "none") {
        Ok(FlowControl::Disabled)
    } else if chars_eq_str(v.as_slice(), "software") {
        Ok(FlowControl::Software)
    } else if chars_eq_str(v.as_slice(), "hardware") {
        Ok(FlowControl::Hardware)
    } else {
        let shown = string_of(v.as_slice());
        Err(concat("不支持的流控方式: ", shown.as_str()))
    }
}

/// Each parity setting name selects its own parity: `none` (also when nothing is set)
/// disables it, `odd` selects odd and `even` even parity, case and surrounding whitespace
/// aside; any other name is refused.
pub proof fn lemma_parity_names(parity: Option<Seq<char>>)
    ensures
        ({
            let v = to_ascii_lowercase(setting_or(parity, "none"@));
            &&& (spec_parity(parity) == Ok::<Parity, Seq<char>>(Parity::Disabled) <==> v == "none"@)
            &&& (spec_parity(parity) == Ok::<Parity, Seq<char>>(Parity::Odd) <==> v == "odd"@)
            &&& (spec_parity(parity) == Ok::<Parity, Seq<char>>(Parity::Even) <==> v == "even"@)
            &&& (spec_parity(parity) is Err <==> (v != "none"@ && v != "odd"@ && v != "even"@))
        }),
{
    reveal_strlit("none");
    reveal_strlit("odd");
    reveal_strlit("even");
    assert("none"@.len() != "odd"@.len());
    assert("none"@[0] != "even"@[0]);
    assert("odd"@.len() != "even"@.len());
}

/// Each flow control setting name selects its own flow control: `none` (also when nothing
/// is set) disables it, `software` and `hardware` select those, case and surrounding
/// whitespace aside; any other name is refused.
pub proof fn lemma_flow_control_names(flow: Option<Seq<char>>)
    ensures
        ({
            let v = to_ascii_lowercase(setting_or(flow, "none"@));
            &&& (spec_flow_control(flow) == Ok::<FlowControl, Seq<char>>(FlowControl::Disabled) <==> v == "none"@)
            &&& (spec_flow_control(flow) == Ok::<FlowControl, Seq<char>>(FlowControl::Software) <==> v == "software"@)
            &&& (spec_flow_control(flow) == Ok::<FlowControl, Seq<char>>(FlowControl::Hardware) <==> v == "hardware"@)
            &&& (spec_flow_control(flow) is Err <==> (v != "none"@ && v != "software"@ && v != "hardware"@))
        }),
{
    reveal_strlit("none");
    reveal_strlit("software");
    reveal_strlit("hardware");
    assert("none"@.len() != "software"@.len());
    assert("none"@.len() != "hardware"@.len());
    assert("software"@[0] != "hardware"@[0]);
}

/// Stop bits `1` (also when nothing is set) and `2` select one and two stop bits,
/// surrounding whitespace aside; anything else is refused.
pub proof fn lemma_stop_bits_names(stop_bits: Option<Seq<char>>)
    ensures
        ({
            let v = setting_or(stop_bits, "1"@);
            &&& (spec_stop_bits(stop_bits) == Ok::<StopBits, Seq<char>>(StopBits::One) <==> v == "1"@)
            &&& (spec_stop_bits(stop_bits) == Ok::<StopBits, Seq<char>>(StopBits::Two) <==> v == "2"@)
            &&& (spec_stop_bits(stop_bits) is Err <==> (v != "1"@ && v != "2"@))
        }),
{
    reveal_strlit("1");
    reveal_strlit("2");
    assert("1"@[0] != "2"@[0]);
}

/// Data bits 5 to 8 select those widths (8 when nothing is set); any other number is
/// refused.
pub proof fn lemma_data_bits_values(data_bits: Option<u8>)
    ensures
        ({
            let v = match data_bits {
                Some(b) => b,
                None => 8u8,
            };
            &&& (spec_data_bits(data_bits) == Ok::<DataBits, Seq<char>>(DataBits::Five) <==> v == 5)
            &&& (spec_data_bits(data_bits) == Ok::<DataBits, Seq<char>>(DataBits::Six) <==> v == 6)
            &&& (spec_data_bits(data_bits) == Ok::<DataBits, Seq<char>>(DataBits::Seven) <==> v == 7)
            &&& (spec_data_bits(data_bits) == Ok::<DataBits, Seq<char>>(DataBits::Eight) <==> v == 8)
            &&& (spec_data_bits(data_bits) is Err <==> (v < 5 || v > 8))
        }),
{
}

/// Each line-ending setting name selects its own line ending: `cr` (also when nothing is
/// set) a carriage return, `lf` a line feed and `crlf` both, case and surrounding
/// whitespace aside; any other name is refused.
pub proof fn lemma_line_ending_names(value: Option<Seq<char>>)
    ensures
        ({
            let v = to_ascii_lowercase(setting_or(value, "cr"@));
            &&& (spec_serial_line_ending(value) == Ok::<Seq<char>, Seq<char>>(seq!['\r']) <==> v == "cr"@)
            &&& (spec_serial_line_ending(value) == Ok::<Seq<char>, Seq<char>>(seq!['\n']) <==> v == "lf"@)
            &&& (spec_serial_line_ending(value) == Ok::<Seq<char>, Seq<char>>(seq!['\r', '\n']) <==> v == "crlf"@)
            &&& (spec_serial_line_ending(value) is Err <==> (v != "cr"@ && v != "lf"@ && v != "crlf"@))
        }),
{
    reveal_strlit("cr");
    reveal_strlit("lf");
    reveal_strlit("crlf");
    reveal_strlit("\r");
    reveal_strlit("\n");
    reveal_strlit("\r\n");
    assert("cr"@[0] != "lf"@[0]);
    assert("cr"@.len() != "crlf"@.len());
    assert("lf"@.len() != "crlf"@.len());
    assert(seq!['\r'][0] != seq!['\n'][0]);
    assert(seq!['\r'].len() != seq!['\r', '\n'].len());
    assert(seq!['\n'].len() != seq!['\r', '\n'].len());
    assert("\r"@ =~= seq!['\r']);
    assert("\n"@ =~= seq!['\n']);
    assert("\r\n"@ =~= seq!['\r', '\n']);
}

/// The suffix of text written to a serial port: nothing for `none` (also when nothing is
/// set), a carriage return for `cr`, a line feed for `lf` and both for `crlf`, case and
/// surrounding whitespace aside; any other name is refused.
pub proof fn lemma_write_suffix_names(line_ending: Option<Seq<char>>)
    ensures
        ({
            let v = to_ascii_lowercase(trim(
                match line_ending {
                    Some(l) => l,
                    None => "none"@,
                },
            ));
            &&& (spec_write_suffix(line_ending) == Ok::<Seq<char>, Seq<char>>(Seq::<char>::empty()) <==> v == "none"@)
            &&& (spec_write_suffix(line_ending) == Ok::<Seq<char>, Seq<char>>(seq!['\r']) <==> v == "cr"@)
            &&& (spec_write_suffix(line_ending) == Ok::<Seq<char>, Seq<char>>(seq!['\n']) <==> v == "lf"@)
            &&& (spec_write_suffix(line_ending) == Ok::<Seq<char>, Seq<char>>(seq!['\r', '\n']) <==> v == "crlf"@)
            &&& (spec_write_suffix(line_ending) is Err <==> (v != "none"@ && v != "cr"@ && v != "lf"@ && v != "crlf"@))
        }),
{
    reveal_strlit("none");
    reveal_strlit("cr");
    reveal_strlit("lf");
    reveal_strlit("crlf");
    reveal_strlit("");
    reveal_strlit("\r");
    reveal_strlit("\n");
    reveal_strlit("\r\n");
    assert("none"@.len() != "cr"@.len());
    assert("none"@.len() != "lf"@.len());
    assert("none"@[0] != "crlf"@[0]);
    assert("cr"@[0] != "lf"@[0]);
    assert("cr"@.len() != "crlf"@.len());
    assert("lf"@.len() != "crlf"@.len());
    assert(""@ =~= Seq::<char>::empty());
    assert("\r"@ =~= seq!['\r']);
    assert("\n"@ =~= seq!['\n']);
    assert("\r\n"@ =~= seq!['\r', '\n']);
    assert(seq!['\r'][0] != seq!['\n'][0]);
    assert(seq!['\r'].len() != seq!['\r', '\n'].len());
    assert(seq!['\n'].len() != seq!['\r', '\n'].len());
    assert(Seq::<char>::empty().len() != seq!['\r'].len());
    assert(Seq::<char>::empty().len() != seq!['\n'].len());
    assert(Seq::<char>::empty().len() != seq!['\r', '\n'].len());
}

/// A clear request names the input buffer by `input` or `rx`, the output buffer by
/// `output` or `tx`, and both by `all`, case and surrounding whitespace aside; any other
/// name names none.
pub proof fn lemma_clear_target_names(target: Seq<char>)
    ensures
        ({
            let t = to_ascii_lowercase(trim(target));
            &&& (spec_clear_target(target) == Some(ClearTarget::Input) <==> (t == "input"@ || t == "rx"@))
            &&& (spec_clear_target(target) == Some(ClearTarget::Output) <==> (t == "output"@ || t == "tx"@))
            &&& (spec_clear_target(target) == Some(ClearTarget::All) <==> t == "all"@)
            &&& (spec_clear_target(target) is None <==> (t != "input"@ && t != "rx"@ && t != "output"@ && t != "tx"@
                && t != "all"@))
        }),
{
    reveal_strlit("input");
    reveal_strlit("rx");
    reveal_strlit("output");
    reveal_strlit("tx");
    reveal_strlit("all");
    assert("input"@.len() != "output"@.len());
    assert("input"@.len() != "tx"@.len());
    assert("input"@.len() != "all"@.len());
    assert("rx"@.len() != "output"@.len());
    assert("rx"@[0] != "tx"@[0]);
    assert("rx"@.len() != "all"@.len());
    assert("output"@.len() != "all"@.len());
    assert("tx"@.len() != "all"@.len());
}

/// The baud rate is the configured one (9600 when none is set), refused below 50.
pub proof fn lemma_baud_rate_values(baud_rate: Option<u32>)
    ensures
        ({
            let v = if baud_rate is Some { baud_rate.unwrap() } else { 9600u32 };
            &&& v >= 50 ==> spec_baud_rate(baud_rate) == Ok::<u32, Seq<char>>(v)
            &&& v < 50 ==> spec_baud_rate(baud_rate) is Err
        }),
{
}

// ---------------------------------------------------------------------------
// Text encodings
// ---------------------------------------------------------------------------

/// Whether `encoding_rs::Encoding::for_label` finds an encoding for these label bytes.
pub uninterp spec fn encoding_label_known(label: Seq<u8>) -> bool;

/// What `Encoding::encode` gives for `text` in the encoding that `Encoding::for_label`
/// finds for `label`: the encoded bytes and whether a character had to be replaced.
pub uninterp spec fn encoding_encode(label: Seq<u8>, text: Seq<char>) -> (Seq<u8>, bool);

/// Calls `encoding_rs::Encoding::for_label` and reports whether it found an encoding.
/// Which labels it knows (the WHATWG list) is left to the name `encoding_label_known`.
#[verifier::external_body]
fn encoding_for_label_exists(label: &[u8]) -> (known: bool)
    ensures
        known == encoding_label_known(label@),
{
    encoding_rs::Encoding::for_label(label).is_some()
}

/// Looks `label` up with `encoding_rs::Encoding::for_label` and, when it names an encoding,
/// encodes `text` with `Encoding::encode`, returning the bytes and the flag that reports
/// unmappable characters. The bytes themselves are left to the name `encoding_encode`.
#[verifier::external_body]
pub(crate) fn encode_with_label(label: &[u8], text: &str) -> (out: Option<(Vec<u8>, bool)>)
    ensures
        match out {
            None => !encoding_label_known(label@),
            Some((bytes, had_errors)) => encoding_label_known(label@) && encoding_encode(label@, text@)
                == (bytes@, had_errors),
        },
        crate::editable_text::standard_label(label@) ==> out is Some,
{
    match encoding_rs::Encoding::for_label(label) {
        Some(codec) => {
            let (encoded, _, had_errors) = codec.encode(text);
            Some((encoded.into_owned(), had_errors))
        },
        None => None,
    }
}

/// `a` and `b` are equal up to ASCII case.
pub open spec fn eq_ignore_ascii_case(a: Seq<char>, b: Seq<char>) -> bool {
    to_ascii_lowercase(a) == to_ascii_lowercase(b)
}

/// The serial text encoding: `None` for UTF-8 (absent, blank, `UTF-8` or `UTF8` in any case),
/// the trimmed label when `encoding_rs` knows it, and an error otherwise.
pub open spec fn spec_serial_text_encoding(value: Option<Seq<char>>) -> Result<Option<Seq<char>>, Seq<char>> {
    let label = setting_or(value, "UTF-8"@);
    if label.len() == 0 || eq_ignore_ascii_case(label, "UTF-8"@) || eq_ignore_ascii_case(label, "UTF8"@) {
        Ok(None)
    } else if encoding_label_known(vstd::utf8::encode_utf8(label)) {
        Ok(Some(label))
    } else {
        Err("不支持的串口字符编码: "@ + label)
    }
}

fn eq_ignore_case_str(a: &[char], b: &str) -> (eq: bool)
    ensures
        eq == eq_ignore_ascii_case(a@, b@),
{
    let la = lowercase_chars(a);
    let bc = chars_of(b);
    let lb = lowercase_chars(bc.as_slice());
    chars_eq(la.as_slice(), lb.as_slice())
}

pub fn serial_text_encoding(value: Option<&str>) -> (result: Result<Option<String>, String>)
    ensures
        match result {
            Ok(Some(label)) => spec_serial_text_encoding(opt_str_view(value)) == Ok::<
                Option<Seq<char>>,
                Seq<char>,
            >(Some(label@)),
            Ok(None) => spec_serial_text_encoding(opt_str_view(value)) == Ok::<Option<Seq<char>>, Seq<char>>(
                None,
            ),
            Err(e) => spec_serial_text_encoding(opt_str_view(value)) == Err::<Option<Seq<char>>, Seq<char>>(
                e@,
            ),
        },
{
    let label_chars = match value {
        Some(v) => trim_chars(chars_of(v).as_slice()),
        None => trim_chars(chars_of("UTF-8").as_slice()),
    };
    if label_chars.len() == 0 || eq_ignore_case_str(label_chars.as_slice(), "UTF-8") || eq_ignore_case_str(
        label_chars.as_slice(),
        "UTF8",
    ) {
        return Ok(None);
    }
    let label = string_of(label_chars.as_slice());
    if encoding_for_label_exists(label.as_str().as_bytes()) {
        Ok(Some(label))
    } else {
        Err(concat("不支持的串口字符编码: ", label.as_str()))
    }
}

/// Bytes of `text` in the encoding labelled `encoding`, or UTF-8 when there is none.
/// Fails when the label is unknown or a character cannot be encoded.
pub open spec fn spec_encode_text(text: Seq<char>, encoding: Option<Seq<char>>) -> Result<Seq<u8>, Seq<char>> {
    match encoding {
        None => Ok(vstd::utf8::encode_utf8(text)),
        Some(label) => {
            let label_bytes = vstd::utf8::encode_utf8(label);
            if !encoding_label_known(label_bytes) {
                Err("不支持的串口字符编码: "@ + label)
            } else if encoding_encode(label_bytes, text).1 {
                Err("文本包含无法使用 "@ + label + " 编码的字符"@)
            } else {
                Ok(encoding_encode(label_bytes, text).0)
            }
        },
    }
}

pub fn encode_text(value: &str, encoding: Option<&str>) -> (result: Result<Vec<u8>, String>)
    ensures
        match result {
            Ok(bytes) => spec_encode_text(value@, opt_str_view(encoding)) == Ok::<Seq<u8>, Seq<char>>(bytes@),
            Err(e) => spec_encode_text(value@, opt_str_view(encoding)) == Err::<Seq<u8>, Seq<char>>(e@),
        },
{
    let label = match encoding {
        None => {
            return Ok(slice_to_vec(value.as_bytes()));
        },
        Some(label) => label,
    };
    match encode_with_label(label.as_bytes(), value) {
        None => Err(concat("不支持的串口字符编码: ", label)),
        Some((bytes, had_errors)) => {
            if had_errors {
                let head = concat("文本包含无法使用 ", label);
                Err(concat(head.as_str(), " 编码的字符"))
            } else {
                Ok(bytes)
            }
        },
    }
}

// ---------------------------------------------------------------------------
// Line endings
// ---------------------------------------------------------------------------

/// The serial line ending a setting selects: `cr` (the default), `lf` or `crlf`, compared
/// after trimming and ASCII lower-casing.
pub open spec fn spec_serial_line_ending(value: Option<Seq<char>>) -> Result<Seq<char>, Seq<char>> {
    let v = to_ascii_lowercase(setting_or(value, "cr"@));
    if v == "cr"@ {
        Ok("\r"@)
    } else if v == "lf"@ {
        Ok("\n"@)
    } else if v == "crlf"@ {
        Ok("\r\n"@)
    } else {
        Err("不支持的串口行尾: "@ + v)
    }
}

pub fn serial_line_ending(value: Option<&str>) -> (result: Result<&'static str, String>)
    ensures
        match result {
            Ok(le) => spec_serial_line_ending(opt_str_view(value)) == Ok::<Seq<char>, Seq<char>>(le@),
            Err(e) => spec_serial_line_ending(opt_str_view(value)) == Err::<Seq<char>, Seq<char>>(e@),
        },
{
    let v = match value {
        Some(v) => trimmed_lowercase(v),
        None => trimmed_lowercase("cr"),
    };
    if chars_eq_str(v.as_slice(), "cr") {
        Ok("\r")
    } else if chars_eq_str(v.as_slice(), "lf") {
        Ok("\n")
    } else if chars_eq_str(v.as_slice(), "crlf") {
        Ok("\r\n")
    } else {
        let shown = string_of(v.as_slice());
        Err(concat("不支持的串口行尾: ", shown.as_str()))
    }
}

/// The line ending for a serial login script: as configured, else CR LF.
pub fn serial_login_line_ending(value: Option<&str>) -> (result: Result<&'static str, String>)
    ensures
        match result {
            Ok(le) => match value {
                Some(_) => spec_serial_line_ending(opt_str_view(value)) == Ok::<Seq<char>, Seq<char>>(le@),
                None => le@ == "\r\n"@,
            },
            Err(e) => value is Some && spec_serial_line_ending(opt_str_view(value)) == Err::<
                Seq<char>,
                Seq<char>,
            >(e@),
        },
{
    match value {
        Some(v) => serial_line_ending(Some(v)),
        None => Ok("\r\n"),
    }
}

/// `s` with every CR LF, lone CR and lone LF replaced by `line_ending`.
pub open spec fn normalize_line_endings(s: Seq<char>, line_ending: Seq<char>) -> Seq<char>
    decreases s.len(),
{
    if s.len() == 0 {
        seq![]
    } else if s[0] == '\r' {
        let rest = if s.len() > 1 && s[1] == '\n' {
            s.subrange(2, s.len() as int)
        } else {
            s.subrange(1, s.len() as int)
        };
        line_ending + normalize_line_endings(rest, line_ending)
    } else if s[0] == '\n' {
        line_ending + normalize_line_endings(s.subrange(1, s.len() as int), line_ending)
    } else {
        seq![s[0]] + normalize_line_endings(s.subrange(1, s.len() as int), line_ending)
    }
}

pub fn normalize_serial_line_endings(value: &str, line_ending: &str) -> (out: String)
    ensures
        out@ == normalize_line_endings(value@, line_ending@),
{
    let chars = chars_of(value);
    let ending = chars_of(line_ending);
    let mut out: Vec<char> = Vec::new();
    let mut i: usize = 0;
    assert(chars@.subrange(0, chars@.len() as int) =~= chars@);
    assert(out@ + normalize_line_endings(chars@, line_ending@) =~= normalize_line_endings(chars@, line_ending@));
    while i < chars.len()
        invariant
            i <= chars@.len(),
            chars@ == value@,
            ending@ == line_ending@,
            normalize_line_endings(value@, line_ending@) == out@ + normalize_line_endings(
                chars@.subrange(i as int, chars@.len() as int),
                line_ending@,
            ),
        decreases chars@.len() - i,
    {
        let ghost rest = chars@.subrange(i as int, chars@.len() as int);
        let ghost before = out@;
        let c = chars[i];
        let next: usize;
        if c == '\r' {
            if i + 1 < chars.len() && chars[i + 1] == '\n' {
                next = i + 2;
            } else {
                next = i + 1;
            }
            push_chars(&mut out, ending.as_slice());
        } else if c == '\n' {
            next = i + 1;
            push_chars(&mut out, ending.as_slice());
        } else {
            next = i + 1;
            out.push(c);
        }
        proof {
            assert(rest.subrange(next - i, rest.len() as int) =~= chars@.subrange(next as int, chars@.len() as int));
            if c == '\r' && i + 1 < chars@.len() {
                assert(rest[1] == chars@[i + 1]);
            }
            assert(before + (out@.subrange(before.len() as int, out@.len() as int)) =~= out@);
            let tail = normalize_line_endings(chars@.subrange(next as int, chars@.len() as int), line_ending@);
            assert(before + (out@.subrange(before.len() as int, out@.len() as int) + tail) =~= out@ + tail);
        }
        i = next;
    }
    assert(out@ + Seq::<char>::empty() =~= out@);
    string_of(out.as_slice())
}

/// Appends every character of `more` to `out`.
fn push_chars(out: &mut Vec<char>, more: &[char])
    ensures
        final(out)@ == old(out)@ + more@,
{
    let mut i: usize = 0;
    while i < more.len()
        invariant
            i <= more@.len(),
            out@ == old(out)@ + more@.take(i as int),
        decreases more@.len() - i,
    {
        out.push(more[i]);
        i += 1;
        assert(out@ =~= old(out)@ + more@.take(i as int));
    }
    assert(more@.take(more@.len() as int) =~= more@);
}

} // verus!

verus! {

/// The error in a result, if any.
pub open spec fn res_err<T>(r: Result<T, Seq<char>>) -> Option<Seq<char>> {
    match r {
        Ok(_) => None,
        Err(e) => Some(e),
    }
}

/// The first problem with a serial configuration, checked in this order: device path,
/// baud rate, data bits, stop bits, parity, flow control, text encoding, line ending,
/// connect delay, line delay.
pub open spec fn serial_config_error(c: SshConfig) -> Option<Seq<char>> {
    let checks = seq![
        res_err(spec_serial_path(opt_view(c.serial_path))),
        res_err(spec_baud_rate(c.baud_rate)),
        res_err(spec_data_bits(c.data_bits)),
        res_err(spec_stop_bits(opt_view(c.stop_bits))),
        res_err(spec_parity(opt_view(c.parity))),
        res_err(spec_flow_control(opt_view(c.flow_control))),
        res_err(spec_serial_text_encoding(opt_view(c.encoding))),
        res_err(spec_serial_line_ending(opt_view(c.serial_line_ending))),
    ];
    if checks[0] is Some {
        checks[0]
    } else if checks[1] is Some {
        checks[1]
    } else if checks[2] is Some {
        checks[2]
    } else if checks[3] is Some {
        checks[3]
    } else if checks[4] is Some {
        checks[4]
    } else if checks[5] is Some {
        checks[5]
    } else if checks[6] is Some {
        checks[6]
    } else if checks[7] is Some {
        checks[7]
    } else if match c.serial_connect_delay_ms {
        Some(d) => d,
        None => 0u64,
    } > SERIAL_MAX_DELAY_MS {
        Some("串口连接后延迟不能超过 60000 毫秒"@)
    } else if match c.serial_line_delay_ms {
        Some(d) => d,
        None => 0u64,
    } > SERIAL_MAX_DELAY_MS {
        Some("串口脚本行延迟不能超过 60000 毫秒"@)
    } else {
        None
    }
}

/// A serial configuration is valid exactly when each of its settings is (port path, baud
/// rate, data bits, stop bits, parity, flow control, encoding, line ending) and neither
/// delay exceeds 60 seconds (a missing delay is none).
pub proof fn lemma_serial_config_valid(c: SshConfig)
    ensures
        serial_config_error(c) is None <==> {
            &&& spec_serial_path(opt_view(c.serial_path)) is Ok
            &&& spec_baud_rate(c.baud_rate) is Ok
            &&& spec_data_bits(c.data_bits) is Ok
            &&& spec_stop_bits(opt_view(c.stop_bits)) is Ok
            &&& spec_parity(opt_view(c.parity)) is Ok
            &&& spec_flow_control(opt_view(c.flow_control)) is Ok
            &&& spec_serial_text_encoding(opt_view(c.encoding)) is Ok
            &&& spec_serial_line_ending(opt_view(c.serial_line_ending)) is Ok
            &&& (c.serial_connect_delay_ms matches Some(d) ==> d <= 60000)
            &&& (c.serial_line_delay_ms matches Some(d) ==> d <= 60000)
        },
{
}

/// Text without line breaks is left as it is.
pub proof fn lemma_line_endings_keep_plain_text(s: Seq<char>, line_ending: Seq<char>)
    requires
        !s.contains('\r'),
        !s.contains('\n'),
    ensures
        normalize_line_endings(s, line_ending) == s,
    decreases s.len(),
{
    if s.len() > 0 {
        assert(s[0] != '\r' && s[0] != '\n');
        let rest = s.subrange(1, s.len() as int);
        assert forall|c: char| rest.contains(c) implies s.contains(c) by {
            let i = choose|i: int| 0 <= i < rest.len() && rest[i] == c;
            assert(s[i + 1] == c);
        }
        lemma_line_endings_keep_plain_text(rest, line_ending);
        assert(seq![s[0]] + rest =~= s);
    }
}

/// Every line break (CR LF, a lone CR or a lone LF) becomes the line ending: when the
/// line ending holds no CR, no CR is left, and when it holds no LF, no LF is left.
pub proof fn lemma_line_endings_replace_breaks(s: Seq<char>, line_ending: Seq<char>)
    ensures
        !line_ending.contains('\r') ==> !normalize_line_endings(s, line_ending).contains('\r'),
        !line_ending.contains('\n') ==> !normalize_line_endings(s, line_ending).contains('\n'),
    decreases s.len(),
{
    if s.len() > 0 {
        let rest = if s[0] == '\r' && s.len() > 1 && s[1] == '\n' {
            s.subrange(2, s.len() as int)
        } else {
            s.subrange(1, s.len() as int)
        };
        lemma_line_endings_replace_breaks(rest, line_ending);
        let tail = normalize_line_endings(rest, line_ending);
        let head = if s[0] == '\r' || s[0] == '\n' { line_ending } else { seq![s[0]] };
        assert(normalize_line_endings(s, line_ending) == head + tail);
        assert forall|c: char| (head + tail).contains(c) implies head.contains(c) || tail.contains(c) by {
            let i = choose|i: int| 0 <= i < (head + tail).len() && (head + tail)[i] == c;
            if i < head.len() {
                assert(head[i] == c);
            } else {
                assert(tail[i - head.len()] == c);
            }
        }
    }
}

fn opt_as_str(value: &Option<String>) -> (out: Option<&str>)
    ensures
        opt_str_view(out) == opt_view(*value),
{
    match value {
        Some(v) => Some(v.as_str()),
        None => None,
    }
}

/// Checks every serial setting and fails with the first problem found.
pub fn validate_serial_config(config: &SshConfig) -> (result: Result<(), String>)
    ensures
        match result {
            Ok(()) => serial_config_error(*config) is None,
            Err(e) => serial_config_error(*config) == Some(e@),
        },
{
    match configured_serial_port_path(config) {
        Err(e) => return Err(e),
        Ok(_) => {},
    }
    match serial_baud_rate(config) {
        Err(e) => return Err(e),
        Ok(_) => {},
    }
    match serial_data_bits(config) {
        Err(e) => return Err(e),
        Ok(_) => {},
    }
    match serial_stop_bits(config) {
        Err(e) => return Err(e),
        Ok(_) => {},
    }
    match serial_parity(config) {
        Err(e) => return Err(e),
        Ok(_) => {},
    }
    match serial_flow_control(config) {
        Err(e) => return Err(e),
        Ok(_) => {},
    }
    match serial_text_encoding(opt_as_str(&config.encoding)) {
        Err(e) => return Err(e),
        Ok(_) => {},
    }
    match serial_line_ending(opt_as_str(&config.serial_line_ending)) {
        Err(e) => return Err(e),
        Ok(_) => {},
    }
    let connect_delay = match config.serial_connect_delay_ms {
        Some(d) => d,
        None => 0,
    };
    if connect_delay > SERIAL_MAX_DELAY_MS {
        return Err(owned("串口连接后延迟不能超过 60000 毫秒"));
    }
    let line_delay = match config.serial_line_delay_ms {
        Some(d) => d,
        None => 0,
    };
    if line_delay > SERIAL_MAX_DELAY_MS {
        return Err(owned("串口脚本行延迟不能超过 60000 毫秒"));
    }
    Ok(())
}

/// For a valid serial configuration, the input encoding (`None` for UTF-8) and the line
/// ending that terminal input is converted to.
pub fn serial_runtime_input_options(config: &SshConfig) -> (result: Result<(Option<String>, Option<String>), String>)
    ensures
        match result {
            Ok((encoding, line_ending)) => {
                &&& serial_config_error(*config) is None
                &&& spec_serial_text_encoding(opt_view(config.encoding)) == Ok::<Option<Seq<char>>, Seq<char>>(
                    opt_view(encoding),
                )
                &&& line_ending matches Some(le) && spec_serial_line_ending(opt_view(config.serial_line_ending))
                    == Ok::<Seq<char>, Seq<char>>(le@)
            },
            Err(e) => serial_config_error(*config) == Some(e@),
        },
{
    match validate_serial_config(config) {
        Err(e) => return Err(e),
        Ok(()) => {},
    }
    let encoding = match serial_text_encoding(opt_as_str(&config.encoding)) {
        Ok(encoding) => encoding,
        Err(e) => return Err(e),
    };
    let line_ending = match serial_line_ending(opt_as_str(&config.serial_line_ending)) {
        Ok(le) => le,
        Err(e) => return Err(e),
    };
    Ok((encoding, Some(owned(line_ending))))
}

/// How terminal input is converted before it is written to a serial port.
#[derive(Clone, Debug)]
pub struct TerminalInputSettings {
    pub input_encoding: Option<String>,
    pub input_line_ending: Option<String>,
}

/// Terminal input after line-ending conversion and encoding.
pub open spec fn spec_encode_runtime_input(settings: TerminalInputSettings, value: Seq<char>) -> Result<Seq<u8>, Seq<char>> {
    let normalized = match settings.input_line_ending {
        Some(le) => normalize_line_endings(value, le@),
        None => value,
    };
    spec_encode_text(normalized, opt_view(settings.input_encoding))
}

pub fn encode_runtime_input(settings: &TerminalInputSettings, value: &str) -> (result: Result<Vec<u8>, String>)
    ensures
        match result {
            Ok(bytes) => spec_encode_runtime_input(*settings, value@) == Ok::<Seq<u8>, Seq<char>>(bytes@),
            Err(e) => spec_encode_runtime_input(*settings, value@) == Err::<Seq<u8>, Seq<char>>(e@),
        },
{
    let normalized = match &settings.input_line_ending {
        Some(le) => normalize_serial_line_endings(value, le.as_str()),
        None => owned(value),
    };
    encode_text(normalized.as_str(), opt_as_str(&settings.input_encoding))
}

/// The kind of a serial port as the system reports it.
#[derive(Clone, Debug)]
pub enum SerialPortKind {
    Usb {
        vid: u16,
        pid: u16,
        serial_number: Option<String>,
        manufacturer: Option<String>,
        product: Option<String>,
    },
    Bluetooth,
    Pci,
    Unknown,
}

/// A serial port the system lists.
#[derive(Clone, Debug)]
pub struct SerialPortInfo {
    pub port_name: String,
    pub port_type: SerialPortKind,
}

/// A serial port as offered for selection.
#[derive(Clone, Debug)]
pub struct SerialPortOption {
    pub path: String,
    pub label: String,
    pub stable_id: String,
    pub vid: Option<u16>,
    pub pid: Option<u16>,
    pub serial_number: Option<String>,
}

/// An identifier of a port that survives renumbering: USB ports by vendor, product and
/// serial number (or path when there is none), other kinds by kind and path.
pub open spec fn spec_stable_id(path: Seq<char>, kind: SerialPortKind) -> Seq<char> {
    match kind {
        SerialPortKind::Usb { vid, pid, serial_number, .. } => "usb:"@ + hex4(vid) + ":"@ + hex4(pid) + ":"@
            + match spec_sanitize_optional(opt_view(serial_number)) {
            Some(sn) => sn,
            None => path,
        },
        SerialPortKind::Bluetooth => "bluetooth:"@ + path,
        SerialPortKind::Pci => "pci:"@ + path,
        SerialPortKind::Unknown => "path:"@ + path,
    }
}

pub fn serial_port_stable_id(path: &str, port_type: &SerialPortKind) -> (id: String)
    ensures
        id@ == spec_stable_id(path@, *port_type),
{
    match port_type {
        SerialPortKind::Usb { vid, pid, serial_number, .. } => {
            let mut id = owned("usb:");
            id = concat(id.as_str(), hex4_string(*vid).as_str());
            id = concat(id.as_str(), ":");
            id = concat(id.as_str(), hex4_string(*pid).as_str());
            id = concat(id.as_str(), ":");
            match sanitize_optional(serial_number.clone()) {
                Some(sn) => concat(id.as_str(), sn.as_str()),
                None => concat(id.as_str(), path),
            }
        },
        SerialPortKind::Bluetooth => concat("bluetooth:", path),
        SerialPortKind::Pci => concat("pci:", path),
        SerialPortKind::Unknown => concat("path:", path),
    }
}

/// The index of the first listed port whose stable identifier is `id`.
pub open spec fn first_port_with_id(ports: Seq<SerialPortInfo>, id: Seq<char>, from: int) -> Option<int>
    decreases ports.len() - from,
{
    if from < 0 || from >= ports.len() {
        None
    } else if spec_stable_id(ports[from].port_name@, ports[from].port_type) == id {
        Some(from)
    } else {
        first_port_with_id(ports, id, from + 1)
    }
}

/// The device path to open: the configured path, unless a device identifier is configured
/// and a listed port carries it, in which case that port's current name. `ports` is the
/// system's port list, or `None` when it could not be read.
pub open spec fn spec_serial_port_path(c: SshConfig, ports: Option<Seq<SerialPortInfo>>) -> Result<Seq<char>, Seq<char>> {
    match spec_serial_path(opt_view(c.serial_path)) {
        Err(e) => Err(e),
        Ok(configured) => match (spec_sanitize_optional(opt_view(c.serial_device_id)), ports) {
            (Some(id), Some(list)) => match first_port_with_id(list, id, 0) {
                Some(i) => Ok(list[i].port_name@),
                None => Ok(configured),
            },
            _ => Ok(configured),
        },
    }
}

#[verifier::loop_isolation(false)]
pub fn serial_port_path(config: &SshConfig, ports: Option<Vec<SerialPortInfo>>) -> (result: Result<String, String>)
    ensures
        match result {
            Ok(p) => spec_serial_port_path(
                *config,
                match ports {
                    Some(v) => Some(v@),
                    None => None,
                },
            ) == Ok::<Seq<char>, Seq<char>>(p@),
            Err(e) => spec_serial_port_path(
                *config,
                match ports {
                    Some(v) => Some(v@),
                    None => None,
                },
            ) == Err::<Seq<char>, Seq<char>>(e@),
        },
{
    let configured = match configured_serial_port_path(config) {
        Ok(p) => p,
        Err(e) => return Err(e),
    };
    let id = match sanitize_optional(config.serial_device_id.clone()) {
        Some(id) => id,
        None => return Ok(configured),
    };
    let list = match ports {
        Some(list) => list,
        None => return Ok(configured),
    };
    let id_chars = chars_of(id.as_str());
    let mut i: usize = 0;
    while i < list.len()
        invariant
            i <= list@.len(),
            id_chars@ == id@,
            first_port_with_id(list@, id@, 0) == first_port_with_id(list@, id@, i as int),
        decreases list@.len() - i,
    {
        let port = &list[i];
        let candidate = serial_port_stable_id(port.port_name.as_str(), &port.port_type);
        let candidate_chars = chars_of(candidate.as_str());
        if chars_eq(candidate_chars.as_slice(), id_chars.as_slice()) {
            proof {
                assert(*port == list@[i as int]);
                assert(first_port_with_id(list@, id@, i as int) == Some(i as int));
            }
            let name = port.port_name.clone();
            return Ok(name);
        }
        i += 1;
    }
    Ok(configured)
}

/// The bytes that send a login script: the trimmed script followed by the line ending, or
/// nothing when there is no script or it is blank.
pub open spec fn spec_login_script_payload(script: Option<Seq<char>>, line_ending: Seq<u8>) -> Option<Seq<u8>> {
    match script {
        Some(s) => if trim(s).len() == 0 {
            None
        } else {
            Some(vstd::utf8::encode_utf8(trim(s)) + line_ending)
        },
        None => None,
    }
}

pub fn login_script_payload(login_script: Option<&String>, line_ending: &[u8]) -> (payload: Option<Vec<u8>>)
    ensures
        match payload {
            Some(p) => spec_login_script_payload(
                match login_script {
                    Some(s) => Some(s@),
                    None => None,
                },
                line_ending@,
            ) == Some(p@),
            None => spec_login_script_payload(
                match login_script {
                    Some(s) => Some(s@),
                    None => None,
                },
                line_ending@,
            ) is None,
        },
{
    let script = match login_script {
        Some(s) => s,
        None => return None,
    };
    let trimmed = trim_str(script.as_str());
    if trimmed.as_str().is_empty() {
        return None;
    }
    let mut payload = slice_to_vec(trimmed.as_str().as_bytes());
    crate::bytes::push_all(&mut payload, line_ending);
    Some(payload)
}


pub open spec fn is_line_break(c: char) -> bool {
    c == '\r' || c == '\n'
}

/// `s` without its leading carriage returns and line feeds.
pub open spec fn drop_leading_breaks(s: Seq<char>) -> Seq<char>
    decreases s.len(),
{
    if s.len() > 0 && is_line_break(s[0]) {
        drop_leading_breaks(s.drop_first())
    } else {
        s
    }
}

/// `s` without its trailing carriage returns and line feeds.
pub open spec fn drop_trailing_breaks(s: Seq<char>) -> Seq<char>
    decreases s.len(),
{
    if s.len() > 0 && is_line_break(s.last()) {
        drop_trailing_breaks(s.drop_last())
    } else {
        s
    }
}

/// `s` without its trailing carriage returns.
pub open spec fn drop_trailing_cr(s: Seq<char>) -> Seq<char>
    decreases s.len(),
{
    if s.len() > 0 && s.last() == '\r' {
        drop_trailing_cr(s.drop_last())
    } else {
        s
    }
}

/// The lines a serial login script is sent as: the script without leading and trailing
/// line breaks, cut into lines, each without trailing carriage returns and followed by the
/// line ending; none when there is no script or nothing is left of it.
pub open spec fn spec_serial_script_lines(script: Option<Seq<char>>, line_ending: Seq<char>) -> Seq<Seq<char>> {
    match script {
        Some(s) => {
            let t = drop_trailing_breaks(drop_leading_breaks(s));
            if t.len() == 0 {
                Seq::<Seq<char>>::empty()
            } else {
                crate::accounts::text_lines(t).map_values(|l: Seq<char>| drop_trailing_cr(l) + line_ending)
            }
        },
        None => Seq::<Seq<char>>::empty(),
    }
}

proof fn lemma_drop_trailing_breaks_last(s: Seq<char>)
    ensures
        drop_trailing_breaks(s).len() > 0 ==> !is_line_break(drop_trailing_breaks(s).last()),
    decreases s.len(),
{
    if s.len() > 0 && is_line_break(s.last()) {
        lemma_drop_trailing_breaks_last(s.drop_last());
    }
}

fn without_trailing_cr(piece: &[char]) -> (line: Vec<char>)
    ensures
        line@ == drop_trailing_cr(piece@),
{
    let mut e: usize = piece.len();
    assert(piece@.subrange(0, e as int) =~= piece@);
    while e > 0 && piece[e - 1] == '\r'
        invariant
            e <= piece@.len(),
            drop_trailing_cr(piece@) == drop_trailing_cr(piece@.subrange(0, e as int)),
        decreases e,
    {
        assert(piece@.subrange(0, e as int).drop_last() =~= piece@.subrange(0, e - 1));
        e -= 1;
    }
    crate::text::copy_chars(piece, 0, e)
}

pub fn serial_script_lines(login_script: Option<&String>, line_ending: &str) -> (lines: Vec<String>)
    ensures
        crate::accounts::piece_views_of_strings(lines@) == spec_serial_script_lines(
            match login_script {
                Some(s) => Some(s@),
                None => None,
            },
            line_ending@,
        ),
{
    let script = match login_script {
        Some(s) => s,
        None => {
            let lines: Vec<String> = Vec::new();
            assert(crate::accounts::piece_views_of_strings(lines@) =~= Seq::<Seq<char>>::empty());
            return lines;
        },
    };
    let chars = chars_of(script.as_str());
    let mut a: usize = 0;
    assert(chars@.subrange(0, chars@.len() as int) =~= chars@);
    while a < chars.len() && (chars[a] == '\r' || chars[a] == '\n')
        invariant
            a <= chars@.len(),
            drop_leading_breaks(chars@) == drop_leading_breaks(chars@.subrange(a as int, chars@.len() as int)),
        decreases chars@.len() - a,
    {
        assert(chars@.subrange(a as int, chars@.len() as int).drop_first() =~= chars@.subrange(a + 1, chars@.len() as int));
        a += 1;
    }
    let mut b: usize = chars.len();
    let ghost lead = chars@.subrange(a as int, chars@.len() as int);
    assert(chars@.subrange(a as int, b as int) =~= lead);
    while b > a && (chars[b - 1] == '\r' || chars[b - 1] == '\n')
        invariant
            a <= b <= chars@.len(),
            lead == chars@.subrange(a as int, chars@.len() as int),
            drop_trailing_breaks(lead) == drop_trailing_breaks(chars@.subrange(a as int, b as int)),
        decreases b,
    {
        assert(chars@.subrange(a as int, b as int).drop_last() =~= chars@.subrange(a as int, b - 1));
        b -= 1;
    }
    let trimmed = crate::text::copy_chars(chars.as_slice(), a, b);
    let ghost t = trimmed@;
    assert(t == drop_trailing_breaks(drop_leading_breaks(script@)));
    let mut lines: Vec<String> = Vec::new();
    if trimmed.len() == 0 {
        assert(crate::accounts::piece_views_of_strings(lines@) =~= Seq::<Seq<char>>::empty());
        return lines;
    }
    let pieces = crate::accounts::split_chars(trimmed.as_slice(), '\n');
    let ghost p = crate::accounts::piece_views(pieces@);
    let ghost spec_lines = crate::accounts::text_lines(t);
    proof {
        lemma_drop_trailing_breaks_last(drop_leading_breaks(script@));
        assert(p.len() == pieces@.len());
        assert(!is_line_break(t.last()));
        crate::accounts::lemma_split_on_nonempty(t.drop_last(), '\n');
        let rest = crate::accounts::split_on(t.drop_last(), '\n');
        assert(p == rest.update(rest.len() - 1, rest.last().push(t.last())));
        assert(p.last().len() > 0);
        assert(spec_lines.len() == pieces@.len());
    }
    let mut i: usize = 0;
    while i < pieces.len()
        invariant
            i <= pieces@.len(),
            p == crate::accounts::piece_views(pieces@),
            p == crate::accounts::split_on(t, '\n'),
            p.last().len() > 0,
            spec_lines == crate::accounts::text_lines(t),
            spec_lines.len() == pieces@.len(),
            crate::accounts::piece_views_of_strings(lines@) == spec_lines.take(i as int).map_values(
                |l: Seq<char>| drop_trailing_cr(l) + line_ending@,
            ),
        decreases pieces@.len() - i,
    {
        let line = without_trailing_cr(pieces[i].as_slice());
        let text = crate::text::concat(string_of(line.as_slice()).as_str(), line_ending);
        assert(p[i as int] == pieces@[i as int]@);
        assert(drop_trailing_cr(spec_lines[i as int]) == drop_trailing_cr(pieces@[i as int]@)) by {
            if i + 1 < pieces@.len() {
                assert(spec_lines[i as int] == crate::accounts::strip_cr(p[i as int]));
            }
        }
        let ghost before = lines@;
        lines.push(text);
        assert(crate::accounts::piece_views_of_strings(lines@) =~= crate::accounts::piece_views_of_strings(before).push(text@));
        assert(spec_lines.take(i + 1) =~= spec_lines.take(i as int).push(spec_lines[i as int]));
        assert(spec_lines.take(i + 1).map_values(|l: Seq<char>| drop_trailing_cr(l) + line_ending@) =~= spec_lines.take(
            i as int,
        ).map_values(|l: Seq<char>| drop_trailing_cr(l) + line_ending@).push(drop_trailing_cr(spec_lines[i as int]) + line_ending@));
        i += 1;
    }
    assert(spec_lines.take(pieces@.len() as int) =~= spec_lines);
    lines
}

/// Bytes per second over a status interval: the growth of a counter since the last
/// status, per the milliseconds elapsed (at least 1), times 1000.
pub fn serial_byte_rate(current: u64, last: u64, elapsed_millis: u128) -> (rate: u64)
    requires
        (if current >= last { current - last } else { 0 }) * 1000 <= u64::MAX,
        elapsed_millis <= u64::MAX,
    ensures
        rate == (if current >= last { current - last } else { 0 }) * 1000 / (if elapsed_millis < 1 {
            1
        } else {
            elapsed_millis as int
        }),
{
    let delta = current.saturating_sub(last);
    let divisor: u64 = if elapsed_millis < 1 {
        1
    } else {
        elapsed_millis as u64
    };
    delta * 1000 / divisor
}

/// Admitting a control request to a serial port, as whether it is admitted (else the
/// error) and whether a file is being sent afterwards: a file send claims the port,
/// unless another one runs; any other request is refused while a file is being sent.
pub open spec fn spec_begin_serial_control(active: bool, is_file_send: bool) -> (Option<Seq<char>>, bool) {
    if active {
        (
            Some(
                if is_file_send {
                    "已有串口文件正在发送"@
                } else {
                    "串口文件发送期间暂不接受其他写入或控制操作"@
                },
            ),
            true,
        )
    } else {
        (None, is_file_send)
    }
}

pub fn begin_serial_control(file_send_active: &mut bool, is_file_send: bool) -> (result: Result<(), String>)
    ensures
        *final(file_send_active) == spec_begin_serial_control(*old(file_send_active), is_file_send).1,
        match result {
            Ok(()) => spec_begin_serial_control(*old(file_send_active), is_file_send).0 is None,
            Err(e) => spec_begin_serial_control(*old(file_send_active), is_file_send).0 == Some(e@),
        },
{
    if *file_send_active {
        if is_file_send {
            Err(owned("已有串口文件正在发送"))
        } else {
            Err(owned("串口文件发送期间暂不接受其他写入或控制操作"))
        }
    } else {
        if is_file_send {
            *file_send_active = true;
        }
        Ok(())
    }
}

/// Only one file is sent to a serial port at a time: once a file send is admitted, every
/// request that follows, a file send or not, is refused until that send ends.
pub proof fn lemma_one_file_send_at_a_time(active: bool, next_is_file_send: bool)
    requires
        spec_begin_serial_control(active, true).0 is None,
    ensures
        spec_begin_serial_control(spec_begin_serial_control(active, true).1, next_is_file_send).0 is Some,
{
}

/// `v` as four upper-case hexadecimal digits, as `format!("{:04X}", v)` writes it.
pub open spec fn hex4_upper(v: u16) -> Seq<char> {
    crate::text::to_ascii_uppercase(hex4(v))
}

/// A trimmed optional text followed by a separator, or nothing when it is absent or blank.
pub open spec fn label_part(value: Option<Seq<char>>, separator: Seq<char>) -> Seq<char> {
    match spec_sanitize_optional(value) {
        Some(v) => v + separator,
        None => Seq::<char>::empty(),
    }
}

/// How a port is shown: a USB port with its manufacturer, product, vendor and product ids
/// and serial number (those present), joined by ` / ` in brackets after the path; a
/// Bluetooth or PCI port with its kind; any other port by its path.
pub open spec fn spec_port_label(path: Seq<char>, kind: SerialPortKind) -> Seq<char> {
    match kind {
        SerialPortKind::Usb { vid, pid, serial_number, manufacturer, product } => path + " ("@ + label_part(
            opt_view(manufacturer),
            " / "@,
        ) + label_part(opt_view(product), " / "@) + "VID:"@ + hex4_upper(vid) + " PID:"@ + hex4_upper(pid)
            + match spec_sanitize_optional(opt_view(serial_number)) {
            Some(sn) => " / SN:"@ + sn,
            None => Seq::<char>::empty(),
        } + ")"@,
        SerialPortKind::Bluetooth => path + " (Bluetooth)"@,
        SerialPortKind::Pci => path + " (PCI)"@,
        SerialPortKind::Unknown => path,
    }
}

fn hex4_upper_string(v: u16) -> (out: String)
    ensures
        out@ == hex4_upper(v),
{
    let lower = hex4_string(v);
    string_of(crate::text::uppercase_chars(chars_of(lower.as_str()).as_slice()).as_slice())
}

fn label_part_string(value: &Option<String>, separator: &str) -> (part: String)
    ensures
        part@ == label_part(opt_view(*value), separator@),
{
    match sanitize_optional(value.clone()) {
        Some(v) => concat(v.as_str(), separator),
        None => String::new(),
    }
}

pub fn serial_port_label(path: &str, port_type: &SerialPortKind) -> (label: String)
    ensures
        label@ == spec_port_label(path@, *port_type),
{
    match port_type {
        SerialPortKind::Usb { vid, pid, serial_number, manufacturer, product } => {
            let a = concat(path, " (");
            let a = concat(a.as_str(), label_part_string(manufacturer, " / ").as_str());
            let a = concat(a.as_str(), label_part_string(product, " / ").as_str());
            let a = concat(a.as_str(), "VID:");
            let a = concat(a.as_str(), hex4_upper_string(*vid).as_str());
            let a = concat(a.as_str(), " PID:");
            let a = concat(a.as_str(), hex4_upper_string(*pid).as_str());
            let a = match sanitize_optional(serial_number.clone()) {
                Some(sn) => {
                    let b = concat(a.as_str(), " / SN:");
                    concat(b.as_str(), sn.as_str())
                },
                None => a,
            };
            concat(a.as_str(), ")")
        },
        SerialPortKind::Bluetooth => concat(path, " (Bluetooth)"),
        SerialPortKind::Pci => concat(path, " (PCI)"),
        SerialPortKind::Unknown => owned(path),
    }
}

/// The option offered for a listed port: its path, label and stable id, and for a USB port
/// its vendor and product ids and serial number as reported.
pub fn serial_port_option(port: SerialPortInfo) -> (option: SerialPortOption)
    ensures
        option.path == port.port_name,
        option.label@ == spec_port_label(port.port_name@, port.port_type),
        option.stable_id@ == spec_stable_id(port.port_name@, port.port_type),
        match port.port_type {
            SerialPortKind::Usb { vid, pid, serial_number, .. } => option.vid == Some(vid) && option.pid == Some(pid)
                && option.serial_number == serial_number,
            _ => option.vid is None && option.pid is None && option.serial_number is None,
        },
{
    let label = serial_port_label(port.port_name.as_str(), &port.port_type);
    let stable_id = serial_port_stable_id(port.port_name.as_str(), &port.port_type);
    let (vid, pid, serial_number) = match port.port_type {
        SerialPortKind::Usb { vid, pid, serial_number, .. } => (Some(vid), Some(pid), serial_number),
        _ => (None, None, None),
    };
    SerialPortOption { path: port.port_name, label, stable_id, vid, pid, serial_number }
}

/// The suffix appended to text written to a serial port: none, CR, LF or CR LF, by name in
/// any case and padding (none when not given).
pub open spec fn spec_write_suffix(line_ending: Option<Seq<char>>) -> Result<Seq<char>, Seq<char>> {
    let v = to_ascii_lowercase(
        trim(
            match line_ending {
                Some(l) => l,
                None => "none"@,
            },
        ),
    );
    if v == "none"@ {
        Ok(""@)
    } else if v == "cr"@ {
        Ok("\r"@)
    } else if v == "lf"@ {
        Ok("\n"@)
    } else if v == "crlf"@ {
        Ok("\r\n"@)
    } else {
        Err("发送行尾必须为 none、cr、lf 或 crlf"@)
    }
}

pub fn serial_write_suffix(line_ending: Option<&str>) -> (result: Result<&'static str, String>)
    ensures
        match result {
            Ok(s) => spec_write_suffix(opt_str_view(line_ending)) == Ok::<Seq<char>, Seq<char>>(s@),
            Err(e) => spec_write_suffix(opt_str_view(line_ending)) == Err::<Seq<char>, Seq<char>>(e@),
        },
{
    let v = match line_ending {
        Some(l) => trimmed_lowercase(l),
        None => trimmed_lowercase("none"),
    };
    if chars_eq_str(v.as_slice(), "none") {
        Ok("")
    } else if chars_eq_str(v.as_slice(), "cr") {
        Ok("\r")
    } else if chars_eq_str(v.as_slice(), "lf") {
        Ok("\n")
    } else if chars_eq_str(v.as_slice(), "crlf") {
        Ok("\r\n")
    } else {
        Err(owned("发送行尾必须为 none、cr、lf 或 crlf"))
    }
}

/// Which buffers of a serial port are cleared.
#[derive(Clone, Copy, Debug, PartialEq, Eq, Structural)]
pub enum ClearTarget {
    Input,
    Output,
    All,
}

/// The buffers a clear request names: `input` or `rx`, `output` or `tx`, or `all`, in any
/// case and padding.
pub open spec fn spec_clear_target(target: Seq<char>) -> Option<ClearTarget> {
    let t = to_ascii_lowercase(trim(target));
    if t == "input"@ || t == "rx"@ {
        Some(ClearTarget::Input)
    } else if t == "output"@ || t == "tx"@ {
        Some(ClearTarget::Output)
    } else if t == "all"@ {
        Some(ClearTarget::All)
    } else {
        None
    }
}

pub fn parse_clear_target(target: &str) -> (result: Result<ClearTarget, String>)
    ensures
        match result {
            Ok(t) => spec_clear_target(target@) == Some(t),
            Err(e) => spec_clear_target(target@) is None && e@ == "清理目标必须为 input、output 或 all"@,
        },
{
    let t = trimmed_lowercase(target);
    let s = t.as_slice();
    if chars_eq_str(s, "input") || chars_eq_str(s, "rx") {
        Ok(ClearTarget::Input)
    } else if chars_eq_str(s, "output") || chars_eq_str(s, "tx") {
        Ok(ClearTarget::Output)
    } else if chars_eq_str(s, "all") {
        Ok(ClearTarget::All)
    } else {
        Err(owned("清理目标必须为 input、output 或 all"))
    }
}

} // verus!
