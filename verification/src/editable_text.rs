use vstd::prelude::*;

use crate::sftp_files::{has_crlf, spec_detect_line_ending, spec_is_probably_binary, spec_normalize_newlines};
use crate::text::{chars_of, concat, owned};
use vstd::utf8::{decode_utf8, encode_utf8, valid_utf8};

verus! {

/// Labels of the WHATWG Encoding Standard that `encoding_rs::Encoding::for_label` always
/// knows: `gbk`, `windows-1252`, `utf-16le` and `utf-16be`.
pub open spec fn standard_label(label: Seq<u8>) -> bool {
    label == gbk_label() || label == windows_1252_label() || label == utf16le_label() || label == utf16be_label()
}

pub open spec fn gbk_label() -> Seq<u8> {
    seq![0x67u8, 0x62, 0x6b]
}

pub open spec fn windows_1252_label() -> Seq<u8> {
    seq![0x77u8, 0x69, 0x6e, 0x64, 0x6f, 0x77, 0x73, 0x2d, 0x31, 0x32, 0x35, 0x32]
}

pub open spec fn utf16le_label() -> Seq<u8> {
    seq![0x75u8, 0x74, 0x66, 0x2d, 0x31, 0x36, 0x6c, 0x65]
}

pub open spec fn utf16be_label() -> Seq<u8> {
    seq![0x75u8, 0x74, 0x66, 0x2d, 0x31, 0x36, 0x62, 0x65]
}

/// What `Encoding::decode_without_bom_handling_and_without_replacement` gives for `bytes` in
/// the encoding named by `label`: the text, or nothing when the bytes are malformed.
pub uninterp spec fn encoding_decode_strict(label: Seq<u8>, bytes: Seq<u8>) -> Option<Seq<char>>;

/// What `Encoding::decode` gives for `bytes` in the encoding named by `label`.
pub uninterp spec fn encoding_decode_lossy(label: Seq<u8>, bytes: Seq<u8>) -> Seq<char>;

/// Calls `std::str::from_utf8`, which accepts exactly the valid UTF-8 byte strings and
/// then gives the characters they encode.
#[verifier::external_body]
fn utf8_decode(bytes: &[u8]) -> (text: Option<String>)
    ensures
        match text {
            Some(t) => valid_utf8(bytes@) && t@ == decode_utf8(bytes@),
            None => !valid_utf8(bytes@),
        },
{
    std::str::from_utf8(bytes).ok().map(|s| s.to_string())
}

/// Looks `label` up with `encoding_rs::Encoding::for_label` and decodes `bytes` with
/// `decode_without_bom_handling_and_without_replacement`. The text is left to the name
/// `encoding_decode_strict`; the standard labels are always found.
#[verifier::external_body]
fn decode_strict_with_label(label: &[u8], bytes: &[u8]) -> (out: Option<Option<String>>)
    ensures
        match out {
            Some(r) => crate::ssh_config::opt_view(r) == encoding_decode_strict(label@, bytes@),
            None => !standard_label(label@),
        },
{
    encoding_rs::Encoding::for_label(label).map(
        |codec| codec.decode_without_bom_handling_and_without_replacement(bytes).map(|text| text.into_owned()),
    )
}

/// Looks `label` up with `encoding_rs::Encoding::for_label` and decodes `bytes` with
/// `Encoding::decode`, which replaces malformed input. The text is left to the name
/// `encoding_decode_lossy`; the standard labels are always found.
#[verifier::external_body]
fn decode_lossy_with_label(label: &[u8], bytes: &[u8]) -> (out: Option<String>)
    ensures
        match out {
            Some(t) => t@ == encoding_decode_lossy(label@, bytes@),
            None => !standard_label(label@),
        },
{
    encoding_rs::Encoding::for_label(label).map(|codec| codec.decode(bytes).0.into_owned())
}

/// A remote file decoded for the editor.
#[derive(Clone, Debug, PartialEq, Eq)]
pub struct EditableText {
    pub content: String,
    pub encoding: &'static str,
    pub line_ending: &'static str,
}

/// Editor content encoded back into the bytes of the file.
#[derive(Clone, Debug, PartialEq, Eq)]
pub struct EncodedEditableText {
    pub bytes: Vec<u8>,
    pub encoding: &'static str,
    pub line_ending: &'static str,
}

pub open spec fn has_prefix(bytes: Seq<u8>, prefix: Seq<u8>) -> bool {
    prefix.len() <= bytes.len() && bytes.subrange(0, prefix.len() as int) == prefix
}

pub open spec fn utf8_bom() -> Seq<u8> {
    seq![0xefu8, 0xbb, 0xbf]
}

pub open spec fn utf16le_bom() -> Seq<u8> {
    seq![0xffu8, 0xfe]
}

pub open spec fn utf16be_bom() -> Seq<u8> {
    seq![0xfeu8, 0xff]
}

/// How a file's bytes are read, before newlines are normalised: by its byte order mark
/// (UTF-8, UTF-16 LE or BE, each required to be well formed); without one, binary content
/// is refused, then UTF-8 is tried, then GBK, and Windows-1252 takes whatever is left.
pub open spec fn spec_decode_raw(bytes: Seq<u8>) -> Result<(Seq<char>, Seq<char>), Seq<char>> {
    if has_prefix(bytes, utf8_bom()) {
        let payload = bytes.subrange(3, bytes.len() as int);
        if valid_utf8(payload) {
            Ok((decode_utf8(payload), "utf-8-bom"@))
        } else {
            Err("Read Error: invalid UTF-8 BOM text"@)
        }
    } else if has_prefix(bytes, utf16le_bom()) {
        match encoding_decode_strict(utf16le_label(), bytes.subrange(2, bytes.len() as int)) {
            Some(t) => Ok((t, "utf-16le"@)),
            None => Err("Read Error: invalid UTF-16 LE text"@),
        }
    } else if has_prefix(bytes, utf16be_bom()) {
        match encoding_decode_strict(utf16be_label(), bytes.subrange(2, bytes.len() as int)) {
            Some(t) => Ok((t, "utf-16be"@)),
            None => Err("Read Error: invalid UTF-16 BE text"@),
        }
    } else if spec_is_probably_binary(bytes) {
        Err("Read Error: file contains binary content and cannot be edited here"@)
    } else if valid_utf8(bytes) {
        Ok((decode_utf8(bytes), "utf-8"@))
    } else {
        match encoding_decode_strict(gbk_label(), bytes) {
            Some(t) => Ok((t, "gbk"@)),
            None => Ok((encoding_decode_lossy(windows_1252_label(), bytes), "windows-1252"@)),
        }
    }
}

fn starts_with_bytes(bytes: &[u8], prefix: &[u8]) -> (b: bool)
    ensures
        b == has_prefix(bytes@, prefix@),
{
    if prefix.len() > bytes.len() {
        return false;
    }
    let head = crate::bytes::copy_range(bytes, 0, prefix.len());
    crate::bytes::bytes_eq(head.as_slice(), prefix)
}

fn decode_raw(bytes: &[u8]) -> (result: Result<(String, &'static str), String>)
    ensures
        match result {
            Ok((t, e)) => spec_decode_raw(bytes@) == Ok::<(Seq<char>, Seq<char>), Seq<char>>((t@, e@)),
            Err(e) => spec_decode_raw(bytes@) == Err::<(Seq<char>, Seq<char>), Seq<char>>(e@),
        },
{
    let bom8: [u8; 3] = [0xef, 0xbb, 0xbf];
    let bom_le: [u8; 2] = [0xff, 0xfe];
    let bom_be: [u8; 2] = [0xfe, 0xff];
    assert(bom8@ =~= utf8_bom());
    assert(bom_le@ =~= utf16le_bom());
    assert(bom_be@ =~= utf16be_bom());
    if starts_with_bytes(bytes, &bom8) {
        let payload = crate::bytes::copy_range(bytes, 3, bytes.len());
        match utf8_decode(payload.as_slice()) {
            Some(t) => Ok((t, "utf-8-bom")),
            None => Err(owned("Read Error: invalid UTF-8 BOM text")),
        }
    } else if starts_with_bytes(bytes, &bom_le) {
        let payload = crate::bytes::copy_range(bytes, 2, bytes.len());
        let label: [u8; 8] = [0x75, 0x74, 0x66, 0x2d, 0x31, 0x36, 0x6c, 0x65];
        assert(label@ =~= utf16le_label());
        match decode_strict_with_label(&label, payload.as_slice()) {
            Some(Some(t)) => Ok((t, "utf-16le")),
            _ => Err(owned("Read Error: invalid UTF-16 LE text")),
        }
    } else if starts_with_bytes(bytes, &bom_be) {
        let payload = crate::bytes::copy_range(bytes, 2, bytes.len());
        let label: [u8; 8] = [0x75, 0x74, 0x66, 0x2d, 0x31, 0x36, 0x62, 0x65];
        assert(label@ =~= utf16be_label());
        match decode_strict_with_label(&label, payload.as_slice()) {
            Some(Some(t)) => Ok((t, "utf-16be")),
            _ => Err(owned("Read Error: invalid UTF-16 BE text")),
        }
    } else if crate::sftp_files::is_probably_binary(bytes) {
        Err(owned("Read Error: file contains binary content and cannot be edited here"))
    } else {
        match utf8_decode(bytes) {
            Some(t) => Ok((t, "utf-8")),
            None => {
                let gbk: [u8; 3] = [0x67, 0x62, 0x6b];
                assert(gbk@ =~= gbk_label());
                match decode_strict_with_label(&gbk, bytes) {
                    Some(Some(t)) => Ok((t, "gbk")),
                    _ => {
                        let w: [u8; 12] = [0x77, 0x69, 0x6e, 0x64, 0x6f, 0x77, 0x73, 0x2d, 0x31, 0x32, 0x35, 0x32];
                        assert(w@ =~= windows_1252_label());
                        match decode_lossy_with_label(&w, bytes) {
                            Some(t) => Ok((t, "windows-1252")),
                            None => Ok((String::new(), "windows-1252")),
                        }
                    },
                }
            },
        }
    }
}

/// A file opened for editing: its text with newlines normalised to LF, how it was
/// encoded, and the line ending it used.
pub open spec fn spec_decode_editable(bytes: Seq<u8>) -> Result<(Seq<char>, Seq<char>, Seq<char>), Seq<char>> {
    match spec_decode_raw(bytes) {
        Ok((t, e)) => Ok((spec_normalize_newlines(t), e, spec_detect_line_ending(t))),
        Err(e) => Err(e),
    }
}

pub fn decode_editable_text(bytes: &[u8]) -> (result: Result<EditableText, String>)
    ensures
        match result {
            Ok(t) => spec_decode_editable(bytes@) == Ok::<(Seq<char>, Seq<char>, Seq<char>), Seq<char>>(
                (t.content@, t.encoding@, t.line_ending@),
            ),
            Err(e) => spec_decode_editable(bytes@) == Err::<(Seq<char>, Seq<char>, Seq<char>), Seq<char>>(e@),
        },
{
    let (decoded, encoding) = decode_raw(bytes)?;
    let line_ending = crate::sftp_files::detect_line_ending(decoded.as_str());
    let content = crate::sftp_files::normalize_editor_newlines(decoded.as_str());
    Ok(EditableText { content, encoding, line_ending })
}


/// Every LF of `s` replaced by `with`.
pub open spec fn replace_lf(s: Seq<char>, with: Seq<char>) -> Seq<char>
    decreases s.len(),
{
    if s.len() == 0 {
        seq![]
    } else {
        replace_lf(s.drop_last(), with) + if s.last() == '\n' {
            with
        } else {
            seq![s.last()]
        }
    }
}

/// Text with LF line breaks written with the given line ending: CR LF for `crlf`, CR for
/// `cr`, unchanged otherwise.
pub open spec fn apply_line_ending(s: Seq<char>, line_ending: Seq<char>) -> Seq<char> {
    if line_ending == "crlf"@ {
        replace_lf(s, "\r\n"@)
    } else if line_ending == "cr"@ {
        replace_lf(s, "\r"@)
    } else {
        s
    }
}

fn replace_lf_chars(s: &[char], with: &str) -> (out: Vec<char>)
    ensures
        out@ == replace_lf(s@, with@),
{
    let w = chars_of(with);
    let mut out: Vec<char> = Vec::new();
    let mut i: usize = 0;
    while i < s.len()
        invariant
            i <= s@.len(),
            w@ == with@,
            out@ == replace_lf(s@.take(i as int), with@),
        decreases s@.len() - i,
    {
        assert(s@.take(i + 1).drop_last() =~= s@.take(i as int));
        if s[i] == '\n' {
            let mut k: usize = 0;
            let ghost before = out@;
            while k < w.len()
                invariant
                    k <= w@.len(),
                    out@ == before + w@.take(k as int),
                decreases w@.len() - k,
            {
                out.push(w[k]);
                k += 1;
                assert(out@ =~= before + w@.take(k as int));
            }
            assert(w@.take(w@.len() as int) =~= w@);
        } else {
            out.push(s[i]);
        }
        i += 1;
        assert(out@ =~= replace_lf(s@.take(i as int), with@));
    }
    assert(s@.take(s@.len() as int) =~= s@);
    out
}

/// The UTF-16 code units of a character: one below U+10000, else a surrogate pair.
pub open spec fn utf16_units(c: char) -> Seq<u16> {
    let v = c as u32;
    if v < 0x10000 {
        seq![v as u16]
    } else {
        seq![(0xd800 + (v - 0x10000) / 0x400) as u16, (0xdc00 + (v - 0x10000) % 0x400) as u16]
    }
}

/// A code unit as two bytes, most significant first when `big_endian`.
pub open spec fn unit_bytes(u: u16, big_endian: bool) -> Seq<u8> {
    if big_endian {
        seq![(u / 256) as u8, (u % 256) as u8]
    } else {
        seq![(u % 256) as u8, (u / 256) as u8]
    }
}

pub open spec fn units_bytes(units: Seq<u16>, big_endian: bool) -> Seq<u8>
    decreases units.len(),
{
    if units.len() == 0 {
        seq![]
    } else {
        units_bytes(units.drop_last(), big_endian) + unit_bytes(units.last(), big_endian)
    }
}

/// Text in UTF-16, as `str::encode_utf16` gives its code units, written as bytes.
pub open spec fn utf16_bytes(s: Seq<char>, big_endian: bool) -> Seq<u8>
    decreases s.len(),
{
    if s.len() == 0 {
        seq![]
    } else {
        utf16_bytes(s.drop_last(), big_endian) + units_bytes(utf16_units(s.last()), big_endian)
    }
}

fn push_unit(out: &mut Vec<u8>, u: u16, big_endian: bool)
    ensures
        final(out)@ == old(out)@ + unit_bytes(u, big_endian),
{
    let hi = (u / 256) as u8;
    let lo = (u % 256) as u8;
    if big_endian {
        out.push(hi);
        out.push(lo);
    } else {
        out.push(lo);
        out.push(hi);
    }
    assert(final(out)@ =~= old(out)@ + unit_bytes(u, big_endian));
}

fn utf16_encode(s: &[char], big_endian: bool, out: &mut Vec<u8>)
    ensures
        final(out)@ == old(out)@ + utf16_bytes(s@, big_endian),
{
    let mut i: usize = 0;
    let ghost start = out@;
    while i < s.len()
        invariant
            i <= s@.len(),
            out@ == start + utf16_bytes(s@.take(i as int), big_endian),
        decreases s@.len() - i,
    {
        assert(s@.take(i + 1).drop_last() =~= s@.take(i as int));
        let c = s[i];
        let v = c as u32;
        let ghost before = out@;
        if v < 0x10000 {
            push_unit(out, v as u16, big_endian);
            proof {
                let us = utf16_units(c);
                assert(us =~= seq![v as u16]);
                assert(us.drop_last() =~= Seq::<u16>::empty());
                assert(units_bytes(us, big_endian) == units_bytes(us.drop_last(), big_endian) + unit_bytes(
                    us.last(),
                    big_endian,
                ));
                assert(units_bytes(us, big_endian) =~= unit_bytes(v as u16, big_endian));
            }
        } else {
            assert(v <= 0x10ffff) by {
                vstd::utf8::char_is_scalar(c);
            }
            let w = v - 0x10000;
            let high = (0xd800 + w / 0x400) as u16;
            let low = (0xdc00 + w % 0x400) as u16;
            push_unit(out, high, big_endian);
            push_unit(out, low, big_endian);
            proof {
                let us = utf16_units(c);
                assert(us =~= seq![high, low]);
                let u1 = us.drop_last();
                assert(u1 =~= seq![high]);
                assert(u1.drop_last() =~= Seq::<u16>::empty());
                assert(units_bytes(us, big_endian) == units_bytes(u1, big_endian) + unit_bytes(low, big_endian));
                assert(units_bytes(u1, big_endian) == units_bytes(u1.drop_last(), big_endian) + unit_bytes(
                    high,
                    big_endian,
                ));
                assert(units_bytes(us, big_endian) =~= unit_bytes(high, big_endian) + unit_bytes(low, big_endian));
            }
        }
        i += 1;
        assert(out@ =~= start + utf16_bytes(s@.take(i as int), big_endian));
    }
    assert(s@.take(s@.len() as int) =~= s@);
}

/// The bytes saved for editor content: newlines normalised, then written with the file's
/// line ending, then encoded as the file was (with its byte order mark); GBK and
/// Windows-1252 refuse characters they cannot hold; an unknown encoding is UTF-8.
pub open spec fn spec_encode_editable(content: Seq<char>, encoding: Seq<char>, line_ending: Seq<char>) -> Result<
    Seq<u8>,
    Seq<char>,
> {
    let text = apply_line_ending(spec_normalize_newlines(content), line_ending);
    if encoding == "utf-8-bom"@ {
        Ok(utf8_bom() + encode_utf8(text))
    } else if encoding == "utf-16le"@ {
        Ok(utf16le_bom() + utf16_bytes(text, false))
    } else if encoding == "utf-16be"@ {
        Ok(utf16be_bom() + utf16_bytes(text, true))
    } else if encoding == "gbk"@ || encoding == "windows-1252"@ {
        let label = if encoding == "gbk"@ {
            gbk_label()
        } else {
            windows_1252_label()
        };
        if crate::serial::encoding_encode(label, text).1 {
            Err("Save Error: content cannot be encoded as "@ + encoding)
        } else {
            Ok(crate::serial::encoding_encode(label, text).0)
        }
    } else {
        Ok(encode_utf8(text))
    }
}

fn utf8_bytes(text: &str) -> (bytes: Vec<u8>)
    ensures
        bytes@ == encode_utf8(text@),
{
    let b = text.as_bytes();
    vstd::slice::slice_to_vec(b)
}

pub fn encode_editable_text(content: &str, encoding: &'static str, line_ending: &'static str) -> (result: Result<
    EncodedEditableText,
    String,
>)
    ensures
        match result {
            Ok(e) => spec_encode_editable(content@, encoding@, line_ending@) == Ok::<Seq<u8>, Seq<char>>(e.bytes@)
                && e.encoding == encoding && e.line_ending == line_ending,
            Err(e) => spec_encode_editable(content@, encoding@, line_ending@) == Err::<Seq<u8>, Seq<char>>(e@),
        },
{
    let normalized = crate::sftp_files::normalize_newline_chars(chars_of(content).as_slice());
    let le = chars_of(line_ending);
    let text_chars = if crate::text::chars_eq_str(le.as_slice(), "crlf") {
        replace_lf_chars(normalized.as_slice(), "\r\n")
    } else if crate::text::chars_eq_str(le.as_slice(), "cr") {
        replace_lf_chars(normalized.as_slice(), "\r")
    } else {
        normalized
    };
    let text = crate::text::string_of(text_chars.as_slice());
    let enc = chars_of(encoding);
    let e = enc.as_slice();
    let bytes = if crate::text::chars_eq_str(e, "utf-8-bom") {
        let mut bytes: Vec<u8> = vec![0xef, 0xbb, 0xbf];
        let body = utf8_bytes(text.as_str());
        crate::bytes::push_all(&mut bytes, body.as_slice());
        assert(bytes@ =~= utf8_bom() + encode_utf8(text@));
        bytes
    } else if crate::text::chars_eq_str(e, "utf-16le") {
        let mut bytes: Vec<u8> = vec![0xff, 0xfe];
        assert(bytes@ =~= utf16le_bom());
        utf16_encode(text_chars.as_slice(), false, &mut bytes);
        bytes
    } else if crate::text::chars_eq_str(e, "utf-16be") {
        let mut bytes: Vec<u8> = vec![0xfe, 0xff];
        assert(bytes@ =~= utf16be_bom());
        utf16_encode(text_chars.as_slice(), true, &mut bytes);
        bytes
    } else if crate::text::chars_eq_str(e, "gbk") || crate::text::chars_eq_str(e, "windows-1252") {
        let gbk: [u8; 3] = [0x67, 0x62, 0x6b];
        let w: [u8; 12] = [0x77, 0x69, 0x6e, 0x64, 0x6f, 0x77, 0x73, 0x2d, 0x31, 0x32, 0x35, 0x32];
        assert(gbk@ =~= gbk_label());
        assert(w@ =~= windows_1252_label());
        let encoded = if crate::text::chars_eq_str(e, "gbk") {
            crate::serial::encode_with_label(&gbk, text.as_str())
        } else {
            crate::serial::encode_with_label(&w, text.as_str())
        };
        match encoded {
            Some((bytes, had_errors)) => {
                if had_errors {
                    return Err(concat("Save Error: content cannot be encoded as ", encoding));
                }
                bytes
            },
            None => {
                return Err(concat("Save Error: content cannot be encoded as ", encoding));
            },
        }
    } else {
        utf8_bytes(text.as_str())
    };
    Ok(EncodedEditableText { bytes, encoding, line_ending })
}


pub open spec fn no_cr(s: Seq<char>) -> bool {
    !s.contains('\r')
}

proof fn lemma_normalize_without_cr(s: Seq<char>)
    requires
        no_cr(s),
    ensures
        spec_normalize_newlines(s) == s,
    decreases s.len(),
{
    if s.len() > 0 {
        assert(s[0] != '\r') by {
            assert(s[0] == s[0]);
            if s[0] == '\r' {
                assert(s.contains('\r'));
            }
        }
        assert(no_cr(s.drop_first())) by {
            if s.drop_first().contains('\r') {
                let k = choose|k: int| 0 <= k < s.drop_first().len() && s.drop_first()[k] == '\r';
                assert(s[k + 1] == '\r');
            }
        }
        lemma_normalize_without_cr(s.drop_first());
        assert(seq![s[0]] + s.drop_first() =~= s);
    }
}

proof fn lemma_replace_lf_concat(a: Seq<char>, b: Seq<char>, with: Seq<char>)
    ensures
        replace_lf(a + b, with) == replace_lf(a, with) + replace_lf(b, with),
    decreases b.len(),
{
    if b.len() == 0 {
        assert(a + b =~= a);
        assert(replace_lf(a, with) + Seq::<char>::empty() =~= replace_lf(a, with));
    } else {
        lemma_replace_lf_concat(a, b.drop_last(), with);
        assert((a + b).drop_last() =~= a + b.drop_last());
        assert((a + b).last() == b.last());
        let tail = if b.last() == '\n' {
            with
        } else {
            seq![b.last()]
        };
        assert(replace_lf(a, with) + replace_lf(b.drop_last(), with) + tail =~= replace_lf(a, with) + (replace_lf(
            b.drop_last(),
            with,
        ) + tail));
    }
}

proof fn lemma_replace_lf_front(s: Seq<char>, with: Seq<char>)
    requires
        s.len() > 0,
    ensures
        replace_lf(s, with) == (if s[0] == '\n' {
            with
        } else {
            seq![s[0]]
        }) + replace_lf(s.drop_first(), with),
{
    lemma_replace_lf_concat(seq![s[0]], s.drop_first(), with);
    assert(seq![s[0]] + s.drop_first() =~= s);
    let one = seq![s[0]];
    assert(one.drop_last() =~= Seq::<char>::empty());
    assert(one.last() == s[0]);
    let tail = if s[0] == '\n' {
        with
    } else {
        seq![s[0]]
    };
    assert(replace_lf(one, with) == replace_lf(one.drop_last(), with) + tail);
    assert(replace_lf(one.drop_last(), with) == Seq::<char>::empty());
    assert(replace_lf(one, with) =~= tail);
}

proof fn lemma_replace_without_lf(s: Seq<char>, with: Seq<char>)
    requires
        !s.contains('\n'),
    ensures
        replace_lf(s, with) == s,
    decreases s.len(),
{
    if s.len() > 0 {
        assert(!s.drop_last().contains('\n')) by {
            if s.drop_last().contains('\n') {
                let k = choose|k: int| 0 <= k < s.drop_last().len() && s.drop_last()[k] == '\n';
                assert(s[k] == '\n');
            }
        }
        assert(s.last() != '\n') by {
            if s.last() == '\n' {
                assert(s[s.len() - 1] == '\n');
            }
        }
        lemma_replace_without_lf(s.drop_last(), with);
        assert(s.drop_last() + seq![s.last()] =~= s);
    }
}

/// Where `s` has a line feed, the text with line feeds replaced holds `with` there.
proof fn lemma_replace_lf_shows(s: Seq<char>, with: Seq<char>, k: int) -> (i: int)
    requires
        0 <= k < s.len(),
        s[k] == '\n',
    ensures
        0 <= i && i + with.len() <= replace_lf(s, with).len(),
        replace_lf(s, with).subrange(i, i + with.len()) == with,
{
    let a = s.subrange(0, k);
    let b = s.subrange(k + 1, s.len() as int);
    assert(s =~= a + (seq!['\n'] + b));
    lemma_replace_lf_concat(a, seq!['\n'] + b, with);
    lemma_replace_lf_front(seq!['\n'] + b, with);
    assert((seq!['\n'] + b).drop_first() =~= b);
    let r = replace_lf(s, with);
    let ra = replace_lf(a, with);
    assert(r == ra + (with + replace_lf(b, with)));
    assert(r.subrange(ra.len() as int, (ra.len() + with.len()) as int) =~= with);
    ra.len() as int
}

proof fn lemma_replace_lf_by_cr_has_no_lf(s: Seq<char>)
    ensures
        !replace_lf(s, "\r"@).contains('\n'),
    decreases s.len(),
{
    reveal_strlit("\r");
    if s.len() > 0 {
        lemma_replace_lf_by_cr_has_no_lf(s.drop_last());
        let r = replace_lf(s, "\r"@);
        let p = replace_lf(s.drop_last(), "\r"@);
        if r.contains('\n') {
            let k = choose|k: int| 0 <= k < r.len() && r[k] == '\n';
            if k < p.len() {
                assert(p[k] == '\n');
            }
        }
    }
}

proof fn lemma_normalize_undoes_line_ending(s: Seq<char>, line_ending: Seq<char>)
    requires
        no_cr(s),
    ensures
        spec_normalize_newlines(apply_line_ending(s, line_ending)) == s,
    decreases s.len(),
{
    reveal_strlit("crlf");
    reveal_strlit("cr");
    reveal_strlit("\r\n");
    reveal_strlit("\r");
    if line_ending != "crlf"@ && line_ending != "cr"@ {
        lemma_normalize_without_cr(s);
    } else if s.len() > 0 {
        let with = if line_ending == "crlf"@ {
            "\r\n"@
        } else {
            "\r"@
        };
        let rest = s.drop_first();
        assert(no_cr(rest)) by {
            if rest.contains('\r') {
                let k = choose|k: int| 0 <= k < rest.len() && rest[k] == '\r';
                assert(s[k + 1] == '\r');
            }
        }
        assert(s[0] != '\r') by {
            if s[0] == '\r' {
                assert(s.contains('\r'));
            }
        }
        lemma_normalize_undoes_line_ending(rest, line_ending);
        lemma_replace_lf_front(s, with);
        let r = replace_lf(s, with);
        let rr = replace_lf(rest, with);
        assert(apply_line_ending(rest, line_ending) == rr);
        if s[0] == '\n' {
            if line_ending == "crlf"@ {
                assert(r =~= "\r\n"@ + rr);
                assert(r.subrange(2, r.len() as int) =~= rr);
            } else {
                assert(r =~= "\r"@ + rr);
                lemma_replace_lf_by_cr_has_no_lf(rest);
                assert(r.drop_first() =~= rr);
                if r.len() >= 2 && r[1] == '\n' {
                    assert(rr[0] == '\n');
                    assert(rr.contains('\n'));
                }
            }
        } else {
            assert(r =~= seq![s[0]] + rr);
            assert(r.drop_first() =~= rr);
        }
        assert(seq![s[0]] + rest =~= s);
    }
}

proof fn lemma_normalize_has_no_cr(s: Seq<char>)
    ensures
        no_cr(spec_normalize_newlines(s)),
    decreases s.len(),
{
    let n = spec_normalize_newlines(s);
    if s.len() > 0 {
        let rest = if s[0] == '\r' && s.len() >= 2 && s[1] == '\n' {
            s.subrange(2, s.len() as int)
        } else {
            s.drop_first()
        };
        lemma_normalize_has_no_cr(rest);
        let tail = spec_normalize_newlines(rest);
        assert(n == seq![n[0]] + tail);
        assert(n[0] != '\r');
        if n.contains('\r') {
            let k = choose|k: int| 0 <= k < n.len() && n[k] == '\r';
            assert(tail[k - 1] == '\r');
            assert(tail.contains('\r'));
        }
    }
}

proof fn lemma_detect_applied(s: Seq<char>, line_ending: Seq<char>)
    requires
        no_cr(s),
        line_ending == "crlf"@ || line_ending == "cr"@ || line_ending == "lf"@,
    ensures
        s.contains('\n') ==> spec_detect_line_ending(apply_line_ending(s, line_ending)) == line_ending,
        !s.contains('\n') ==> spec_detect_line_ending(apply_line_ending(s, line_ending)) == "lf"@,
{
    reveal_strlit("crlf");
    reveal_strlit("cr");
    reveal_strlit("lf");
    reveal_strlit("\r\n");
    reveal_strlit("\r");
    let r = apply_line_ending(s, line_ending);
    assert("lf"@[0] != "cr"@[0]);
    assert("lf"@.len() != "crlf"@.len());
    if !s.contains('\n') || line_ending == "lf"@ {
        if line_ending != "lf"@ {
            lemma_replace_without_lf(s, if line_ending == "crlf"@ {
                "\r\n"@
            } else {
                "\r"@
            });
        }
        assert(r == s);
        assert(!has_crlf(r)) by {
            if has_crlf(r) {
                let i = choose|i: int| 0 <= i < r.len() - 1 && #[trigger] r[i] == '\r' && r[i + 1] == '\n';
                assert(s.contains('\r'));
            }
        }
    } else {
        let k = choose|k: int| 0 <= k < s.len() && s[k] == '\n';
        if line_ending == "crlf"@ {
            let i = lemma_replace_lf_shows(s, "\r\n"@, k);
            assert(r[i] == r.subrange(i, i + 2)[0]);
            assert(r[i + 1] == r.subrange(i, i + 2)[1]);
            assert(has_crlf(r));
        } else {
            let i = lemma_replace_lf_shows(s, "\r"@, k);
            assert(r[i] == r.subrange(i, i + 1)[0]);
            assert(r.contains('\r'));
            lemma_replace_lf_by_cr_has_no_lf(s);
            assert(!has_crlf(r)) by {
                if has_crlf(r) {
                    let j = choose|j: int| 0 <= j < r.len() - 1 && #[trigger] r[j] == '\r' && r[j + 1] == '\n';
                    assert(r.contains('\n'));
                }
            }
        }
    }
}

/// Saving a text file that was read with a UTF-8 byte order mark and reading it back gives
/// the same text, encoding and line ending: the bytes written are the mark followed by the
/// UTF-8 of the text with its line breaks written as the file had them; reading them back
/// gives the text with LF line breaks, and the line ending seen is the one the file had
/// whenever the text has a line break at all (a text without one reads as `lf`).
pub proof fn lemma_utf8_bom_round_trip(content: Seq<char>, line_ending: Seq<char>)
    requires
        line_ending == "crlf"@ || line_ending == "cr"@ || line_ending == "lf"@,
    ensures
        ({
            let text = spec_normalize_newlines(content);
            let bytes = utf8_bom() + encode_utf8(apply_line_ending(text, line_ending));
            &&& spec_encode_editable(content, "utf-8-bom"@, line_ending) == Ok::<Seq<u8>, Seq<char>>(bytes)
            &&& spec_decode_editable(bytes) matches Ok((decoded, encoding, detected)) && decoded == text && encoding
                == "utf-8-bom"@ && (text.contains('\n') ==> detected == line_ending) && (!text.contains('\n')
                ==> detected == "lf"@)
        }),
{
    let text = spec_normalize_newlines(content);
    lemma_normalize_has_no_cr(content);
    lemma_normalize_undoes_line_ending(text, line_ending);
    let applied = apply_line_ending(text, line_ending);
    let bytes = utf8_bom() + encode_utf8(applied);
    vstd::utf8::encode_utf8_valid_utf8(applied);
    vstd::utf8::encode_utf8_decode_utf8(applied);
    assert(bytes.subrange(0, 3) =~= utf8_bom());
    assert(bytes.subrange(3, bytes.len() as int) =~= encode_utf8(applied));
    lemma_detect_applied(text, line_ending);
}

} // verus!
