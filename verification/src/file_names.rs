use vstd::prelude::*;

use crate::text::{
    char_is_ascii_alphanumeric, char_is_control, chars_eq_str, chars_of, is_ascii_alphanumeric, is_control, owned,
    push_char, string_of, to_ascii_uppercase, trim, trim_chars, uppercase_chars,
};

verus! {

/// Longest file name, in UTF-16 code units, that a received file is given.
pub const MAX_SAFE_FILE_NAME_CHARS: usize = 180;

/// What `String::from_utf8_lossy` makes of these bytes.
pub uninterp spec fn utf8_lossy(bytes: Seq<u8>) -> Seq<char>;

/// Calls `String::from_utf8_lossy`. Its documentation gives the exact text for valid UTF-8;
/// for other input the replacement of invalid sequences is left to the name `utf8_lossy`.
#[verifier::external_body]
pub(crate) fn from_utf8_lossy(bytes: &[u8]) -> (text: String)
    ensures
        text@ == utf8_lossy(bytes@),
        vstd::utf8::valid_utf8(bytes@) ==> text@ == vstd::utf8::decode_utf8(bytes@),
{
    String::from_utf8_lossy(bytes).into_owned()
}

/// A character that Windows refuses in file names.
pub open spec fn reserved_file_char(c: char) -> bool {
    c == '<' || c == '>' || c == ':' || c == '"' || c == '/' || c == '\\' || c == '|' || c == '?' || c == '*'
}

fn is_reserved_file_char(c: char) -> (b: bool)
    ensures
        b == reserved_file_char(c),
{
    c == '<' || c == '>' || c == ':' || c == '"' || c == '/' || c == '\\' || c == '|' || c == '?' || c == '*'
}

/// UTF-16 code units of one character.
pub open spec fn utf16_len(c: char) -> nat {
    if c as u32 >= 0x10000 {
        2
    } else {
        1
    }
}

/// UTF-16 code units of a text.
pub open spec fn utf16_count(s: Seq<char>) -> nat
    decreases s.len(),
{
    if s.len() == 0 {
        0
    } else {
        utf16_len(s[0]) + utf16_count(s.drop_first())
    }
}

/// The text after the last `/` or `\`.
pub open spec fn after_last_separator(s: Seq<char>, i: int) -> Seq<char>
    decreases i,
{
    if i <= 0 || i > s.len() {
        s
    } else if s[i - 1] == '/' || s[i - 1] == '\\' {
        s.subrange(i, s.len() as int)
    } else {
        after_last_separator(s, i - 1)
    }
}

pub open spec fn basename(s: Seq<char>) -> Seq<char> {
    after_last_separator(s, s.len() as int)
}

/// The characters of `s` that fit into `budget` UTF-16 units, with control and reserved
/// characters replaced by `_`; copying stops at the first character that does not fit.
pub open spec fn sanitize_within(s: Seq<char>, budget: nat) -> Seq<char>
    decreases s.len(),
{
    if s.len() == 0 || utf16_len(s[0]) > budget {
        seq![]
    } else {
        seq![if is_control(s[0]) || reserved_file_char(s[0]) {
            '_'
        } else {
            s[0]
        }] + sanitize_within(s.drop_first(), (budget - utf16_len(s[0])) as nat)
    }
}

pub open spec fn space_or_dot(c: char) -> bool {
    c == ' ' || c == '.'
}

pub open spec fn lead_end(s: Seq<char>, i: int) -> int
    decreases s.len() - i,
{
    if 0 <= i < s.len() && space_or_dot(s[i]) {
        lead_end(s, i + 1)
    } else {
        i
    }
}

pub open spec fn tail_start(s: Seq<char>, j: int, floor: int) -> int
    decreases j - floor,
{
    if floor < j <= s.len() && space_or_dot(s[j - 1]) {
        tail_start(s, j - 1, floor)
    } else {
        j
    }
}

/// `s` without leading and trailing spaces and dots.
pub open spec fn trim_space_dot(s: Seq<char>) -> Seq<char> {
    let a = lead_end(s, 0);
    s.subrange(a, tail_start(s, s.len() as int, a))
}

/// Position of the last `.` in `s[..i]`, or -1.
pub open spec fn last_dot(s: Seq<char>, i: int) -> int
    decreases i,
{
    if i <= 0 || i > s.len() {
        -1
    } else if s[i - 1] == '.' {
        i - 1
    } else {
        last_dot(s, i - 1)
    }
}

/// The stem of a file name as `Path::file_stem` gives it: everything before the last dot,
/// unless there is none or the only dot starts the name (or the name is `..`).
pub open spec fn file_stem(name: Seq<char>) -> Seq<char> {
    let d = last_dot(name, name.len() as int);
    if name == ".."@ || d <= 0 {
        name
    } else {
        name.subrange(0, d)
    }
}

/// The extension of a file name as `Path::extension` gives it.
pub open spec fn file_extension(name: Seq<char>) -> Option<Seq<char>> {
    let d = last_dot(name, name.len() as int);
    if name == ".."@ || d <= 0 {
        None
    } else {
        Some(name.subrange(d + 1, name.len() as int))
    }
}

/// A device name that Windows reserves: CON, PRN, AUX, NUL, or COM/LPT with a digit 1-9.
pub open spec fn spec_windows_reserved(stem: Seq<char>) -> bool {
    stem == "CON"@ || stem == "PRN"@ || stem == "AUX"@ || stem == "NUL"@ || (stem.len() == 4 && (
    stem.subrange(0, 3) == "COM"@ || stem.subrange(0, 3) == "LPT"@) && '1' <= stem[3] <= '9')
}

pub fn is_windows_reserved_name(stem: &str) -> (reserved: bool)
    ensures
        reserved == spec_windows_reserved(stem@),
{
    let s = chars_of(stem);
    reserved_chars(s.as_slice())
}

fn reserved_chars(s: &[char]) -> (reserved: bool)
    ensures
        reserved == spec_windows_reserved(s@),
{
    if chars_eq_str(s, "CON") || chars_eq_str(s, "PRN") || chars_eq_str(s, "AUX") || chars_eq_str(s, "NUL") {
        return true;
    }
    if s.len() != 4 {
        return false;
    }
    let prefix = crate::text::copy_chars(s, 0, 3);
    (chars_eq_str(prefix.as_slice(), "COM") || chars_eq_str(prefix.as_slice(), "LPT")) && '1' <= s[3]
        && s[3] <= '9'
}

/// The name a received file is stored under: the part after the last path separator,
/// trimmed, cut to 180 UTF-16 units, with control and reserved characters replaced by `_`,
/// without leading and trailing spaces and dots; `download` when nothing is left; and with
/// `_` in front when its stem is a reserved Windows device name.
pub open spec fn spec_sanitize_remote_file_name(bytes: Seq<u8>) -> Seq<char> {
    let base = trim(basename(utf8_lossy(bytes)));
    let t = trim_space_dot(sanitize_within(base, MAX_SAFE_FILE_NAME_CHARS as nat));
    let result = if t.len() == 0 || t == "."@ || t == ".."@ {
        "download"@
    } else {
        t
    };
    if spec_windows_reserved(to_ascii_uppercase(file_stem(result))) {
        seq!['_'] + result
    } else {
        result
    }
}

fn basename_chars(s: &[char]) -> (out: Vec<char>)
    ensures
        out@ == basename(s@),
{
    let mut i: usize = s.len();
    while i > 0 && s[i - 1] != '/' && s[i - 1] != '\\'
        invariant
            i <= s@.len(),
            basename(s@) == after_last_separator(s@, i as int),
        decreases i,
    {
        i -= 1;
    }
    crate::text::copy_chars(s, i, s.len())
}

fn sanitize_chars_within(s: &[char], budget: usize) -> (out: Vec<char>)
    ensures
        out@ == sanitize_within(s@, budget as nat),
{
    let mut out: Vec<char> = Vec::new();
    let mut left: usize = budget;
    let mut i: usize = 0;
    assert(s@.subrange(0, s@.len() as int) =~= s@);
    assert(Seq::<char>::empty() + s@ =~= s@);
    while i < s.len()
        invariant
            i <= s@.len(),
            sanitize_within(s@, budget as nat) == out@ + sanitize_within(s@.subrange(i as int, s@.len() as int), left as nat),
        decreases s@.len() - i,
    {
        let ghost rest = s@.subrange(i as int, s@.len() as int);
        assert(rest.drop_first() =~= s@.subrange(i + 1, s@.len() as int));
        let c = s[i];
        let units: usize = if c as u32 >= 0x10000 {
            2
        } else {
            1
        };
        if units > left {
            assert(out@ + Seq::<char>::empty() =~= out@);
            return out;
        }
        let replaced = if char_is_control(c) || is_reserved_file_char(c) {
            '_'
        } else {
            c
        };
        let ghost before = out@;
        out.push(replaced);
        left = left - units;
        i += 1;
        proof {
            let tail = sanitize_within(s@.subrange(i as int, s@.len() as int), left as nat);
            assert(before + (seq![replaced] + tail) =~= out@ + tail);
        }
    }
    assert(s@.subrange(i as int, s@.len() as int) =~= Seq::<char>::empty());
    assert(out@ + Seq::<char>::empty() =~= out@);
    out
}

fn trim_space_dot_chars(s: &[char]) -> (out: Vec<char>)
    ensures
        out@ == trim_space_dot(s@),
{
    let mut a: usize = 0;
    while a < s.len() && (s[a] == ' ' || s[a] == '.')
        invariant
            a <= s@.len(),
            lead_end(s@, 0) == lead_end(s@, a as int),
        decreases s@.len() - a,
    {
        a += 1;
    }
    let mut b: usize = s.len();
    while b > a && (s[b - 1] == ' ' || s[b - 1] == '.')
        invariant
            a <= b <= s@.len(),
            lead_end(s@, 0) == a,
            tail_start(s@, s@.len() as int, a as int) == tail_start(s@, b as int, a as int),
        decreases b,
    {
        b -= 1;
    }
    crate::text::copy_chars(s, a, b)
}

fn file_stem_chars(name: &[char]) -> (stem: Vec<char>)
    ensures
        stem@ == file_stem(name@),
{
    let mut i: usize = name.len();
    while i > 0 && name[i - 1] != '.'
        invariant
            i <= name@.len(),
            last_dot(name@, name@.len() as int) == last_dot(name@, i as int),
        decreases i,
    {
        i -= 1;
    }
    if chars_eq_str(name, "..") || i <= 1 {
        crate::text::copy_chars(name, 0, name.len())
    } else {
        crate::text::copy_chars(name, 0, i - 1)
    }
}

pub fn sanitize_remote_file_name(remote_name: &[u8]) -> (name: String)
    ensures
        name@ == spec_sanitize_remote_file_name(remote_name@),
{
    let decoded = from_utf8_lossy(remote_name);
    let base = trim_chars(basename_chars(chars_of(decoded.as_str()).as_slice()).as_slice());
    let sanitized = sanitize_chars_within(base.as_slice(), MAX_SAFE_FILE_NAME_CHARS);
    let trimmed = trim_space_dot_chars(sanitized.as_slice());
    let result: Vec<char> = if trimmed.len() == 0 || chars_eq_str(trimmed.as_slice(), ".") || chars_eq_str(
        trimmed.as_slice(),
        "..",
    ) {
        chars_of("download")
    } else {
        trimmed
    };
    let stem = uppercase_chars(file_stem_chars(result.as_slice()).as_slice());
    if reserved_chars(stem.as_slice()) {
        let mut out = owned("_");
        let mut i: usize = 0;
        proof {
            reveal_strlit("_");
        }
        while i < result.len()
            invariant
                i <= result@.len(),
                out@ == seq!['_'] + result@.take(i as int),
            decreases result@.len() - i,
        {
            push_char(&mut out, result[i]);
            i += 1;
            assert(out@ =~= seq!['_'] + result@.take(i as int));
        }
        assert(result@.take(result@.len() as int) =~= result@);
        out
    } else {
        string_of(result.as_slice())
    }
}

/// A name for a file that is dragged out of the application: reserved characters replaced
/// by `_`, trimmed, without trailing dots and spaces, `download` when nothing is left, and
/// with `_` in front when the part before the first dot is a reserved Windows device name.
pub open spec fn spec_sanitize_drag_file_name(name: Seq<char>) -> Seq<char> {
    let replaced = name.map_values(|c: char| if reserved_file_char(c) { '_' } else { c });
    let t = trim(replaced);
    let trimmed = t.subrange(0, tail_start(t, t.len() as int, 0));
    let result = if trimmed.len() == 0 {
        "download"@
    } else {
        trimmed
    };
    if spec_windows_reserved(to_ascii_uppercase(before_first_dot(result, 0))) {
        seq!['_'] + result
    } else {
        result
    }
}

/// The text before the first `.` at or after `i`.
pub open spec fn before_first_dot(s: Seq<char>, i: int) -> Seq<char>
    decreases s.len() - i,
{
    if i < 0 || i >= s.len() {
        s
    } else if s[i] == '.' {
        s.subrange(0, i)
    } else {
        before_first_dot(s, i + 1)
    }
}

pub fn sanitize_file_name(file_name: String) -> (name: String)
    ensures
        name@ == spec_sanitize_drag_file_name(file_name@),
{
    let chars = chars_of(file_name.as_str());
    let mut replaced: Vec<char> = Vec::new();
    let mut i: usize = 0;
    while i < chars.len()
        invariant
            i <= chars@.len(),
            chars@ == file_name@,
            replaced@ == chars@.take(i as int).map_values(|c: char| if reserved_file_char(c) { '_' } else { c }),
        decreases chars@.len() - i,
    {
        let c = chars[i];
        replaced.push(if is_reserved_file_char(c) { '_' } else { c });
        i += 1;
        assert(replaced@ =~= chars@.take(i as int).map_values(|c: char| if reserved_file_char(c) { '_' } else { c }));
    }
    assert(chars@.take(chars@.len() as int) =~= chars@);
    let t = trim_chars(replaced.as_slice());
    let mut b: usize = t.len();
    while b > 0 && (t[b - 1] == ' ' || t[b - 1] == '.')
        invariant
            b <= t@.len(),
            tail_start(t@, t@.len() as int, 0) == tail_start(t@, b as int, 0),
        decreases b,
    {
        b -= 1;
    }
    let trimmed = crate::text::copy_chars(t.as_slice(), 0, b);
    let result: Vec<char> = if trimmed.len() == 0 {
        chars_of("download")
    } else {
        trimmed
    };
    let mut d: usize = 0;
    while d < result.len() && result[d] != '.'
        invariant
            d <= result@.len(),
            before_first_dot(result@, 0) == before_first_dot(result@, d as int),
        decreases result@.len() - d,
    {
        d += 1;
    }
    let stem = uppercase_chars(crate::text::copy_chars(result.as_slice(), 0, d).as_slice());
    proof {
        let replaced_spec = file_name@.map_values(|c: char| if reserved_file_char(c) { '_' } else { c });
        assert(replaced@ == replaced_spec);
        assert(t@ == trim(replaced_spec));
        assert(trimmed@ == t@.subrange(0, tail_start(t@, t@.len() as int, 0)));
        assert(stem@ == to_ascii_uppercase(before_first_dot(result@, 0)));
    }
    if reserved_chars(stem.as_slice()) {
        let mut out = owned("_");
        proof {
            reveal_strlit("_");
        }
        let mut k: usize = 0;
        while k < result.len()
            invariant
                k <= result@.len(),
                out@ == seq!['_'] + result@.take(k as int),
            decreases result@.len() - k,
        {
            push_char(&mut out, result[k]);
            k += 1;
            assert(out@ =~= seq!['_'] + result@.take(k as int));
        }
        assert(result@.take(result@.len() as int) =~= result@);
        out
    } else {
        string_of(result.as_slice())
    }
}

/// An action key reduced to ASCII letters, digits, `-` and `_`; `action` when nothing is left.
pub open spec fn key_char(c: char) -> bool {
    is_ascii_alphanumeric(c) || c == '-' || c == '_'
}

pub open spec fn spec_sanitize_action_key(key: Seq<char>) -> Seq<char> {
    let cleaned = key.filter(|c: char| key_char(c));
    if cleaned.len() == 0 {
        "action"@
    } else {
        cleaned
    }
}

pub fn sanitize_action_key(action_key: &str) -> (key: String)
    ensures
        key@ == spec_sanitize_action_key(action_key@),
{
    let chars = chars_of(action_key);
    let mut cleaned: Vec<char> = Vec::new();
    let mut i: usize = 0;
    while i < chars.len()
        invariant
            i <= chars@.len(),
            chars@ == action_key@,
            cleaned@ == chars@.take(i as int).filter(|c: char| key_char(c)),
        decreases chars@.len() - i,
    {
        let c = chars[i];
        reveal_with_fuel(Seq::<char>::filter, 1);
        if char_is_ascii_alphanumeric(c) || c == '-' || c == '_' {
            cleaned.push(c);
        }
        assert(chars@.take(i + 1).drop_last() =~= chars@.take(i as int));
        i += 1;
    }
    assert(chars@.take(chars@.len() as int) =~= chars@);
    if cleaned.len() == 0 {
        owned("action")
    } else {
        string_of(cleaned.as_slice())
    }
}

/// The MIME type of an image file extension.
pub open spec fn spec_mime_for_extension(ext: Seq<char>) -> Seq<char> {
    if ext == "png"@ {
        "image/png"@
    } else if ext == "gif"@ {
        "image/gif"@
    } else if ext == "jpg"@ || ext == "jpeg"@ {
        "image/jpeg"@
    } else if ext == "webp"@ {
        "image/webp"@
    } else if ext == "svg"@ {
        "image/svg+xml"@
    } else {
        "application/octet-stream"@
    }
}

pub fn mime_for_extension(ext: &str) -> (mime: &'static str)
    ensures
        mime@ == spec_mime_for_extension(ext@),
{
    let e = chars_of(ext);
    if chars_eq_str(e.as_slice(), "png") {
        "image/png"
    } else if chars_eq_str(e.as_slice(), "gif") {
        "image/gif"
    } else if chars_eq_str(e.as_slice(), "jpg") || chars_eq_str(e.as_slice(), "jpeg") {
        "image/jpeg"
    } else if chars_eq_str(e.as_slice(), "webp") {
        "image/webp"
    } else if chars_eq_str(e.as_slice(), "svg") {
        "image/svg+xml"
    } else {
        "application/octet-stream"
    }
}

/// A resource id is a non-empty run of ASCII letters, digits and `-`.
pub open spec fn valid_resource_id(value: Seq<char>) -> bool {
    value.len() > 0 && forall|i: int| 0 <= i < value.len() ==> #[trigger] resource_id_char(value[i])
}

pub open spec fn resource_id_char(c: char) -> bool {
    is_ascii_alphanumeric(c) || c == '-'
}

pub fn validate_resource_id(value: &str) -> (result: Result<(), String>)
    ensures
        match result {
            Ok(()) => valid_resource_id(value@),
            Err(e) => !valid_resource_id(value@) && e@ == "Invalid background resource id"@,
        },
{
    let chars = chars_of(value);
    let mut i: usize = 0;
    while i < chars.len()
        invariant
            i <= chars@.len(),
            chars@ == value@,
            forall|k: int| 0 <= k < i ==> #[trigger] resource_id_char(chars@[k]),
        decreases chars@.len() - i,
    {
        let c = chars[i];
        if !(char_is_ascii_alphanumeric(c) || c == '-') {
            assert(!resource_id_char(value@[i as int]));
            return Err(owned("Invalid background resource id"));
        }
        i += 1;
    }
    if chars.len() == 0 {
        return Err(owned("Invalid background resource id"));
    }
    Ok(())
}

/// A log field with every control character replaced by a space.
pub open spec fn spec_sanitize_field(value: Seq<char>) -> Seq<char> {
    value.map_values(|c: char| if is_control(c) { ' ' } else { c })
}

pub fn sanitize_field(value: &str) -> (field: String)
    ensures
        field@ == spec_sanitize_field(value@),
{
    let chars = chars_of(value);
    let mut out: Vec<char> = Vec::new();
    let mut i: usize = 0;
    while i < chars.len()
        invariant
            i <= chars@.len(),
            chars@ == value@,
            out@ == chars@.take(i as int).map_values(|c: char| if is_control(c) { ' ' } else { c }),
        decreases chars@.len() - i,
    {
        let c = chars[i];
        out.push(if char_is_control(c) { ' ' } else { c });
        i += 1;
        assert(out@ =~= chars@.take(i as int).map_values(|c: char| if is_control(c) { ' ' } else { c }));
    }
    assert(chars@.take(chars@.len() as int) =~= chars@);
    string_of(out.as_slice())
}

/// A line of the connection log: the time in milliseconds, the session id in brackets and
/// the event, both with control characters made spaces.
pub fn connection_log_line(timestamp_ms: u128, session_id: &str, event: &str) -> (line: String)
    ensures
        line@ == crate::text::decimal(timestamp_ms as nat) + " ["@ + spec_sanitize_field(session_id@) + "] "@
            + spec_sanitize_field(event@),
{
    let a = crate::text::concat(crate::text::decimal_string_u128(timestamp_ms).as_str(), " [");
    let b = crate::text::concat(a.as_str(), sanitize_field(session_id).as_str());
    let c = crate::text::concat(b.as_str(), "] ");
    crate::text::concat(c.as_str(), sanitize_field(event).as_str())
}

/// An ASCII control byte.
pub open spec fn ascii_control_byte(b: u8) -> bool {
    b < 0x20 || b == 0x7f
}

/// How a chunk of bytes is described in the connection log.
pub open spec fn spec_describe_payload(data: Seq<u8>) -> Seq<char> {
    if data.len() == 0 {
        "empty"@
    } else if forall|i: int| 0 <= i < data.len() ==> #[trigger] ascii_control_byte(data[i]) {
        "control"@
    } else if forall|i: int| 0 <= i < data.len() ==> !#[trigger] ascii_control_byte(data[i]) {
        "text"@
    } else {
        "mixed"@
    }
}

pub fn describe_payload(data: &[u8]) -> (kind: &'static str)
    ensures
        kind@ == spec_describe_payload(data@),
{
    if data.len() == 0 {
        return "empty";
    }
    let mut all_control = true;
    let mut no_control = true;
    let mut i: usize = 0;
    while i < data.len()
        invariant
            i <= data@.len(),
            all_control == forall|k: int| 0 <= k < i ==> #[trigger] ascii_control_byte(data@[k]),
            no_control == forall|k: int| 0 <= k < i ==> !#[trigger] ascii_control_byte(data@[k]),
        decreases data@.len() - i,
    {
        let control = data[i] < 0x20 || data[i] == 0x7f;
        assert(control == ascii_control_byte(data@[i as int]));
        all_control = all_control && control;
        no_control = no_control && !control;
        i += 1;
    }
    if all_control {
        "control"
    } else if no_control {
        "text"
    } else {
        "mixed"
    }
}


/// A character that may stand in a stored file name.
pub open spec fn safe_name_char(c: char) -> bool {
    !is_control(c) && !reserved_file_char(c)
}

pub open spec fn all_safe(s: Seq<char>) -> bool {
    forall|i: int| 0 <= i < s.len() ==> #[trigger] safe_name_char(s[i])
}

proof fn lemma_utf16_count_concat(x: Seq<char>, y: Seq<char>)
    ensures
        utf16_count(x + y) == utf16_count(x) + utf16_count(y),
    decreases x.len(),
{
    if x.len() == 0 {
        assert(x + y =~= y);
    } else {
        lemma_utf16_count_concat(x.drop_first(), y);
        assert((x + y).drop_first() =~= x.drop_first() + y);
    }
}

proof fn lemma_utf16_count_subrange(s: Seq<char>, a: int, b: int)
    requires
        0 <= a <= b <= s.len(),
    ensures
        utf16_count(s.subrange(a, b)) <= utf16_count(s),
{
    let p = s.subrange(0, a);
    let m = s.subrange(a, b);
    let q = s.subrange(b, s.len() as int);
    assert(s =~= p + m + q);
    lemma_utf16_count_concat(p + m, q);
    lemma_utf16_count_concat(p, m);
}

proof fn lemma_sanitize_within_is_safe(s: Seq<char>, budget: nat)
    ensures
        utf16_count(sanitize_within(s, budget)) <= budget,
        all_safe(sanitize_within(s, budget)),
    decreases s.len(),
{
    if s.len() > 0 && utf16_len(s[0]) <= budget {
        let rest_budget = (budget - utf16_len(s[0])) as nat;
        lemma_sanitize_within_is_safe(s.drop_first(), rest_budget);
        let c = if is_control(s[0]) || reserved_file_char(s[0]) {
            '_'
        } else {
            s[0]
        };
        let out = sanitize_within(s, budget);
        let tail = sanitize_within(s.drop_first(), rest_budget);
        assert(out == seq![c] + tail);
        assert(out.drop_first() =~= tail);
        assert(utf16_len(c) <= utf16_len(s[0]));
        assert forall|i: int| 0 <= i < out.len() implies #[trigger] safe_name_char(out[i]) by {
            if i > 0 {
                assert(out[i] == tail[i - 1]);
            }
        }
    }
}

proof fn lemma_lead_end_bounds(s: Seq<char>, i: int)
    requires
        0 <= i <= s.len(),
    ensures
        i <= lead_end(s, i) <= s.len(),
    decreases s.len() - i,
{
    if i < s.len() && space_or_dot(s[i]) {
        lemma_lead_end_bounds(s, i + 1);
    }
}

proof fn lemma_tail_start_bounds(s: Seq<char>, j: int, floor: int)
    requires
        0 <= floor <= j <= s.len(),
    ensures
        floor <= tail_start(s, j, floor) <= j,
    decreases j - floor,
{
    if floor < j && space_or_dot(s[j - 1]) {
        lemma_tail_start_bounds(s, j - 1, floor);
    }
}

/// A received file is always stored under a usable name: it is never empty, holds no
/// control character, path separator or other character that Windows refuses, and is at
/// most 180 UTF-16 units long (181 when it gets the `_` that marks a reserved device name).
pub proof fn lemma_remote_file_name_is_safe(bytes: Seq<u8>)
    ensures
        spec_sanitize_remote_file_name(bytes).len() > 0,
        all_safe(spec_sanitize_remote_file_name(bytes)),
        utf16_count(spec_sanitize_remote_file_name(bytes)) <= MAX_SAFE_FILE_NAME_CHARS + 1,
{
    reveal_strlit("download");
    let base = trim(basename(utf8_lossy(bytes)));
    let sanitized = sanitize_within(base, MAX_SAFE_FILE_NAME_CHARS as nat);
    lemma_sanitize_within_is_safe(base, MAX_SAFE_FILE_NAME_CHARS as nat);
    let a = lead_end(sanitized, 0);
    lemma_lead_end_bounds(sanitized, 0);
    lemma_tail_start_bounds(sanitized, sanitized.len() as int, a);
    let t = trim_space_dot(sanitized);
    let b = tail_start(sanitized, sanitized.len() as int, a);
    lemma_utf16_count_subrange(sanitized, a, b);
    assert(all_safe(t)) by {
        assert forall|i: int| 0 <= i < t.len() implies #[trigger] safe_name_char(t[i]) by {
            assert(t[i] == sanitized[a + i]);
        }
    }
    let d = "download"@;
    assert(all_safe(d)) by {
        assert forall|i: int| 0 <= i < d.len() implies #[trigger] safe_name_char(d[i]) by {
        }
    }
    assert(utf16_count(d) == 8) by {
        reveal_with_fuel(utf16_count, 9);
    }
    let result = if t.len() == 0 || t == "."@ || t == ".."@ {
        d
    } else {
        t
    };
    let marked = seq!['_'] + result;
    lemma_utf16_count_concat(seq!['_'], result);
    assert(utf16_count(seq!['_']) == 1) by {
        reveal_with_fuel(utf16_count, 2);
        assert(seq!['_'].drop_first() =~= Seq::<char>::empty());
    }
    assert(all_safe(marked)) by {
        assert forall|i: int| 0 <= i < marked.len() implies #[trigger] safe_name_char(marked[i]) by {
            if i > 0 {
                assert(marked[i] == result[i - 1]);
            }
        }
    }
}


pub open spec fn no_reserved(s: Seq<char>) -> bool {
    forall|i: int| 0 <= i < s.len() ==> !#[trigger] reserved_file_char(s[i])
}

/// A file dragged out of the application always gets a name that is not empty and holds
/// no character that Windows refuses in file names.
pub proof fn lemma_drag_file_name_is_safe(name: Seq<char>)
    ensures
        spec_sanitize_drag_file_name(name).len() > 0,
        no_reserved(spec_sanitize_drag_file_name(name)),
{
    reveal_strlit("download");
    let replaced = name.map_values(|c: char| if reserved_file_char(c) { '_' } else { c });
    assert(no_reserved(replaced));
    let t = trim(replaced);
    crate::text::lemma_trim_ends(replaced);
    assert(no_reserved(t)) by {
        assert forall|i: int| 0 <= i < t.len() implies !#[trigger] reserved_file_char(t[i]) by {
            crate::text::lemma_trim_is_subrange(replaced);
            let a = crate::text::trim_start_index(replaced, 0);
            assert(t[i] == replaced[a + i]);
        }
    }
    lemma_tail_start_bounds(t, t.len() as int, 0);
    let trimmed = t.subrange(0, tail_start(t, t.len() as int, 0));
    assert(no_reserved(trimmed)) by {
        assert forall|i: int| 0 <= i < trimmed.len() implies !#[trigger] reserved_file_char(trimmed[i]) by {
            assert(trimmed[i] == t[i]);
        }
    }
    let d = "download"@;
    assert(no_reserved(d));
    let result = if trimmed.len() == 0 {
        d
    } else {
        trimmed
    };
    let marked = seq!['_'] + result;
    assert(no_reserved(marked)) by {
        assert forall|i: int| 0 <= i < marked.len() implies !#[trigger] reserved_file_char(marked[i]) by {
            if i > 0 {
                assert(marked[i] == result[i - 1]);
            }
        }
    }
}

} // verus!
