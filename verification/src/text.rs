use vstd::prelude::*;

verus! {

broadcast use vstd::string::axiom_spec_iter;

/// Calls `String::push`, which appends one character.
#[verifier::external_body]
pub(crate) fn push_char(s: &mut String, c: char)
    ensures
        final(s)@ == old(s)@.push(c),
{
    s.push(c);
}

/// What `str::to_lowercase` makes of a text (full Unicode lower-case mapping).
pub uninterp spec fn unicode_lowercase(s: Seq<char>) -> Seq<char>;

/// Calls `str::to_lowercase`; its result is named, not spelled out.
#[verifier::external_body]
pub(crate) fn to_lowercase(s: &str) -> (out: String)
    ensures
        out@ == unicode_lowercase(s@),
{
    s.to_lowercase()
}

/// What `char::to_uppercase` yields for a character (full Unicode upper-case mapping,
/// which may be more than one character).
pub uninterp spec fn unicode_uppercase_char(c: char) -> Seq<char>;

/// Calls `char::to_uppercase` and collects the characters it yields.
#[verifier::external_body]
pub(crate) fn char_to_uppercase(c: char) -> (out: String)
    ensures
        out@ == unicode_uppercase_char(c),
{
    c.to_uppercase().collect::<String>()
}

/// The characters of `s`, in order.
pub fn chars_of(s: &str) -> (out: Vec<char>)
    ensures
        out@ == s@,
{
    let mut out: Vec<char> = Vec::new();
    for c in it: s.chars()
        invariant
            it.seq() == s@,
            out@ == it.seq().take(it.index() as int),
    {
        out.push(c);
        assert(out@ =~= it.seq().take(it.index() + 1));
    }
    assert(out@ =~= s@);
    out
}

/// A string made of the characters `chars`.
pub fn string_of(chars: &[char]) -> (out: String)
    ensures
        out@ == chars@,
{
    let mut out = String::new();
    let mut i: usize = 0;
    while i < chars.len()
        invariant
            i <= chars@.len(),
            out@ == chars@.take(i as int),
        decreases chars@.len() - i,
    {
        push_char(&mut out, chars[i]);
        i += 1;
        assert(out@ =~= chars@.take(i as int));
    }
    assert(chars@.take(chars@.len() as int) =~= chars@);
    out
}

/// A string with the same characters as `s`.
pub fn owned(s: &str) -> (out: String)
    ensures
        out@ == s@,
{
    let chars = chars_of(s);
    string_of(chars.as_slice())
}

/// Whether two character sequences are equal.
pub fn chars_eq(a: &[char], b: &[char]) -> (eq: bool)
    ensures
        eq == (a@ == b@),
{
    if a.len() != b.len() {
        return false;
    }
    let mut i: usize = 0;
    while i < a.len()
        invariant
            a@.len() == b@.len(),
            i <= a@.len(),
            forall|k: int| 0 <= k < i ==> a@[k] == b@[k],
        decreases a@.len() - i,
    {
        if a[i] != b[i] {
            return false;
        }
        i += 1;
    }
    assert(a@ =~= b@);
    true
}

/// Whether the characters `a` spell the string `b`.
pub fn chars_eq_str(a: &[char], b: &str) -> (eq: bool)
    ensures
        eq == (a@ == b@),
{
    let bc = chars_of(b);
    chars_eq(a, bc.as_slice())
}

/// Whether `a` begins with the characters of `prefix`.
pub fn starts_with_str(a: &[char], prefix: &str) -> (b: bool)
    ensures
        b == (prefix@.len() <= a@.len() && a@.subrange(0, prefix@.len() as int) == prefix@),
{
    let p = chars_of(prefix);
    if p.len() > a.len() {
        return false;
    }
    let mut i: usize = 0;
    while i < p.len()
        invariant
            p@ == prefix@,
            p@.len() <= a@.len(),
            i <= p@.len(),
            forall|k: int| 0 <= k < i ==> a@[k] == p@[k],
        decreases p@.len() - i,
    {
        if a[i] != p[i] {
            assert(a@.subrange(0, p@.len() as int)[i as int] != p@[i as int]);
            return false;
        }
        i += 1;
    }
    assert(a@.subrange(0, p@.len() as int) =~= p@);
    true
}

/// Unicode White_Space, as `char::is_whitespace` defines it.
pub open spec fn is_whitespace(c: char) -> bool {
    let u = c as u32;
    (0x09 <= u <= 0x0d) || u == 0x20 || u == 0x85 || u == 0xa0 || u == 0x1680 || (0x2000 <= u
        <= 0x200a) || u == 0x2028 || u == 0x2029 || u == 0x202f || u == 0x205f || u == 0x3000
}

pub fn char_is_whitespace(c: char) -> (b: bool)
    ensures
        b == is_whitespace(c),
{
    let u = c as u32;
    (0x09 <= u && u <= 0x0d) || u == 0x20 || u == 0x85 || u == 0xa0 || u == 0x1680 || (0x2000 <= u
        && u <= 0x200a) || u == 0x2028 || u == 0x2029 || u == 0x202f || u == 0x205f || u == 0x3000
}

/// Unicode general category Cc, as `char::is_control` defines it.
pub open spec fn is_control(c: char) -> bool {
    let u = c as u32;
    u <= 0x1f || (0x7f <= u <= 0x9f)
}

pub fn char_is_control(c: char) -> (b: bool)
    ensures
        b == is_control(c),
{
    let u = c as u32;
    u <= 0x1f || (0x7f <= u && u <= 0x9f)
}

pub open spec fn is_ascii_alphanumeric(c: char) -> bool {
    ('0' <= c <= '9') || ('a' <= c <= 'z') || ('A' <= c <= 'Z')
}

pub fn char_is_ascii_alphanumeric(c: char) -> (b: bool)
    ensures
        b == is_ascii_alphanumeric(c),
{
    ('0' <= c && c <= '9') || ('a' <= c && c <= 'z') || ('A' <= c && c <= 'Z')
}

/// Index of the first character of `s` that is not whitespace (`s.len()` if none).
pub open spec fn trim_start_index(s: Seq<char>, i: int) -> int
    decreases s.len() - i,
{
    if 0 <= i < s.len() && is_whitespace(s[i]) {
        trim_start_index(s, i + 1)
    } else {
        i
    }
}

/// End of `s[..j]` once trailing whitespace is dropped.
pub open spec fn trim_end_index(s: Seq<char>, j: int) -> int
    decreases j,
{
    if 0 < j <= s.len() && is_whitespace(s[j - 1]) {
        trim_end_index(s, j - 1)
    } else {
        j
    }
}

/// `s` without leading whitespace.
pub open spec fn trim_start(s: Seq<char>) -> Seq<char> {
    s.subrange(trim_start_index(s, 0), s.len() as int)
}

/// `s` without trailing whitespace.
pub open spec fn trim_end(s: Seq<char>) -> Seq<char> {
    s.subrange(0, trim_end_index(s, s.len() as int))
}

/// `s` without leading and trailing whitespace, as `str::trim` gives it.
pub open spec fn trim(s: Seq<char>) -> Seq<char> {
    trim_end(trim_start(s))
}

pub proof fn lemma_trim_start_index(s: Seq<char>, i: int)
    requires
        0 <= i <= s.len(),
    ensures
        i <= trim_start_index(s, i) <= s.len(),
        forall|k: int| i <= k < trim_start_index(s, i) ==> is_whitespace(s[k]),
        trim_start_index(s, i) < s.len() ==> !is_whitespace(s[trim_start_index(s, i)]),
    decreases s.len() - i,
{
    if i < s.len() && is_whitespace(s[i]) {
        lemma_trim_start_index(s, i + 1);
    }
}

pub proof fn lemma_trim_end_index(s: Seq<char>, j: int)
    requires
        0 <= j <= s.len(),
    ensures
        0 <= trim_end_index(s, j) <= j,
        forall|k: int| trim_end_index(s, j) <= k < j ==> is_whitespace(s[k]),
        trim_end_index(s, j) > 0 ==> !is_whitespace(s[trim_end_index(s, j) - 1]),
    decreases j,
{
    if 0 < j && is_whitespace(s[j - 1]) {
        lemma_trim_end_index(s, j - 1);
    }
}

/// Trimmed text is a piece of the text: it starts at the first character that is not
/// whitespace.
pub proof fn lemma_trim_is_subrange(s: Seq<char>)
    ensures
        0 <= trim_start_index(s, 0),
        trim_start_index(s, 0) + trim(s).len() <= s.len(),
        trim(s) == s.subrange(trim_start_index(s, 0), trim_start_index(s, 0) + trim(s).len()),
{
    lemma_trim_start_index(s, 0);
    let a = trim_start_index(s, 0);
    let t = trim_start(s);
    lemma_trim_end_index(t, t.len() as int);
    assert(trim(s) =~= s.subrange(a, a + trim(s).len()));
}

/// Trimmed text has no whitespace at either end.
pub proof fn lemma_trim_ends(s: Seq<char>)
    ensures
        trim(s).len() > 0 ==> !is_whitespace(trim(s)[0]) && !is_whitespace(trim(s)[trim(s).len() - 1]),
        trim(s).len() <= s.len(),
{
    lemma_trim_start_index(s, 0);
    let t = trim_start(s);
    lemma_trim_end_index(t, t.len() as int);
}

/// `chars` without leading and trailing whitespace.
pub fn trim_chars(chars: &[char]) -> (out: Vec<char>)
    ensures
        out@ == trim(chars@),
{
    let mut start: usize = 0;
    while start < chars.len() && char_is_whitespace(chars[start])
        invariant
            start <= chars@.len(),
            trim_start_index(chars@, 0) == trim_start_index(chars@, start as int),
        decreases chars@.len() - start,
    {
        start += 1;
    }
    let ghost t = chars@.subrange(start as int, chars@.len() as int);
    let mut end: usize = chars.len();
    while end > start && char_is_whitespace(chars[end - 1])
        invariant
            start <= end <= chars@.len(),
            t == chars@.subrange(start as int, chars@.len() as int),
            trim_end_index(t, t.len() as int) == trim_end_index(t, end - start),
        decreases end,
    {
        assert(t[end - start - 1] == chars@[end - 1]);
        end -= 1;
    }
    let mut out: Vec<char> = Vec::new();
    let mut i: usize = start;
    while i < end
        invariant
            start <= i <= end <= chars@.len(),
            out@ == chars@.subrange(start as int, i as int),
        decreases end - i,
    {
        out.push(chars[i]);
        i += 1;
        assert(out@ =~= chars@.subrange(start as int, i as int));
    }
    assert(out@ =~= t.subrange(0, (end - start) as int));
    out
}

/// The characters `chars[from..to]`.
pub fn copy_chars(chars: &[char], from: usize, to: usize) -> (out: Vec<char>)
    requires
        from <= to <= chars@.len(),
    ensures
        out@ == chars@.subrange(from as int, to as int),
{
    let mut out: Vec<char> = Vec::new();
    let mut i: usize = from;
    while i < to
        invariant
            from <= i <= to <= chars@.len(),
            out@ == chars@.subrange(from as int, i as int),
        decreases to - i,
    {
        out.push(chars[i]);
        i += 1;
        assert(out@ =~= chars@.subrange(from as int, i as int));
    }
    out
}

/// `s` trimmed, as a string.
pub fn trim_str(s: &str) -> (out: String)
    ensures
        out@ == trim(s@),
{
    let chars = chars_of(s);
    let t = trim_chars(chars.as_slice());
    string_of(t.as_slice())
}

/// ASCII lower case of one character; others unchanged.
pub open spec fn ascii_lower(c: char) -> char {
    if 'A' <= c <= 'Z' {
        ((c as u32) + 32) as char
    } else {
        c
    }
}

/// ASCII upper case of one character; others unchanged.
pub open spec fn ascii_upper(c: char) -> char {
    if 'a' <= c <= 'z' {
        ((c as u32) - 32) as char
    } else {
        c
    }
}

pub open spec fn to_ascii_lowercase(s: Seq<char>) -> Seq<char> {
    s.map_values(|c: char| ascii_lower(c))
}

pub open spec fn to_ascii_uppercase(s: Seq<char>) -> Seq<char> {
    s.map_values(|c: char| ascii_upper(c))
}

pub fn char_to_ascii_lower(c: char) -> (out: char)
    ensures
        out == ascii_lower(c),
{
    if 'A' <= c && c <= 'Z' {
        let u = c as u32 + 32;
        char_from_ascii(u)
    } else {
        c
    }
}

pub fn char_to_ascii_upper(c: char) -> (out: char)
    ensures
        out == ascii_upper(c),
{
    if 'a' <= c && c <= 'z' {
        let u = c as u32 - 32;
        char_from_ascii(u)
    } else {
        c
    }
}

/// The character with ASCII code `u`.
fn char_from_ascii(u: u32) -> (c: char)
    requires
        u < 128,
    ensures
        c == u as char,
{
    let b: u8 = u as u8;
    b as char
}

pub fn lowercase_chars(chars: &[char]) -> (out: Vec<char>)
    ensures
        out@ == to_ascii_lowercase(chars@),
{
    let mut out: Vec<char> = Vec::new();
    let mut i: usize = 0;
    while i < chars.len()
        invariant
            i <= chars@.len(),
            out@ == to_ascii_lowercase(chars@.take(i as int)),
        decreases chars@.len() - i,
    {
        out.push(char_to_ascii_lower(chars[i]));
        i += 1;
        assert(out@ =~= to_ascii_lowercase(chars@.take(i as int)));
    }
    assert(chars@.take(chars@.len() as int) =~= chars@);
    out
}

pub fn uppercase_chars(chars: &[char]) -> (out: Vec<char>)
    ensures
        out@ == to_ascii_uppercase(chars@),
{
    let mut out: Vec<char> = Vec::new();
    let mut i: usize = 0;
    while i < chars.len()
        invariant
            i <= chars@.len(),
            out@ == to_ascii_uppercase(chars@.take(i as int)),
        decreases chars@.len() - i,
    {
        out.push(char_to_ascii_upper(chars[i]));
        i += 1;
        assert(out@ =~= to_ascii_uppercase(chars@.take(i as int)));
    }
    assert(chars@.take(chars@.len() as int) =~= chars@);
    out
}

/// `s`, trimmed and in ASCII lower case.
pub fn trimmed_lowercase(s: &str) -> (out: Vec<char>)
    ensures
        out@ == to_ascii_lowercase(trim(s@)),
{
    let chars = chars_of(s);
    let t = trim_chars(chars.as_slice());
    lowercase_chars(t.as_slice())
}

} // verus!

verus! {

/// The decimal digit for `d < 10`.
pub open spec fn digit_char(d: nat) -> char {
    ((d + 48) as u32) as char
}

/// `n` written in decimal, without leading zeros.
pub open spec fn decimal(n: nat) -> Seq<char>
    decreases n,
{
    if n < 10 {
        seq![digit_char(n)]
    } else {
        decimal(n / 10).push(digit_char(n % 10))
    }
}

fn digit(d: u64) -> (c: char)
    requires
        d < 10,
    ensures
        c == digit_char(d as nat),
{
    char_from_ascii((d + 48) as u32)
}

/// `n` written in decimal, as `format!("{}", n)` writes it.
pub fn decimal_string(n: u64) -> (out: String)
    ensures
        out@ == decimal(n as nat),
{
    let mut digits: Vec<char> = Vec::new();
    let mut rest: u64 = n;
    // digits are collected least significant first
    while rest >= 10
        invariant
            decimal(n as nat) == decimal(rest as nat) + digits@.reverse(),
        decreases rest,
    {
        let d = rest % 10;
        let ghost before = digits@;
        digits.push(digit(d));
        assert(decimal(rest as nat) == decimal((rest / 10) as nat).push(digit_char(d as nat)));
        assert(digits@.reverse() =~= seq![digit_char(d as nat)] + before.reverse());
        assert(decimal((rest / 10) as nat).push(digit_char(d as nat)) + before.reverse() =~= decimal(
            (rest / 10) as nat,
        ) + digits@.reverse());
        rest = rest / 10;
    }
    let mut out: Vec<char> = Vec::new();
    out.push(digit(rest));
    let mut i: usize = digits.len();
    while i > 0
        invariant
            i <= digits@.len(),
            out@ == decimal(rest as nat) + digits@.reverse().take((digits@.len() - i) as int),
        decreases i,
    {
        i -= 1;
        out.push(digits[i]);
        assert(out@ =~= decimal(rest as nat) + digits@.reverse().take((digits@.len() - i) as int));
    }
    assert(digits@.reverse().take(digits@.len() as int) =~= digits@.reverse());
    string_of(out.as_slice())
}

/// A `u128` written in decimal.
pub fn decimal_string_u128(n: u128) -> (out: String)
    ensures
        out@ == decimal(n as nat),
{
    let mut digits: Vec<char> = Vec::new();
    let mut rest: u128 = n;
    // digits are collected least significant first
    while rest >= 10
        invariant
            decimal(n as nat) == decimal(rest as nat) + digits@.reverse(),
        decreases rest,
    {
        let d = rest % 10;
        let ghost before = digits@;
        digits.push(digit(d as u64));
        assert(decimal(rest as nat) == decimal((rest / 10) as nat).push(digit_char(d as nat)));
        assert(digits@.reverse() =~= seq![digit_char(d as nat)] + before.reverse());
        assert(decimal((rest / 10) as nat).push(digit_char(d as nat)) + before.reverse() =~= decimal(
            (rest / 10) as nat,
        ) + digits@.reverse());
        rest = rest / 10;
    }
    let mut out: Vec<char> = Vec::new();
    out.push(digit(rest as u64));
    let mut i: usize = digits.len();
    while i > 0
        invariant
            i <= digits@.len(),
            out@ == decimal(rest as nat) + digits@.reverse().take((digits@.len() - i) as int),
        decreases i,
    {
        i -= 1;
        out.push(digits[i]);
        assert(out@ =~= decimal(rest as nat) + digits@.reverse().take((digits@.len() - i) as int));
    }
    assert(digits@.reverse().take(digits@.len() as int) =~= digits@.reverse());
    string_of(out.as_slice())
}

/// Lower-case hexadecimal digit for `d < 16`.
pub open spec fn hex_digit_char(d: nat) -> char {
    if d < 10 {
        ((d + 48) as u32) as char
    } else {
        ((d + 87) as u32) as char
    }
}

/// `v` as four lower-case hexadecimal digits, as `format!("{:04x}", v)` writes a `u16`.
pub open spec fn hex4(v: u16) -> Seq<char> {
    seq![
        hex_digit_char((v as nat / 4096) % 16),
        hex_digit_char((v as nat / 256) % 16),
        hex_digit_char((v as nat / 16) % 16),
        hex_digit_char(v as nat % 16),
    ]
}

pub fn hex_digit(d: u16) -> (c: char)
    requires
        d < 16,
    ensures
        c == hex_digit_char(d as nat),
{
    if d < 10 {
        char_from_ascii((d + 48) as u32)
    } else {
        char_from_ascii((d + 87) as u32)
    }
}

pub fn hex4_string(v: u16) -> (out: String)
    ensures
        out@ == hex4(v),
{
    let chars: Vec<char> = vec![
        hex_digit((v / 4096) % 16),
        hex_digit((v / 256) % 16),
        hex_digit((v / 16) % 16),
        hex_digit(v % 16),
    ];
    assert(chars@ =~= hex4(v));
    string_of(chars.as_slice())
}

/// `n` written in decimal with a leading `-` when it is negative.
pub open spec fn signed_decimal(n: int) -> Seq<char> {
    if n < 0 {
        seq!['-'] + decimal((-n) as nat)
    } else {
        decimal(n as nat)
    }
}

/// `n` written in decimal, as `format!("{}", n)` writes a signed integer.
pub fn signed_decimal_string(n: i32) -> (out: String)
    ensures
        out@ == signed_decimal(n as int),
{
    if n < 0 {
        let magnitude: u64 = (0i64 - (n as i64)) as u64;
        proof {
            reveal_strlit("-");
        }
        concat("-", decimal_string(magnitude).as_str())
    } else {
        decimal_string(n as u64)
    }
}

/// `a` followed by `b`, as a new string.
pub fn concat(a: &str, b: &str) -> (out: String)
    ensures
        out@ == a@ + b@,
{
    let mut chars = chars_of(a);
    let more = chars_of(b);
    let mut i: usize = 0;
    let ghost start = chars@;
    while i < more.len()
        invariant
            i <= more@.len(),
            chars@ == start + more@.take(i as int),
        decreases more@.len() - i,
    {
        chars.push(more[i]);
        i += 1;
        assert(chars@ =~= start + more@.take(i as int));
    }
    assert(more@.take(more@.len() as int) =~= more@);
    string_of(chars.as_slice())
}

} // verus!
