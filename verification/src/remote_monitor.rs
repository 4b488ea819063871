use vstd::prelude::*;

use crate::accounts::{lines_of, piece_views, text_lines};
use crate::ssh_config::opt_view;
use crate::text::{char_is_whitespace, chars_eq_str, chars_of, copy_chars, is_whitespace, owned, starts_with_str, string_of, trim, trim_chars};

verus! {

/// The shell command whose output `parse_stats` reads: the first line of `/proc/stat`, the
/// memory lines of `/proc/meminfo`, the root file system line of `df`, and the network
/// interface lines of `/proc/net/dev`, each after a `>>>` section marker.
pub fn build_stats_command() -> (command: String)
    ensures
        command@ == "echo '>>>CPU'; head -1 /proc/stat; echo '>>>MEM'; grep -E '^(MemTotal|MemAvailable|MemFree|Buffers|Cached):' /proc/meminfo; echo '>>>DISK'; df -P / | tail -1; echo '>>>NET'; grep -E '^ *(eth|ens|eno|enp|wlan|wl)[0-9]' /proc/net/dev 2>/dev/null || cat /proc/net/dev | tail -n +3"@,
{
    owned(
        "echo '>>>CPU'; head -1 /proc/stat; echo '>>>MEM'; grep -E '^(MemTotal|MemAvailable|MemFree|Buffers|Cached):' /proc/meminfo; echo '>>>DISK'; df -P / | tail -1; echo '>>>NET'; grep -E '^ *(eth|ens|eno|enp|wlan|wl)[0-9]' /proc/net/dev 2>/dev/null || cat /proc/net/dev | tail -n +3",
    )
}

/// Index of the first character at or after `i` that is not whitespace.
pub open spec fn skip_ws(s: Seq<char>, i: int) -> int
    decreases s.len() - i,
{
    if 0 <= i < s.len() && is_whitespace(s[i]) {
        skip_ws(s, i + 1)
    } else {
        i
    }
}

/// Index just after the word that starts at `j`.
pub open spec fn word_end(s: Seq<char>, j: int) -> int
    decreases s.len() - j,
{
    if 0 <= j < s.len() && !is_whitespace(s[j]) {
        word_end(s, j + 1)
    } else {
        j
    }
}

pub proof fn lemma_skip_ws(s: Seq<char>, i: int)
    requires
        0 <= i <= s.len(),
    ensures
        i <= skip_ws(s, i) <= s.len(),
        skip_ws(s, i) < s.len() ==> !is_whitespace(s[skip_ws(s, i)]),
    decreases s.len() - i,
{
    if i < s.len() && is_whitespace(s[i]) {
        lemma_skip_ws(s, i + 1);
    }
}

pub proof fn lemma_word_end(s: Seq<char>, j: int)
    requires
        0 <= j <= s.len(),
    ensures
        j <= word_end(s, j) <= s.len(),
        j < s.len() && !is_whitespace(s[j]) ==> j < word_end(s, j),
    decreases s.len() - j,
{
    if j < s.len() && !is_whitespace(s[j]) {
        lemma_word_end(s, j + 1);
    }
}

/// The whitespace-separated words of `s[i..]`, as `str::split_whitespace` yields them.
pub open spec fn words_from(s: Seq<char>, i: int) -> Seq<Seq<char>>
    decreases s.len() - i,
{
    if i < 0 || i > s.len() {
        seq![]
    } else {
        let j = skip_ws(s, i);
        proof {
            lemma_skip_ws(s, i);
        }
        if j >= s.len() {
            seq![]
        } else {
            let k = word_end(s, j);
            proof {
                lemma_word_end(s, j);
            }
            seq![s.subrange(j, k)] + words_from(s, k)
        }
    }
}

pub open spec fn words(s: Seq<char>) -> Seq<Seq<char>> {
    words_from(s, 0)
}

pub open spec fn char_views(words: Seq<Vec<char>>) -> Seq<Seq<char>> {
    words.map_values(|w: Vec<char>| w@)
}

pub fn split_whitespace(s: &[char]) -> (out: Vec<Vec<char>>)
    ensures
        char_views(out@) == words(s@),
{
    let mut out: Vec<Vec<char>> = Vec::new();
    let mut i: usize = 0;
    while i < s.len()
        invariant
            i <= s@.len(),
            words(s@) == char_views(out@) + words_from(s@, i as int),
        decreases s@.len() - i,
    {
        let ghost i0 = i as int;
        let mut j: usize = i;
        while j < s.len() && char_is_whitespace(s[j])
            invariant
                i0 <= j <= s@.len(),
                skip_ws(s@, i0) == skip_ws(s@, j as int),
            decreases s@.len() - j,
        {
            j += 1;
        }
        if j == s.len() {
            i = j;
            assert(words_from(s@, i0) == Seq::<Seq<char>>::empty());
            assert(words_from(s@, i as int) == Seq::<Seq<char>>::empty());
            assert(char_views(out@) + Seq::<Seq<char>>::empty() =~= char_views(out@));
        } else {
            let mut k: usize = j;
            while k < s.len() && !char_is_whitespace(s[k])
                invariant
                    j <= k <= s@.len(),
                    word_end(s@, j as int) == word_end(s@, k as int),
                decreases s@.len() - k,
            {
                k += 1;
            }
            proof {
                lemma_skip_ws(s@, i0);
                lemma_word_end(s@, j as int);
            }
            let word = copy_chars(s, j, k);
            let ghost before = char_views(out@);
            out.push(word);
            assert(char_views(out@) =~= before + seq![s@.subrange(j as int, k as int)]);
            assert(words_from(s@, i0) == seq![s@.subrange(j as int, k as int)] + words_from(s@, k as int));
            assert(before + (seq![s@.subrange(j as int, k as int)] + words_from(s@, k as int)) =~= char_views(out@)
                + words_from(s@, k as int));
            i = k;
        }
    }
    assert(words_from(s@, i as int) == Seq::<Seq<char>>::empty());
    assert(char_views(out@) + Seq::<Seq<char>>::empty() =~= char_views(out@));
    out
}

pub open spec fn digit_value(c: char) -> nat {
    (c as u32 - 48) as nat
}

pub open spec fn all_digits(s: Seq<char>) -> bool {
    forall|i: int| 0 <= i < s.len() ==> '0' <= #[trigger] s[i] <= '9'
}

/// The number the decimal digits `s` spell.
pub open spec fn digits_value(s: Seq<char>) -> nat
    decreases s.len(),
{
    if s.len() == 0 {
        0
    } else {
        digits_value(s.drop_last()) * 10 + digit_value(s.last())
    }
}

/// What `str::parse::<u64>` gives: an optional `+`, then one or more ASCII digits whose
/// value fits in 64 bits.
pub open spec fn spec_parse_u64(s: Seq<char>) -> Option<u64> {
    let d = if s.len() > 0 && s[0] == '+' {
        s.drop_first()
    } else {
        s
    };
    if d.len() > 0 && all_digits(d) && digits_value(d) <= u64::MAX {
        Some(digits_value(d) as u64)
    } else {
        None
    }
}

pub fn parse_u64(s: &[char]) -> (value: Option<u64>)
    ensures
        value == spec_parse_u64(s@),
{
    let start: usize = if s.len() > 0 && s[0] == '+' {
        1
    } else {
        0
    };
    let ghost d = if s@.len() > 0 && s@[0] == '+' {
        s@.drop_first()
    } else {
        s@
    };
    assert(d =~= s@.subrange(start as int, s@.len() as int));
    if start == s.len() {
        return None;
    }
    let mut v: u64 = 0;
    let mut i: usize = start;
    while i < s.len()
        invariant
            start <= i <= s@.len(),
            start < s@.len(),
            start == (if s@.len() > 0 && s@[0] == '+' { 1usize } else { 0usize }),
            d == (if s@.len() > 0 && s@[0] == '+' { s@.drop_first() } else { s@ }),
            d == s@.subrange(start as int, s@.len() as int),
            all_digits(s@.subrange(start as int, i as int)),
            v == digits_value(s@.subrange(start as int, i as int)),
        decreases s@.len() - i,
    {
        let c = s[i];
        assert(s@.subrange(start as int, i + 1).drop_last() =~= s@.subrange(start as int, i as int));
        if c < '0' || c > '9' {
            assert(!all_digits(d)) by {
                assert(d[i - start] == c);
            }
            return None;
        }
        let digit = (c as u32 - 48) as u64;
        if v > (u64::MAX - digit) / 10 {
            proof {
                let rest = s@.subrange(start as int, s@.len() as int);
                if all_digits(rest) {
                    lemma_digits_grow(rest, (i - start) as int);
                    assert(s@.subrange(start as int, i + 1) =~= rest.subrange(0, i - start + 1));
                    assert(digits_value(s@.subrange(start as int, i + 1)) == v * 10 + digit);
                }
            }
            return None;
        }
        v = v * 10 + digit;
        i += 1;
        assert(all_digits(s@.subrange(start as int, i as int)));
    }
    assert(s@.subrange(start as int, s@.len() as int) == d);
    Some(v)
}

/// The value of a digit string never shrinks as it gets longer.
pub proof fn lemma_digits_grow(s: Seq<char>, n: int)
    requires
        0 <= n < s.len(),
        all_digits(s),
    ensures
        digits_value(s.subrange(0, n + 1)) <= digits_value(s),
    decreases s.len() - n,
{
    if n + 1 < s.len() {
        lemma_digits_grow(s, n + 1);
        assert(s.subrange(0, n + 2).drop_last() =~= s.subrange(0, n + 1));
    } else {
        assert(s.subrange(0, n + 1) =~= s);
    }
}

/// A field of a CPU line that may be missing or malformed reads as 0.
pub open spec fn field_or_zero(fields: Seq<Seq<char>>, i: int) -> u64 {
    if 0 <= i < fields.len() {
        match spec_parse_u64(fields[i]) {
            Some(v) => v,
            None => 0,
        }
    } else {
        0
    }
}

/// The total and idle jiffies of the `cpu` line of `/proc/stat`: idle is idle plus iowait;
/// the total adds user, nice, system, irq, softirq and steal. The first four counters must
/// be present and numeric; the others read as 0 when missing. Sums wrap at 2^64, as the
/// release build's arithmetic does.
pub open spec fn spec_parse_cpu_line(line: Seq<char>) -> Option<(u64, u64)> {
    let f = words(line);
    if f.len() < 5 || spec_parse_u64(f[1]) is None || spec_parse_u64(f[2]) is None || spec_parse_u64(f[3]) is None
        || spec_parse_u64(f[4]) is None {
        None
    } else {
        let user = spec_parse_u64(f[1]).unwrap();
        let nice = spec_parse_u64(f[2]).unwrap();
        let system = spec_parse_u64(f[3]).unwrap();
        let idle = spec_parse_u64(f[4]).unwrap();
        let idle_total = (idle + field_or_zero(f, 5)) % 0x1_0000_0000_0000_0000;
        let non_idle = (user + nice + system + field_or_zero(f, 6) + field_or_zero(f, 7) + field_or_zero(f, 8))
            % 0x1_0000_0000_0000_0000;
        Some((((idle_total + non_idle) % 0x1_0000_0000_0000_0000) as u64, idle_total as u64))
    }
}

fn field_value(fields: &Vec<Vec<char>>, i: usize) -> (v: u64)
    ensures
        v == field_or_zero(char_views(fields@), i as int),
{
    if i < fields.len() {
        match parse_u64(fields[i].as_slice()) {
            Some(v) => v,
            None => 0,
        }
    } else {
        0
    }
}

proof fn lemma_wrap_step(a: int, b: int)
    requires
        0 <= a,
        0 <= b < 0x1_0000_0000_0000_0000,
    ensures
        (a % 0x1_0000_0000_0000_0000 + b) % 0x1_0000_0000_0000_0000 == (a + b) % 0x1_0000_0000_0000_0000,
{
    let m: int = 0x1_0000_0000_0000_0000;
    vstd::arithmetic::div_mod::lemma_add_mod_noop(a, b, m);
    vstd::arithmetic::div_mod::lemma_small_mod(b as nat, m as nat);
    vstd::arithmetic::div_mod::lemma_mod_bound(a, m);
    vstd::arithmetic::div_mod::lemma_add_mod_noop(a % m, b, m);
    vstd::arithmetic::div_mod::lemma_mod_twice(a, m);
}

fn add_wrapping(a: u64, b: u64) -> (sum: u64)
    ensures
        sum == (a + b) % 0x1_0000_0000_0000_0000,
{
    a.wrapping_add(b)
}

pub fn parse_cpu_line(line: &str) -> (counters: Option<(u64, u64)>)
    ensures
        counters == spec_parse_cpu_line(line@),
{
    let chars = chars_of(line);
    let parts = split_whitespace(chars.as_slice());
    let ghost f = char_views(parts@);
    if parts.len() < 5 {
        return None;
    }
    let user = match parse_u64(parts[1].as_slice()) {
        Some(v) => v,
        None => {
            return None;
        },
    };
    let nice = match parse_u64(parts[2].as_slice()) {
        Some(v) => v,
        None => {
            return None;
        },
    };
    let system = match parse_u64(parts[3].as_slice()) {
        Some(v) => v,
        None => {
            return None;
        },
    };
    let idle = match parse_u64(parts[4].as_slice()) {
        Some(v) => v,
        None => {
            return None;
        },
    };
    let iowait = field_value(&parts, 5);
    let irq = field_value(&parts, 6);
    let softirq = field_value(&parts, 7);
    let steal = field_value(&parts, 8);
    let idle_total = add_wrapping(idle, iowait);
    let non_idle = add_wrapping(add_wrapping(add_wrapping(add_wrapping(add_wrapping(user, nice), system), irq), softirq), steal);
    let total = add_wrapping(idle_total, non_idle);
    proof {
        let m: int = 0x1_0000_0000_0000_0000;
        lemma_wrap_step(user + nice, system as int);
        lemma_wrap_step(user + nice + system, irq as int);
        lemma_wrap_step(user + nice + system + irq, softirq as int);
        lemma_wrap_step(user + nice + system + irq + softirq, steal as int);
    }
    Some((total, idle_total))
}

/// The received and sent byte counters of a `/proc/net/dev` interface line: with colons
/// read as spaces, the second and tenth fields (0 when not numeric); no counters for a
/// header line (one with `|`) or a line of fewer than ten fields.
pub open spec fn spec_parse_net_counters(line: Seq<char>) -> Option<(u64, u64)> {
    let f = words(line.map_values(|c: char| if c == ':' { ' ' } else { c }));
    if line.contains('|') || f.len() < 10 {
        None
    } else {
        Some((field_or_zero(f, 1), field_or_zero(f, 9)))
    }
}

pub fn parse_net_counters(line: &str) -> (counters: Option<(u64, u64)>)
    ensures
        counters == spec_parse_net_counters(line@),
{
    let chars = chars_of(line);
    let mut cleaned: Vec<char> = Vec::new();
    let mut i: usize = 0;
    let mut has_bar = false;
    while i < chars.len()
        invariant
            i <= chars@.len(),
            chars@ == line@,
            cleaned@ == chars@.take(i as int).map_values(|c: char| if c == ':' { ' ' } else { c }),
            has_bar == exists|k: int| 0 <= k < i && #[trigger] chars@[k] == '|',
        decreases chars@.len() - i,
    {
        let c = chars[i];
        cleaned.push(if c == ':' { ' ' } else { c });
        if c == '|' {
            has_bar = true;
        }
        i += 1;
        assert(cleaned@ =~= chars@.take(i as int).map_values(|c: char| if c == ':' { ' ' } else { c }));
        assert(chars@[i - 1] == c);
    }
    assert(chars@.take(chars@.len() as int) =~= chars@);
    if has_bar {
        return None;
    }
    let parts = split_whitespace(cleaned.as_slice());
    if parts.len() < 10 {
        return None;
    }
    Some((field_value(&parts, 1), field_value(&parts, 9)))
}


/// Which block of the stats command's output a line belongs to.
#[derive(Clone, Copy, Debug, PartialEq, Eq, Structural)]
pub enum StatsSection {
    Other,
    Cpu,
    Mem,
    Disk,
    Net,
}

/// The block a marker line (one that begins with `>>>`) opens.
pub open spec fn section_for(marker: Seq<char>) -> StatsSection {
    if marker == ">>>CPU"@ {
        StatsSection::Cpu
    } else if marker == ">>>MEM"@ {
        StatsSection::Mem
    } else if marker == ">>>DISK"@ {
        StatsSection::Disk
    } else if marker == ">>>NET"@ {
        StatsSection::Net
    } else {
        StatsSection::Other
    }
}

/// Whether `t` begins with `prefix`.
pub open spec fn begins(t: Seq<char>, prefix: Seq<char>) -> bool {
    prefix.len() <= t.len() && t.subrange(0, prefix.len() as int) == prefix
}

/// The second whitespace-separated field of a line, if it has one.
pub open spec fn second_word(t: Seq<char>) -> Option<Seq<char>> {
    if words(t).len() > 1 {
        Some(words(t)[1])
    } else {
        None
    }
}

/// A new value when there is one, else the old.
pub open spec fn newer(old: Option<Seq<char>>, new: Option<Seq<char>>) -> Option<Seq<char>> {
    match new {
        Some(v) => Some(v),
        None => old,
    }
}

/// What the output of the stats command gives, before any figure is turned into a
/// percentage: the block being read, the CPU counters, the texts of the memory figures and
/// of the disk use (with `%` removed), and the network byte counters summed over the
/// interfaces (wrapping at 2^64).
pub struct StatsFieldsView {
    pub section: StatsSection,
    pub cpu_total: u64,
    pub cpu_idle: u64,
    pub mem_total: Option<Seq<char>>,
    pub mem_available: Option<Seq<char>>,
    pub mem_free: Option<Seq<char>>,
    pub buffers: Option<Seq<char>>,
    pub cached: Option<Seq<char>>,
    pub disk_use: Option<Seq<char>>,
    pub net_rx: u64,
    pub net_tx: u64,
}

/// The fields gathered from the stats command's output.
pub struct StatsFields {
    pub section: StatsSection,
    pub cpu_total: u64,
    pub cpu_idle: u64,
    pub mem_total: Option<String>,
    pub mem_available: Option<String>,
    pub mem_free: Option<String>,
    pub buffers: Option<String>,
    pub cached: Option<String>,
    pub disk_use: Option<String>,
    pub net_rx: u64,
    pub net_tx: u64,
}

impl View for StatsFields {
    type V = StatsFieldsView;

    open spec fn view(&self) -> StatsFieldsView {
        StatsFieldsView {
            section: self.section,
            cpu_total: self.cpu_total,
            cpu_idle: self.cpu_idle,
            mem_total: opt_view(self.mem_total),
            mem_available: opt_view(self.mem_available),
            mem_free: opt_view(self.mem_free),
            buffers: opt_view(self.buffers),
            cached: opt_view(self.cached),
            disk_use: opt_view(self.disk_use),
            net_rx: self.net_rx,
            net_tx: self.net_tx,
        }
    }
}

/// Nothing read yet.
pub open spec fn stats_start() -> StatsFieldsView {
    StatsFieldsView {
        section: StatsSection::Other,
        cpu_total: 0,
        cpu_idle: 0,
        mem_total: None,
        mem_available: None,
        mem_free: None,
        buffers: None,
        cached: None,
        disk_use: None,
        net_rx: 0,
        net_tx: 0,
    }
}

pub open spec fn not_percent(c: char) -> bool {
    c != '%'
}

/// What one line of output changes, read with surrounding whitespace trimmed: a marker
/// line opens a block; a blank line changes nothing; in the CPU block a `cpu ` line sets
/// the counters; in the memory block the five named lines set their figure's text; in the
/// disk block a line other than the header with at least five fields sets the disk use;
/// in the network block an interface line adds its counters.
pub open spec fn spec_stats_step(s: StatsFieldsView, raw: Seq<char>) -> StatsFieldsView {
    let t = trim(raw);
    if begins(t, ">>>"@) {
        StatsFieldsView { section: section_for(t), ..s }
    } else if t.len() == 0 {
        s
    } else {
        match s.section {
            StatsSection::Cpu => if begins(t, "cpu "@) {
                match spec_parse_cpu_line(t) {
                    Some((total, idle)) => StatsFieldsView { cpu_total: total, cpu_idle: idle, ..s },
                    None => s,
                }
            } else {
                s
            },
            StatsSection::Mem => if begins(t, "MemTotal:"@) {
                StatsFieldsView { mem_total: newer(s.mem_total, second_word(t)), ..s }
            } else if begins(t, "MemAvailable:"@) {
                StatsFieldsView { mem_available: newer(s.mem_available, second_word(t)), ..s }
            } else if begins(t, "MemFree:"@) {
                StatsFieldsView { mem_free: newer(s.mem_free, second_word(t)), ..s }
            } else if begins(t, "Buffers:"@) {
                StatsFieldsView { buffers: newer(s.buffers, second_word(t)), ..s }
            } else if begins(t, "Cached:"@) {
                StatsFieldsView { cached: newer(s.cached, second_word(t)), ..s }
            } else {
                s
            },
            StatsSection::Disk => if !begins(t, "Filesystem"@) && !begins(t, "Use%"@) && words(t).len() >= 5 {
                StatsFieldsView { disk_use: Some(words(t)[4].filter(|c: char| not_percent(c))), ..s }
            } else {
                s
            },
            StatsSection::Net => match spec_parse_net_counters(t) {
                Some((rx, tx)) => StatsFieldsView {
                    net_rx: ((s.net_rx + rx) % 0x1_0000_0000_0000_0000) as u64,
                    net_tx: ((s.net_tx + tx) % 0x1_0000_0000_0000_0000) as u64,
                    ..s
                },
                None => s,
            },
            StatsSection::Other => s,
        }
    }
}

/// The fields after reading the lines in order.
pub open spec fn spec_stats_scan(lines: Seq<Seq<char>>) -> StatsFieldsView
    decreases lines.len(),
{
    if lines.len() == 0 {
        stats_start()
    } else {
        spec_stats_step(spec_stats_scan(lines.drop_last()), lines.last())
    }
}

fn without_percent(w: &[char]) -> (out: Vec<char>)
    ensures
        out@ == w@.filter(|c: char| not_percent(c)),
{
    let mut out: Vec<char> = Vec::new();
    let mut i: usize = 0;
    while i < w.len()
        invariant
            i <= w@.len(),
            out@ == w@.take(i as int).filter(|c: char| not_percent(c)),
        decreases w@.len() - i,
    {
        proof {
            assert(w@.take(i + 1) =~= w@.take(i as int).push(w@[i as int]));
            w@.take(i as int).lemma_filter_push(w@[i as int], |c: char| not_percent(c));
        }
        if w[i] != '%' {
            out.push(w[i]);
        }
        i += 1;
    }
    assert(w@.take(w@.len() as int) =~= w@);
    out
}

fn second_field(fields: &Vec<Vec<char>>) -> (out: Option<String>)
    ensures
        opt_view(out) == if char_views(fields@).len() > 1 {
            Some(char_views(fields@)[1])
        } else {
            None::<Seq<char>>
        },
{
    if fields.len() > 1 {
        Some(string_of(fields[1].as_slice()))
    } else {
        None
    }
}

fn newer_text(old: Option<String>, new: Option<String>) -> (out: Option<String>)
    ensures
        opt_view(out) == newer(opt_view(old), opt_view(new)),
{
    match new {
        Some(v) => Some(v),
        None => old,
    }
}

impl StatsFields {
    pub fn new() -> (fields: Self)
        ensures
            fields@ == stats_start(),
    {
        StatsFields {
            section: StatsSection::Other,
            cpu_total: 0,
            cpu_idle: 0,
            mem_total: None,
            mem_available: None,
            mem_free: None,
            buffers: None,
            cached: None,
            disk_use: None,
            net_rx: 0,
            net_tx: 0,
        }
    }

    /// Reads one line of output (see `spec_stats_step`).
    pub fn read_line(&mut self, raw: &[char])
        ensures
            final(self)@ == spec_stats_step(old(self)@, raw@),
    {
        let t = trim_chars(raw);
        if starts_with_str(t.as_slice(), ">>>") {
            self.section = if chars_eq_str(t.as_slice(), ">>>CPU") {
                StatsSection::Cpu
            } else if chars_eq_str(t.as_slice(), ">>>MEM") {
                StatsSection::Mem
            } else if chars_eq_str(t.as_slice(), ">>>DISK") {
                StatsSection::Disk
            } else if chars_eq_str(t.as_slice(), ">>>NET") {
                StatsSection::Net
            } else {
                StatsSection::Other
            };
            return;
        }
        if t.len() == 0 {
            return;
        }
        let line = string_of(t.as_slice());
        match self.section {
            StatsSection::Cpu => {
                if starts_with_str(t.as_slice(), "cpu ") {
                    if let Some((total, idle)) = parse_cpu_line(line.as_str()) {
                        self.cpu_total = total;
                        self.cpu_idle = idle;
                    }
                }
            },
            StatsSection::Mem => {
                let fields = split_whitespace(t.as_slice());
                if starts_with_str(t.as_slice(), "MemTotal:") {
                    let old = self.mem_total.take();
                    self.mem_total = newer_text(old, second_field(&fields));
                } else if starts_with_str(t.as_slice(), "MemAvailable:") {
                    let old = self.mem_available.take();
                    self.mem_available = newer_text(old, second_field(&fields));
                } else if starts_with_str(t.as_slice(), "MemFree:") {
                    let old = self.mem_free.take();
                    self.mem_free = newer_text(old, second_field(&fields));
                } else if starts_with_str(t.as_slice(), "Buffers:") {
                    let old = self.buffers.take();
                    self.buffers = newer_text(old, second_field(&fields));
                } else if starts_with_str(t.as_slice(), "Cached:") {
                    let old = self.cached.take();
                    self.cached = newer_text(old, second_field(&fields));
                }
            },
            StatsSection::Disk => {
                if !starts_with_str(t.as_slice(), "Filesystem") && !starts_with_str(t.as_slice(), "Use%") {
                    let fields = split_whitespace(t.as_slice());
                    if fields.len() >= 5 {
                        assert(char_views(fields@)[4] == fields@[4]@);
                        self.disk_use = Some(string_of(without_percent(fields[4].as_slice()).as_slice()));
                    }
                }
            },
            StatsSection::Net => {
                if let Some((rx, tx)) = parse_net_counters(line.as_str()) {
                    self.net_rx = add_wrapping(self.net_rx, rx);
                    self.net_tx = add_wrapping(self.net_tx, tx);
                }
            },
            StatsSection::Other => {},
        }
    }
}

/// Gathers the fields of the stats command's output, line by line.
pub fn scan_stats_output(output: &str) -> (fields: StatsFields)
    ensures
        fields@ == spec_stats_scan(text_lines(output@)),
{
    let lines = lines_of(output);
    let ghost all = text_lines(output@);
    let mut fields = StatsFields::new();
    let mut i: usize = 0;
    while i < lines.len()
        invariant
            i <= lines@.len(),
            piece_views(lines@) == all,
            fields@ == spec_stats_scan(all.take(i as int)),
        decreases lines@.len() - i,
    {
        assert(all[i as int] == lines@[i as int]@);
        assert(all.take(i + 1).drop_last() =~= all.take(i as int));
        fields.read_line(lines[i].as_slice());
        i += 1;
    }
    assert(all.take(lines@.len() as int) =~= all);
    fields
}
} // verus!
