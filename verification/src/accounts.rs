use vstd::prelude::*;

use std::collections::HashMap;

use crate::remote_monitor::{parse_u64, spec_parse_u64};
use crate::text::{chars_of, string_of};

verus! {

/// `s` cut at every `sep`, as `str::split` cuts it: one piece more than there are
/// separators, empty pieces included.
pub open spec fn split_on(s: Seq<char>, sep: char) -> Seq<Seq<char>>
    decreases s.len(),
{
    if s.len() == 0 {
        seq![Seq::<char>::empty()]
    } else {
        let rest = split_on(s.drop_last(), sep);
        if s.last() == sep {
            rest.push(Seq::<char>::empty())
        } else {
            rest.update(rest.len() - 1, rest.last().push(s.last()))
        }
    }
}

pub proof fn lemma_split_on_nonempty(s: Seq<char>, sep: char)
    ensures
        split_on(s, sep).len() >= 1,
    decreases s.len(),
{
    if s.len() > 0 {
        lemma_split_on_nonempty(s.drop_last(), sep);
    }
}

pub open spec fn strip_cr(line: Seq<char>) -> Seq<char> {
    if line.len() > 0 && line.last() == '\r' {
        line.drop_last()
    } else {
        line
    }
}

/// The lines of a text as `str::lines` gives them: cut at each line feed, a carriage
/// return before a line feed dropped, and no empty line after a final line feed.
pub open spec fn text_lines(s: Seq<char>) -> Seq<Seq<char>> {
    let p = split_on(s, '\n');
    let ended = Seq::new((p.len() - 1) as nat, |i: int| strip_cr(p[i]));
    if p.last().len() > 0 {
        ended.push(p.last())
    } else {
        ended
    }
}

/// What `str::parse::<u32>` gives.
pub open spec fn spec_parse_u32(s: Seq<char>) -> Option<u32> {
    match spec_parse_u64(s) {
        Some(v) => if v <= u32::MAX {
            Some(v as u32)
        } else {
            None
        },
        None => None,
    }
}

/// The id and name a line of `/etc/passwd` or `/etc/group` gives: the first field names
/// the third, a number; blank lines and comments give none.
pub open spec fn account_entry(line: Seq<char>) -> Option<(u32, Seq<char>)> {
    let parts = split_on(line, ':');
    if line.len() == 0 || line[0] == '#' || parts.len() < 3 {
        None
    } else {
        match spec_parse_u32(parts[2]) {
            Some(id) => Some((id, parts[0])),
            None => None,
        }
    }
}

/// Names by id over the lines, a later line winning over an earlier one with the same id.
pub open spec fn account_names(lines: Seq<Seq<char>>) -> Map<u32, Seq<char>>
    decreases lines.len(),
{
    if lines.len() == 0 {
        Map::empty()
    } else {
        let names = account_names(lines.drop_last());
        match account_entry(lines.last()) {
            Some((id, name)) => names.insert(id, name),
            None => names,
        }
    }
}

pub open spec fn piece_views(pieces: Seq<Vec<char>>) -> Seq<Seq<char>> {
    pieces.map_values(|v: Vec<char>| v@)
}

pub open spec fn piece_views_of_strings(pieces: Seq<String>) -> Seq<Seq<char>> {
    pieces.map_values(|v: String| v@)
}

/// `s` cut at every `sep`.
pub fn split_chars(s: &[char], sep: char) -> (pieces: Vec<Vec<char>>)
    ensures
        piece_views(pieces@) == split_on(s@, sep),
{
    let mut pieces: Vec<Vec<char>> = Vec::new();
    pieces.push(Vec::new());
    let mut i: usize = 0;
    assert(s@.take(0) =~= Seq::<char>::empty());
    assert(piece_views(pieces@) =~= split_on(s@.take(0), sep));
    while i < s.len()
        invariant
            i <= s@.len(),
            pieces@.len() > 0,
            piece_views(pieces@) == split_on(s@.take(i as int), sep),
        decreases s@.len() - i,
    {
        let c = s[i];
        let ghost before = piece_views(pieces@);
        assert(s@.take(i + 1).drop_last() =~= s@.take(i as int));
        if c == sep {
            pieces.push(Vec::new());
            assert(piece_views(pieces@) =~= before.push(Seq::<char>::empty()));
        } else {
            let mut last = pieces.pop().unwrap();
            last.push(c);
            pieces.push(last);
            assert(piece_views(pieces@) =~= before.update(before.len() - 1, before.last().push(c)));
        }
        i += 1;
    }
    assert(s@.take(s@.len() as int) =~= s@);
    pieces
}

fn parse_u32(s: &[char]) -> (value: Option<u32>)
    ensures
        value == spec_parse_u32(s@),
{
    match parse_u64(s) {
        Some(v) => if v <= 4294967295 {
            Some(v as u32)
        } else {
            None
        },
        None => None,
    }
}

fn line_entry(line: &[char]) -> (entry: Option<(u32, String)>)
    ensures
        match entry {
            Some((id, name)) => account_entry(line@) == Some((id, name@)),
            None => account_entry(line@) is None,
        },
{
    if line.len() == 0 || line[0] == '#' {
        return None;
    }
    let parts = split_chars(line, ':');
    if parts.len() < 3 {
        return None;
    }
    assert(piece_views(parts@)[2] == parts@[2]@);
    assert(piece_views(parts@)[0] == parts@[0]@);
    match parse_u32(parts[2].as_slice()) {
        Some(id) => Some((id, string_of(parts[0].as_slice()))),
        None => None,
    }
}

/// The lines of a text, as `str::lines` gives them.
pub fn lines_of(contents: &str) -> (lines: Vec<Vec<char>>)
    ensures
        piece_views(lines@) == text_lines(contents@),
{
    let chars = chars_of(contents);
    let pieces = split_chars(chars.as_slice(), '\n');
    let ghost p = piece_views(pieces@);
    let ghost spec_lines = text_lines(contents@);
    proof {
        lemma_split_on_nonempty(contents@, '\n');
        assert(p.len() == pieces@.len());
    }
    let last_len = pieces[pieces.len() - 1].len();
    let count: usize = if last_len > 0 {
        pieces.len()
    } else {
        pieces.len() - 1
    };
    assert(p.last() == pieces@[pieces@.len() - 1]@);
    assert(spec_lines.len() == count);
    let mut lines: Vec<Vec<char>> = Vec::new();
    let mut i: usize = 0;
    while i < count
        invariant
            i <= count,
            count == spec_lines.len(),
            count <= pieces@.len(),
            p == piece_views(pieces@),
            p == split_on(contents@, '\n'),
            spec_lines == text_lines(contents@),
            piece_views(lines@) == spec_lines.take(i as int),
        decreases count - i,
    {
        let piece = &pieces[i];
        assert(p[i as int] == piece@);
        let mut end = piece.len();
        if i + 1 < pieces.len() && end > 0 && piece[end - 1] == '\r' {
            end -= 1;
        }
        let line = crate::text::copy_chars(piece.as_slice(), 0, end);
        assert(line@ == spec_lines[i as int]) by {
            if i + 1 < pieces@.len() {
                assert(spec_lines[i as int] == strip_cr(p[i as int]));
                if end < piece@.len() {
                    assert(line@ =~= piece@.drop_last());
                } else {
                    assert(line@ =~= piece@);
                }
            } else {
                assert(line@ =~= piece@);
            }
        }
        let ghost before = lines@;
        lines.push(line);
        assert(piece_views(lines@) =~= piece_views(before).push(spec_lines[i as int]));
        assert(spec_lines.take(i + 1) =~= spec_lines.take(i as int).push(spec_lines[i as int]));
        i += 1;
    }
    assert(spec_lines.take(count as int) =~= spec_lines);
    lines
}

/// The names by id that the text of `/etc/passwd` or `/etc/group` gives.
pub fn parse_account_names(contents: &str) -> (names: HashMap<u32, String>)
    ensures
        forall|id: u32| #[trigger]
            names@.contains_key(id) == account_names(text_lines(contents@)).contains_key(id),
        forall|id: u32| #[trigger]
            names@.contains_key(id) ==> names@[id]@ == account_names(text_lines(contents@))[id],
{
    broadcast use vstd::std_specs::hash::group_hash_axioms;

    let chars = chars_of(contents);
    let pieces = split_chars(chars.as_slice(), '\n');
    let ghost p = piece_views(pieces@);
    let ghost lines = text_lines(contents@);
    proof {
        lemma_split_on_nonempty(contents@, '\n');
        assert(p.len() == pieces@.len());
    }
    let last_len = pieces[pieces.len() - 1].len();
    let count: usize = if last_len > 0 {
        pieces.len()
    } else {
        pieces.len() - 1
    };
    assert(p.last() == pieces@[pieces@.len() - 1]@);
    assert(lines.len() == count);
    let mut names: HashMap<u32, String> = HashMap::new();
    let mut i: usize = 0;
    while i < count
        invariant
            i <= count,
            count == lines.len(),
            count <= pieces@.len(),
            p == piece_views(pieces@),
            p == split_on(contents@, '\n'),
            lines == text_lines(contents@),
            forall|id: u32| #[trigger]
                names@.contains_key(id) == account_names(lines.take(i as int)).contains_key(id),
            forall|id: u32| #[trigger]
                names@.contains_key(id) ==> names@[id]@ == account_names(lines.take(i as int))[id],
        decreases count - i,
    {
        let piece = &pieces[i];
        assert(p[i as int] == piece@);
        let mut end = piece.len();
        if i + 1 < pieces.len() && end > 0 && piece[end - 1] == '\r' {
            end -= 1;
        }
        let line = crate::text::copy_chars(piece.as_slice(), 0, end);
        assert(line@ == lines[i as int]) by {
            if i + 1 < pieces@.len() {
                assert(lines[i as int] == strip_cr(p[i as int]));
                if end < piece@.len() {
                    assert(line@ =~= piece@.drop_last());
                } else {
                    assert(line@ =~= piece@);
                }
            } else {
                assert(line@ =~= piece@);
            }
        }
        assert(lines.take(i + 1).drop_last() =~= lines.take(i as int));
        assert(lines.take(i + 1).last() == lines[i as int]);
        match line_entry(line.as_slice()) {
            Some((id, name)) => {
                names.insert(id, name);
            },
            None => {},
        }
        i += 1;
    }
    assert(lines.take(count as int) =~= lines);
    names
}

} // verus!
