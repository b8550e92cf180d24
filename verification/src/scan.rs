//! Cutting text apart: trimming both ends, splitting at a separator, and
//! splitting into lines.

use vstd::prelude::*;
use crate::chars::{is_white, is_white_space};
use crate::seqs::views;

verus! {

/// What a trim removes from the two ends of a text.
#[derive(Clone, Copy, Debug)]
pub enum Trim {
    /// Every `|`.
    Pipes,
    /// Every white space character.
    WhiteSpace,
}

impl Trim {
    /// Whether this trim removes `c`.
    pub open spec fn cuts(self, c: char) -> bool {
        match self {
            Trim::Pipes => c == '|',
            Trim::WhiteSpace => is_white_space(c),
        }
    }

    /// Tells whether this trim removes `c`.
    pub fn removes(self, c: char) -> (cut: bool)
        ensures
            cut == self.cuts(c),
    {
        match self {
            Trim::Pipes => c == '|',
            Trim::WhiteSpace => is_white(c),
        }
    }
}

/// `s` without its longest prefix of characters that `trim` removes.
pub open spec fn strip_start(s: Seq<char>, trim: Trim) -> Seq<char>
    decreases s.len(),
{
    if s.len() > 0 && trim.cuts(s.first()) {
        strip_start(s.drop_first(), trim)
    } else {
        s
    }
}

/// `s` without its longest suffix of characters that `trim` removes.
pub open spec fn strip_end(s: Seq<char>, trim: Trim) -> Seq<char>
    decreases s.len(),
{
    if s.len() > 0 && trim.cuts(s.last()) {
        strip_end(s.drop_last(), trim)
    } else {
        s
    }
}

/// `s` trimmed at both ends.
pub open spec fn stripped(s: Seq<char>, trim: Trim) -> Seq<char> {
    strip_end(strip_start(s, trim), trim)
}

/// The pieces into which the occurrences of `sep` cut `s`: one more piece
/// than there are occurrences, each free of `sep`, empty pieces included.
pub open spec fn pieces(s: Seq<char>, sep: char) -> Seq<Seq<char>>
    decreases s.len(),
{
    if s.len() == 0 {
        seq![Seq::empty()]
    } else {
        let before = pieces(s.drop_last(), sep);
        if s.last() == sep {
            before.push(Seq::empty())
        } else {
            before.drop_last().push(before.last().push(s.last()))
        }
    }
}

/// The pieces put together again, with `sep` between neighbours.
pub open spec fn joined(parts: Seq<Seq<char>>, sep: char) -> Seq<char>
    decreases parts.len(),
{
    if parts.len() == 0 {
        Seq::empty()
    } else if parts.len() == 1 {
        parts.first()
    } else {
        joined(parts.drop_last(), sep).push(sep) + parts.last()
    }
}

/// `s` without one carriage return at its end, if it ends in one.
pub open spec fn without_carriage_return(s: Seq<char>) -> Seq<char> {
    if s.len() > 0 && s.last() == '\r' {
        s.drop_last()
    } else {
        s
    }
}

/// The lines written one after the other, a line feed after each.
pub open spec fn unlines(lines: Seq<Seq<char>>) -> Seq<char>
    decreases lines.len(),
{
    if lines.len() == 0 {
        Seq::empty()
    } else {
        unlines(lines.drop_last()) + lines.last().push('\n')
    }
}

/// Whether `c` occurs nowhere in `s`.
pub open spec fn free_of(s: Seq<char>, c: char) -> bool {
    forall|i: int| 0 <= i < s.len() ==> s[i] != c
}

/// Whether a trim would leave `s` as it is: `s` is empty, or `trim` removes
/// neither its first nor its last character.
pub open spec fn is_trimmed(s: Seq<char>, trim: Trim) -> bool {
    s.len() > 0 ==> !trim.cuts(s.first()) && !trim.cuts(s.last())
}

/// Whether `trim` removes every character of `s`.
pub open spec fn all_cut(s: Seq<char>, trim: Trim) -> bool {
    forall|i: int| 0 <= i < s.len() ==> trim.cuts(#[trigger] s[i])
}

/// The lines of a text. A line ends at a line feed, or at the end of the
/// text; the line feed, and a carriage return just before it, belong to no
/// line. What follows the last line feed is a line of its own unless it is
/// empty; such a last line keeps a carriage return at its end.
pub open spec fn lines_of(text: Seq<char>) -> Seq<Seq<char>> {
    let parts = pieces(text, '\n');
    let ended = parts.drop_last().map_values(|part: Seq<char>| without_carriage_return(part));
    if parts.last().len() == 0 {
        ended
    } else {
        ended.push(parts.last())
    }
}

/// Copies the characters of `s` from index `from` up to, not including, `to`.
fn copy_range(s: &Vec<char>, from: usize, to: usize) -> (copy: Vec<char>)
    requires
        from <= to <= s.len(),
    ensures
        copy@ == s@.subrange(from as int, to as int),
{
    let mut copy: Vec<char> = Vec::new();
    let mut i: usize = from;
    while i < to
        invariant
            from <= i <= to <= s.len(),
            copy@ == s@.subrange(from as int, i as int),
        decreases to - i,
    {
        copy.push(s[i]);
        i += 1;
    }
    copy
}

/// Trims `s` at both ends.
pub fn strip(s: &Vec<char>, trim: Trim) -> (kept: Vec<char>)
    ensures
        kept@ == stripped(s@, trim),
{
    let mut start: usize = 0;
    assert(s@.skip(0) == s@);
    while start < s.len() && trim.removes(s[start])
        invariant
            start <= s.len(),
            strip_start(s@, trim) == strip_start(s@.skip(start as int), trim),
        decreases s.len() - start,
    {
        assert(s@.skip(start as int).drop_first() == s@.skip(start as int + 1));
        start += 1;
    }
    assert(strip_start(s@, trim) == s@.skip(start as int));
    let mut end: usize = s.len();
    while end > start && trim.removes(s[end - 1])
        invariant
            start <= end <= s.len(),
            stripped(s@, trim) == strip_end(s@.subrange(start as int, end as int), trim),
        decreases end,
    {
        assert(s@.subrange(start as int, end as int).drop_last() == s@.subrange(
            start as int,
            end as int - 1,
        ));
        end -= 1;
    }
    copy_range(s, start, end)
}

/// Splits `s` at every occurrence of `sep`.
pub fn split(s: &Vec<char>, sep: char) -> (parts: Vec<Vec<char>>)
    ensures
        views(parts@) == pieces(s@, sep),
{
    let mut parts: Vec<Vec<char>> = Vec::new();
    let mut current: Vec<char> = Vec::new();
    let mut i: usize = 0;
    while i < s.len()
        invariant
            i <= s.len(),
            views(parts@).push(current@) == pieces(s@.take(i as int), sep),
        decreases s.len() - i,
    {
        let ghost before = pieces(s@.take(i as int), sep);
        assert(s@.take(i as int + 1).drop_last() == s@.take(i as int));
        if s[i] == sep {
            parts.push(current);
            current = Vec::new();
            assert(views(parts@) == before);
        } else {
            current.push(s[i]);
            assert(views(parts@) == before.drop_last());
        }
        i += 1;
    }
    assert(s@.take(i as int) == s@);
    parts.push(current);
    parts
}

/// Splits a text into its lines.
pub fn split_lines(text: &Vec<char>) -> (lines: Vec<Vec<char>>)
    ensures
        views(lines@) == lines_of(text@),
{
    let mut lines: Vec<Vec<char>> = Vec::new();
    let mut current: Vec<char> = Vec::new();
    let mut i: usize = 0;
    while i < text.len()
        invariant
            i <= text.len(),
            pieces(text@.take(i as int), '\n').len() == lines@.len() + 1,
            forall|j: int|
                0 <= j < lines@.len() ==> (#[trigger] lines@[j])@ == without_carriage_return(
                    pieces(text@.take(i as int), '\n')[j],
                ),
            current@ == pieces(text@.take(i as int), '\n').last(),
        decreases text.len() - i,
    {
        assert(text@.take(i as int + 1).drop_last() == text@.take(i as int));
        if text[i] == '\n' {
            let n = current.len();
            if n > 0 && current[n - 1] == '\r' {
                current.pop();
            }
            lines.push(current);
            current = Vec::new();
        } else {
            current.push(text[i]);
        }
        i += 1;
    }
    assert(text@.take(i as int) == text@);
    assert(views(lines@) == pieces(text@, '\n').drop_last().map_values(
        |part: Seq<char>| without_carriage_return(part),
    ));
    if current.len() > 0 {
        lines.push(current);
    }
    lines
}

} // verus!
