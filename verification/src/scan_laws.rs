//! What holds of trimming, splitting and joining, and of lines.

use vstd::prelude::*;
use crate::scan::{
    all_cut, free_of, is_trimmed, joined, lines_of, pieces, strip_end, strip_start, stripped,
    unlines, without_carriage_return, Trim,
};

verus! {

/// Cutting never yields nothing: there is at least one piece.
pub proof fn lemma_pieces_nonempty(s: Seq<char>, sep: char)
    ensures
        pieces(s, sep).len() >= 1,
    decreases s.len(),
{
    if s.len() > 0 {
        lemma_pieces_nonempty(s.drop_last(), sep);
    }
}

/// One more character either opens a new piece or lengthens the last one.
pub proof fn lemma_pieces_push(s: Seq<char>, sep: char, c: char)
    ensures
        pieces(s.push(c), sep) == if c == sep {
            pieces(s, sep).push(Seq::empty())
        } else {
            pieces(s, sep).drop_last().push(pieces(s, sep).last().push(c))
        },
{
    assert(s.push(c).drop_last() == s);
}

/// A text without the separator, put behind another, lengthens its last
/// piece.
pub proof fn lemma_pieces_append(s: Seq<char>, t: Seq<char>, sep: char)
    requires
        free_of(t, sep),
    ensures
        pieces(s + t, sep) == pieces(s, sep).drop_last().push(pieces(s, sep).last() + t),
    decreases t.len(),
{
    let parts = pieces(s, sep);
    lemma_pieces_nonempty(s, sep);
    if t.len() == 0 {
        assert(s + t == s);
        assert(parts.last() + t == parts.last());
        assert(parts.drop_last().push(parts.last()) == parts);
    } else {
        let shorter = t.drop_last();
        lemma_pieces_append(s, shorter, sep);
        assert(s + t == (s + shorter).push(t.last()));
        lemma_pieces_push(s + shorter, sep, t.last());
        let grown = parts.drop_last().push(parts.last() + shorter);
        assert(grown.drop_last() == parts.drop_last());
        assert((parts.last() + shorter).push(t.last()) == parts.last() + t);
    }
}

/// No piece holds the separator.
pub proof fn lemma_pieces_free(s: Seq<char>, sep: char)
    ensures
        forall|i: int| 0 <= i < pieces(s, sep).len() ==> free_of(#[trigger] pieces(s, sep)[i], sep),
    decreases s.len(),
{
    if s.len() > 0 {
        lemma_pieces_free(s.drop_last(), sep);
        lemma_pieces_nonempty(s.drop_last(), sep);
    }
}

/// A character that the text does not hold is in none of its pieces.
pub proof fn lemma_pieces_keep_free(s: Seq<char>, sep: char, c: char)
    requires
        free_of(s, c),
    ensures
        forall|i: int| 0 <= i < pieces(s, sep).len() ==> free_of(#[trigger] pieces(s, sep)[i], c),
    decreases s.len(),
{
    if s.len() > 0 {
        lemma_pieces_keep_free(s.drop_last(), sep, c);
        lemma_pieces_nonempty(s.drop_last(), sep);
    }
}

/// Cutting what was joined gives the pieces back, where there is at least
/// one and none of them holds the separator.
pub proof fn lemma_pieces_joined(parts: Seq<Seq<char>>, sep: char)
    requires
        parts.len() >= 1,
        forall|i: int| 0 <= i < parts.len() ==> free_of(#[trigger] parts[i], sep),
    ensures
        pieces(joined(parts, sep), sep) == parts,
    decreases parts.len(),
{
    let empty = Seq::<char>::empty();
    if parts.len() == 1 {
        lemma_pieces_append(empty, parts.first(), sep);
        assert(empty + parts.first() == parts.first());
        assert(pieces(empty, sep) == seq![empty]);
        assert(seq![empty].drop_last().push(empty + parts.first()) == parts);
    } else {
        let before = parts.drop_last();
        lemma_pieces_joined(before, sep);
        lemma_pieces_push(joined(before, sep), sep, sep);
        lemma_pieces_append(joined(before, sep).push(sep), parts.last(), sep);
        assert(before.push(empty).drop_last() == before);
        assert(empty + parts.last() == parts.last());
        assert(before.push(parts.last()) == parts);
    }
}

/// What is joined of texts that are not empty begins as the first of them
/// begins and ends as the last of them ends.
pub proof fn lemma_joined_ends(parts: Seq<Seq<char>>, sep: char)
    requires
        parts.len() >= 1,
        forall|i: int| 0 <= i < parts.len() ==> (#[trigger] parts[i]).len() > 0,
    ensures
        joined(parts, sep).len() > 0,
        joined(parts, sep).first() == parts.first().first(),
        joined(parts, sep).last() == parts.last().last(),
    decreases parts.len(),
{
    if parts.len() > 1 {
        let before = parts.drop_last();
        lemma_joined_ends(before, sep);
        assert(before.first() == parts.first());
        let whole = joined(before, sep).push(sep) + parts.last();
        assert(whole.first() == joined(before, sep).first());
        assert(whole.last() == parts.last().last());
    }
}

/// Where the trimming of the start stops: what is left is the text from
/// some index on, every character before that index is removed, and the
/// character at it, if there is one, is not.
pub proof fn lemma_strip_start(s: Seq<char>, trim: Trim) -> (k: int)
    ensures
        0 <= k <= s.len(),
        strip_start(s, trim) == s.skip(k),
        forall|j: int| 0 <= j < k ==> trim.cuts(#[trigger] s[j]),
        k < s.len() ==> !trim.cuts(s[k]),
    decreases s.len(),
{
    if s.len() > 0 && trim.cuts(s.first()) {
        let rest = s.drop_first();
        let k = lemma_strip_start(rest, trim);
        assert(rest.skip(k) == s.skip(k + 1));
        assert forall|j: int| 0 <= j < k + 1 implies trim.cuts(#[trigger] s[j]) by {
            if j > 0 {
                assert(rest[j - 1] == s[j]);
            }
        }
        if k + 1 < s.len() {
            assert(rest[k] == s[k + 1]);
        }
        k + 1
    } else {
        assert(s.skip(0) == s);
        0
    }
}

/// Where the trimming of the end stops: what is left is the text up to some
/// index, every character from that index on is removed, and the character
/// before it, if there is one, is not.
pub proof fn lemma_strip_end(s: Seq<char>, trim: Trim) -> (k: int)
    ensures
        0 <= k <= s.len(),
        strip_end(s, trim) == s.take(k),
        forall|j: int| k <= j < s.len() ==> trim.cuts(#[trigger] s[j]),
        k > 0 ==> !trim.cuts(s[k - 1]),
    decreases s.len(),
{
    if s.len() > 0 && trim.cuts(s.last()) {
        let rest = s.drop_last();
        let k = lemma_strip_end(rest, trim);
        assert(rest.take(k) == s.take(k));
        assert forall|j: int| k <= j < s.len() implies trim.cuts(#[trigger] s[j]) by {
            if j < s.len() - 1 {
                assert(rest[j] == s[j]);
            }
        }
        if k > 0 {
            assert(rest[k - 1] == s[k - 1]);
        }
        k
    } else {
        assert(s.take(s.len() as int) == s);
        s.len() as int
    }
}

/// What a trim leaves is a stretch of the text, and a second trim of the
/// same kind would leave it as it is.
pub proof fn lemma_stripped(s: Seq<char>, trim: Trim) -> (bounds: (int, int))
    ensures
        0 <= bounds.0 <= bounds.1 <= s.len(),
        stripped(s, trim) == s.subrange(bounds.0, bounds.1),
        is_trimmed(stripped(s, trim), trim),
{
    let from = lemma_strip_start(s, trim);
    let kept = lemma_strip_end(s.skip(from), trim);
    assert(s.skip(from).take(kept) == s.subrange(from, from + kept));
    if kept > 0 {
        assert(s.skip(from)[kept - 1] == stripped(s, trim).last());
        assert(s.skip(from)[0] == stripped(s, trim).first());
    }
    (from, from + kept)
}

/// A trim leaves out no character that the text does not hold.
pub proof fn lemma_stripped_keeps_free(s: Seq<char>, trim: Trim, c: char)
    requires
        free_of(s, c),
    ensures
        free_of(stripped(s, trim), c),
{
    let bounds = lemma_stripped(s, trim);
}

/// A trimmed text between two stretches that the trim removes is what the
/// trim leaves of the whole.
pub proof fn lemma_stripped_framed(before: Seq<char>, kept: Seq<char>, after: Seq<char>, trim: Trim)
    requires
        all_cut(before, trim),
        all_cut(after, trim),
        is_trimmed(kept, trim),
    ensures
        stripped(before + kept + after, trim) == kept,
{
    let whole = before + kept + after;
    let from = lemma_strip_start(whole, trim);
    if kept.len() == 0 {
        assert forall|j: int| 0 <= j < whole.len() implies trim.cuts(#[trigger] whole[j]) by {
            if j < before.len() {
                assert(whole[j] == before[j]);
            } else {
                assert(whole[j] == after[j - before.len()]);
            }
        }
        assert(from == whole.len());
        assert(whole.skip(from).len() == 0);
        assert(stripped(whole, trim) == kept);
    } else {
        assert(whole[before.len() as int] == kept.first());
        assert(from <= before.len());
        if from < before.len() {
            assert(whole[from] == before[from]);
        }
        assert(from == before.len());
        let rest = whole.skip(from);
        assert(rest == kept + after);
        let upto = lemma_strip_end(rest, trim);
        assert(rest[kept.len() - 1] == kept.last());
        if upto < kept.len() {
            assert(trim.cuts(rest[kept.len() - 1]));
        }
        if upto > kept.len() {
            assert(rest[upto - 1] == after[upto - 1 - kept.len()]);
        }
        assert(upto == kept.len());
        assert(rest.take(upto) == kept);
    }
}

/// Cutting lines that were written one after the other at their line feeds
/// gives the lines back, and an empty piece behind them.
pub proof fn lemma_pieces_unlines(lines: Seq<Seq<char>>)
    requires
        forall|i: int| 0 <= i < lines.len() ==> free_of(#[trigger] lines[i], '\n'),
    ensures
        pieces(unlines(lines), '\n') == lines.push(Seq::empty()),
    decreases lines.len(),
{
    let empty = Seq::<char>::empty();
    if lines.len() == 0 {
        assert(pieces(empty, '\n') == seq![empty]);
        assert(lines.push(empty) == seq![empty]);
    } else {
        let before = lines.drop_last();
        let written = unlines(before);
        lemma_pieces_unlines(before);
        lemma_pieces_append(written, lines.last(), '\n');
        lemma_pieces_push(written + lines.last(), '\n', '\n');
        assert(unlines(lines) == (written + lines.last()).push('\n'));
        assert(before.push(empty).drop_last() == before);
        assert(empty + lines.last() == lines.last());
        assert(before.push(lines.last()) == lines);
    }
}

/// Lines that hold no line feed and end in no carriage return, written one
/// after the other, are the lines of what was written.
pub proof fn lemma_lines_of_unlines(lines: Seq<Seq<char>>)
    requires
        forall|i: int| 0 <= i < lines.len() ==> free_of(#[trigger] lines[i], '\n'),
        forall|i: int|
            0 <= i < lines.len() ==> without_carriage_return(#[trigger] lines[i]) == lines[i],
    ensures
        lines_of(unlines(lines)) == lines,
{
    lemma_pieces_unlines(lines);
    let parts = lines.push(Seq::<char>::empty());
    assert(parts.drop_last() == lines);
    assert(lines.map_values(|part: Seq<char>| without_carriage_return(part)) == lines);
}

/// No line of a text holds a line feed.
pub proof fn lemma_lines_free(text: Seq<char>)
    ensures
        forall|i: int|
            0 <= i < lines_of(text).len() ==> free_of(#[trigger] lines_of(text)[i], '\n'),
{
    let parts = pieces(text, '\n');
    lemma_pieces_free(text, '\n');
    lemma_pieces_nonempty(text, '\n');
    assert forall|i: int| 0 <= i < lines_of(text).len() implies free_of(
        #[trigger] lines_of(text)[i],
        '\n',
    ) by {
        if i < parts.len() - 1 {
            assert(free_of(parts[i], '\n'));
            assert(lines_of(text)[i] == without_carriage_return(parts.drop_last()[i]));
        } else {
            assert(free_of(parts[parts.len() - 1], '\n'));
        }
    }
}

} // verus!
