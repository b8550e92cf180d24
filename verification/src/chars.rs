//! Characters: what the standard library is trusted to do with them, and
//! the way from `str` to `Vec<char>` and back to `String`.

use vstd::prelude::*;

verus! {

/// What `str::to_lowercase` makes of a string: its lowercase form, as the
/// Unicode property `Lowercase` defines it, whatever the locale.
pub uninterp spec fn lowercase_of(s: Seq<char>) -> Seq<char>;

/// Whether `char::is_whitespace` holds of a character, that is whether it has
/// the Unicode `White_Space` property.
pub uninterp spec fn char_is_whitespace(c: char) -> bool;

/// `str::to_lowercase` returns the lowercase form of the string as a new
/// `String`; the result depends on the characters alone.
pub assume_specification[ str::to_lowercase ](s: &str) -> (lowered: String)
    ensures
        lowered@ == lowercase_of(s@),
;

/// `char::is_whitespace` tells whether the character has the `White_Space`
/// property; the result depends on the character alone.
pub assume_specification[ char::is_whitespace ](c: char) -> (white: bool)
    ensures
        white == char_is_whitespace(c),
;

/// `String::push` appends one character to the end of the string.
pub assume_specification[ String::push ](s: &mut String, ch: char)
    ensures
        final(s)@ == old(s)@.push(ch),
;

/// The lowercase form of a text: the empty text is its own, and that of any
/// other text is what `str::to_lowercase` makes of it.
pub open spec fn lowercase(s: Seq<char>) -> Seq<char> {
    if s.len() == 0 {
        s
    } else {
        lowercase_of(s)
    }
}

/// Whether a character is white space: the plain space is, and so is every
/// other character of which `char::is_whitespace` holds.
pub open spec fn is_white_space(c: char) -> bool {
    c == ' ' || char_is_whitespace(c)
}

/// The lowercase form of a string.
pub fn lower(s: &str) -> (lowered: String)
    ensures
        lowered@ == lowercase(s@),
{
    // The empty string is its own lowercase form, whatever is called.
    if s.is_empty() {
        String::new()
    } else {
        s.to_lowercase()
    }
}

/// Tells whether a character is white space.
pub fn is_white(c: char) -> (white: bool)
    ensures
        white == is_white_space(c),
{
    // The plain space is told at once; the rest is asked of the standard
    // library.
    c == ' ' || c.is_whitespace()
}

/// The characters of a string, in order.
pub fn chars_of(s: &str) -> (chars: Vec<char>)
    ensures
        chars@ == s@,
{
    let mut chars: Vec<char> = Vec::new();
    for c in it: s.chars()
        invariant
            chars@ == it.seq().take(it.index() as int),
    {
        chars.push(c);
    }
    chars
}

/// The string made of the given characters, in order.
pub fn string_of(chars: &Vec<char>) -> (s: String)
    ensures
        s@ == chars@,
{
    let mut s = String::new();
    let mut i: usize = 0;
    while i < chars.len()
        invariant
            i <= chars.len(),
            s@ == chars@.take(i as int),
        decreases chars.len() - i,
    {
        s.push(chars[i]);
        i += 1;
    }
    s
}

} // verus!
