//! Characters and strings: what the scanner needs of them.

use vstd::prelude::*;

verus! {

/// Whether a character beyond ASCII is white space, as `char::is_whitespace`
/// tells it: whether Unicode lists it under White_Space.
pub uninterp spec fn is_unicode_whitespace(c: char) -> bool;

/// Whether `c` is white space. Within ASCII these are the space and the
/// characters U+0009 to U+000D: tab, line feed, vertical tab, form feed and
/// carriage return. Beyond ASCII they are what Unicode lists under
/// White_Space.
pub open spec fn is_whitespace(c: char) -> bool {
    if c as u32 <= 0x7f {
        c == ' ' || 0x09 <= c as u32 <= 0x0d
    } else {
        is_unicode_whitespace(c)
    }
}

/// `char::is_whitespace`. Claimed: within ASCII the answer is yes for the
/// space and for U+0009 to U+000D and no for every other character; beyond
/// ASCII it depends on the character alone, and the contract gives it its
/// name and claims nothing else of it.
#[verifier::external_body]
pub(crate) fn char_is_whitespace(c: char) -> (blank: bool)
    ensures
        blank == is_whitespace(c),
        c as u32 > 0x7f ==> blank == is_unicode_whitespace(c),
{
    c.is_whitespace()
}

/// The ASCII upper-case form of a character: the letters `a` to `z` become
/// `A` to `Z`, every other character is itself.
pub open spec fn upper_char(c: char) -> char {
    if 'a' as int <= c as int && c as int <= 'z' as int {
        ((c as int) - 32) as char
    } else {
        c
    }
}

/// A text with each character in its ASCII upper-case form.
pub open spec fn upper_case(text: Seq<char>) -> Seq<char> {
    text.map_values(|c: char| upper_char(c))
}

/// `str::to_ascii_uppercase`. Claimed: the copy has the characters of
/// `text`, in order, the ASCII letters `a` to `z` replaced by `A` to `Z` and
/// all others unchanged.
#[verifier::external_body]
pub(crate) fn to_ascii_upper(text: &str) -> (upper: String)
    ensures
        upper@ == upper_case(text@),
{
    text.to_ascii_uppercase()
}

/// `String::push`. Claimed: the character is appended at the end and nothing
/// else changes.
#[verifier::external_body]
pub(crate) fn push_char(text: &mut String, c: char)
    ensures
        final(text)@ == old(text)@.push(c),
{
    text.push(c)
}

/// Whether two texts are the same, character for character.
pub fn spells(word: &str, literal: &str) -> (same: bool)
    ensures
        same == (word@ == literal@),
{
    let n: usize = literal.unicode_len();
    if word.unicode_len() != n {
        return false;
    }
    let mut i: usize = 0;
    while i < n
        invariant
            i <= n,
            n == literal@.len(),
            n == word@.len(),
            word@.take(i as int) == literal@.take(i as int),
        decreases n - i,
    {
        if word.get_char(i) != literal.get_char(i) {
            return false;
        }
        assert(word@.take(i + 1) =~= word@.take(i as int).push(word@[i as int]));
        assert(literal@.take(i + 1) =~= literal@.take(i as int).push(literal@[i as int]));
        i = i + 1;
    }
    assert(word@.take(n as int) =~= word@);
    assert(literal@.take(n as int) =~= literal@);
    true
}

/// The characters of a text, in order.
pub fn chars_of(text: &str) -> (chars: Vec<char>)
    ensures
        chars@ == text@,
{
    let mut chars: Vec<char> = Vec::new();
    for c in it: text.chars()
        invariant
            it.seq() == text@,
            chars@ == text@.take(it.index() as int),
    {
        assert(text@.take(it.index() + 1) =~= text@.take(it.index() as int).push(c));
        chars.push(c);
    }
    assert(text@.take(text@.len() as int) =~= text@);
    chars
}

} // verus!
