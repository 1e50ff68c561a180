//! The mathematical model of source text shared by both stream representations.

use vstd::prelude::*;

verus! {

/// The line-feed byte that ends a line in byte-oriented text.
pub const LINE_FEED: u8 = 10;

/// The character read from a byte under the single-byte (Latin-1) encoding.
pub open spec fn latin1_char(b: u8) -> char {
    b as char
}

/// The characters read from a sequence of bytes, one per byte.
pub open spec fn latin1_text(bs: Seq<u8>) -> Seq<char> {
    bs.map_values(|b: u8| latin1_char(b))
}

/// The byte that stores a character in the single-byte encoding: its low eight bits.
pub open spec fn packed_byte(c: char) -> u8 {
    c as u8
}

/// The bytes that store a text in the single-byte encoding, one per character.
pub open spec fn packed(s: Seq<char>) -> Seq<u8> {
    s.map_values(|c: char| packed_byte(c))
}

/// Whether every character of a text lies in the single-byte range.
pub open spec fn is_latin1(s: Seq<char>) -> bool {
    forall|i: int| 0 <= i < s.len() ==> (#[trigger] s[i]) as int <= 255
}

/// How many elements of `s` equal the line separator `nl`.
pub open spec fn separator_count<T>(s: Seq<T>, nl: T) -> nat
    decreases s.len(),
{
    if s.len() == 0 {
        0
    } else {
        separator_count(s.drop_last(), nl) + if s.last() == nl {
            1nat
        } else {
            0nat
        }
    }
}

/// The number of lines of `s` when lines end at `nl`: one per separator, plus
/// one for a trailing fragment that no separator ends. Empty text has no lines.
pub open spec fn line_count<T>(s: Seq<T>, nl: T) -> nat {
    separator_count(s, nl) + if s.len() > 0 && s.last() != nl {
        1nat
    } else {
        0nat
    }
}

/// Relies on String::push: the character is appended at the end.
#[verifier::external_body]
pub(crate) fn push_char(s: &mut String, c: char)
    ensures
        final(s)@ == old(s)@.push(c),
{
    s.push(c);
}

/// A separator count grows by one exactly when a separator is appended.
pub proof fn lemma_separator_count_push<T>(s: Seq<T>, x: T, nl: T)
    ensures
        separator_count(s.push(x), nl) == separator_count(s, nl) + if x == nl {
            1nat
        } else {
            0nat
        },
{
    assert(s.push(x).drop_last() =~= s);
}

/// A text has no more lines than elements.
pub proof fn lemma_line_count_bound<T>(s: Seq<T>, nl: T)
    ensures
        separator_count(s, nl) <= s.len(),
        line_count(s, nl) <= s.len(),
    decreases s.len(),
{
    if s.len() > 0 {
        lemma_line_count_bound(s.drop_last(), nl);
    }
}

} // verus!
