//! The code-point stream: source text held as decoded characters, for source
//! that may hold characters outside the single-byte range.

#![allow(non_snake_case)]

use vstd::prelude::*;
use vstd::std_specs::iter::IteratorSpec;
use vstd::math::min;
use crate::text::{
    lemma_line_count_bound, lemma_separator_count_push, line_count, push_char, separator_count,
};

verus! {

broadcast use vstd::string::group_string_axioms;

/// The character that ends a line of decoded text.
pub const NEWLINE: char = '\n';

/// An immutable snapshot of the source characters not yet consumed.
///
/// The buffer is owned; consuming a character only advances the offset.
pub struct InputStream {
    chars: Vec<char>,
    pos: usize,
}

impl InputStream {
    #[verifier::type_invariant]
    spec fn wf(self) -> bool {
        self.pos <= self.chars@.len()
    }
}

impl View for InputStream {
    type V = Seq<char>;

    /// The characters that remain to be read.
    closed spec fn view(&self) -> Seq<char> {
        self.chars@.subrange(self.pos as int, self.chars@.len() as int)
    }
}

impl Clone for InputStream {
    /// A second stream over the same remaining characters, to be consumed on its own.
    fn clone(&self) -> (r: Self)
        ensures
            r@ == self@,
    {
        proof {
            use_type_invariant(self);
        }
        InputStream { chars: self.chars.clone(), pos: self.pos }
    }
}

/// Wraps text as a stream, unchanged.
pub fn inputStreamFromString(s: &str) -> (st: InputStream)
    ensures
        st@ == s@,
{
    let mut chars: Vec<char> = Vec::new();
    for c in it: s.chars()
        invariant
            it.seq() == s@,
            chars@ == it.seq().take(it.index()),
    {
        chars.push(c);
    }
    let st = InputStream { chars, pos: 0 };
    assert(st@ =~= s@);
    st
}

/// Wraps the full contents of a source file, as decoded from disk, as a stream.
pub fn readInputStream(contents: String) -> (st: InputStream)
    ensures
        st@ == contents@,
{
    inputStreamFromString(contents.as_str())
}

/// Whether no character remains.
pub fn inputStreamEmpty(st: &InputStream) -> (r: bool)
    ensures
        r == (st@.len() == 0),
{
    proof {
        use_type_invariant(st);
    }
    st.pos == st.chars.len()
}

/// The remaining characters as text.
pub fn inputStreamToString(st: &InputStream) -> (r: String)
    ensures
        r@ == st@,
{
    proof {
        use_type_invariant(st);
    }
    let mut r = String::new();
    let mut i: usize = st.pos;
    while i < st.chars.len()
        invariant
            st.pos <= i <= st.chars@.len(),
            r@ == st.chars@.subrange(st.pos as int, i as int),
        decreases st.chars@.len() - i,
    {
        let c = st.chars[i];
        push_char(&mut r, c);
        i = i + 1;
        proof {
            assert(r@ =~= st.chars@.subrange(st.pos as int, i as int));
        }
    }
    r
}

/// The byte whose value is the code point of a single-byte character.
fn latin1_byte(c: char) -> (b: u8)
    requires
        c as int <= 255,
    ensures
        b as int == c as int,
{
    c as u8
}

/// Consumes the first character, which must lie in the single-byte range:
/// returns it as a byte with the stream of the characters after it.
pub fn takeByte(st: InputStream) -> (r: (u8, InputStream))
    requires
        st@.len() > 0,
        st@[0] as int <= 255,
    ensures
        r.0 as int == st@[0] as int,
        r.1@ == st@.drop_first(),
{
    let (c, rest) = takeChar(st);
    (latin1_byte(c), rest)
}

/// Consumes the first character: returns it with the stream of the
/// characters after it.
pub fn takeChar(st: InputStream) -> (r: (char, InputStream))
    requires
        st@.len() > 0,
    ensures
        r.0 == st@[0],
        r.1@ == st@.drop_first(),
        st@ == seq![r.0] + r.1@,
{
    proof {
        use_type_invariant(&st);
    }
    let c = st.chars[st.pos];
    assert(st.pos < st.chars.len());
    let rest = InputStream { chars: st.chars, pos: st.pos + 1 };
    assert(rest@ =~= st@.drop_first());
    assert(st@ =~= seq![c] + rest@);
    (c, rest)
}

/// The first `n` characters, or all of them where fewer remain.
pub fn takeChars(n: isize, st: &InputStream) -> (r: Vec<char>)
    requires
        n >= 0,
    ensures
        r@ == st@.take(min(n as int, st@.len() as int)),
        n >= st@.len() ==> r@ == st@,
        n == 0 ==> r@ == Seq::<char>::empty(),
{
    proof {
        use_type_invariant(st);
    }
    let avail: usize = st.chars.len() - st.pos;
    let k: usize = if (n as usize) < avail {
        n as usize
    } else {
        avail
    };
    let mut r: Vec<char> = Vec::new();
    let mut i: usize = 0;
    while i < k
        invariant
            k <= avail == st@.len(),
            st.pos + avail == st.chars.len(),
            i <= k,
            r@ == st@.take(i as int),
        decreases k - i,
    {
        r.push(st.chars[st.pos + i]);
        i = i + 1;
        proof {
            assert(r@ =~= st@.take(i as int));
        }
    }
    assert(n >= st@.len() ==> r@ =~= st@);
    assert(n == 0 ==> r@ =~= Seq::<char>::empty());
    r
}

/// The number of lines of the whole remaining text: lines end at a newline,
/// and a trailing fragment without one counts as a line.
pub fn countLines(st: &InputStream) -> (r: isize)
    requires
        st@.len() <= isize::MAX,
    ensures
        r == line_count(st@, NEWLINE),
{
    proof {
        use_type_invariant(st);
        lemma_line_count_bound(st@, NEWLINE);
    }
    let avail: usize = st.chars.len() - st.pos;
    let mut count: usize = 0;
    let mut i: usize = 0;
    while i < avail
        invariant
            avail == st@.len(),
            st.pos + avail == st.chars.len(),
            i <= avail,
            count == separator_count(st@.take(i as int), NEWLINE),
        decreases avail - i,
    {
        let c = st.chars[st.pos + i];
        proof {
            assert(st@.take(i + 1) =~= st@.take(i as int).push(c));
            lemma_separator_count_push(st@.take(i as int), c, NEWLINE);
            lemma_line_count_bound(st@.take(i + 1), NEWLINE);
        }
        if c == NEWLINE {
            count = count + 1;
        }
        i = i + 1;
    }
    assert(st@.take(avail as int) =~= st@);
    if avail > 0 && st.chars[st.chars.len() - 1] != NEWLINE {
        count = count + 1;
    }
    count as isize
}

} // verus!
