//! The byte-oriented stream: source text held as raw bytes, one byte per
//! character under a single-byte encoding.

#![allow(non_snake_case)]

use vstd::prelude::*;
use vstd::std_specs::iter::IteratorSpec;
use vstd::math::min;
use crate::text::{
    is_latin1, latin1_char, latin1_text, lemma_line_count_bound, lemma_separator_count_push,
    line_count, packed, packed_byte, push_char, separator_count, LINE_FEED,
};

verus! {

broadcast use vstd::string::group_string_axioms;

/// An immutable snapshot of the source bytes not yet consumed.
///
/// The buffer is owned; consuming a byte only advances the offset, so a
/// `take` on this stream never copies what remains.
pub struct InputStream {
    bytes: Vec<u8>,
    pos: usize,
}

impl InputStream {
    #[verifier::type_invariant]
    spec fn wf(self) -> bool {
        self.pos <= self.bytes@.len()
    }
}

impl View for InputStream {
    type V = Seq<u8>;

    /// The bytes that remain to be read.
    closed spec fn view(&self) -> Seq<u8> {
        self.bytes@.subrange(self.pos as int, self.bytes@.len() as int)
    }
}

impl Clone for InputStream {
    /// A second stream over the same remaining bytes, to be consumed on its own.
    fn clone(&self) -> (r: Self)
        ensures
            r@ == self@,
    {
        proof {
            use_type_invariant(self);
        }
        InputStream { bytes: self.bytes.clone(), pos: self.pos }
    }
}

/// Wraps text as a stream, storing each character as its low byte.
pub fn inputStreamFromString(s: &str) -> (st: InputStream)
    ensures
        st@ == packed(s@),
{
    let mut bytes: Vec<u8> = Vec::new();
    for c in it: s.chars()
        invariant
            it.seq() == s@,
            bytes@ == packed(it.seq().take(it.index())),
    {
        proof {
            assert(it.seq().take(it.index() + 1) =~= it.seq().take(it.index()).push(c));
        }
        bytes.push(c as u8);
    }
    assert(s@.take(s@.len() as int) =~= s@);
    InputStream { bytes, pos: 0 }
}

/// A character in the single-byte range reads back from its byte.
proof fn lemma_single_byte_char(c: char)
    requires
        c as int <= 255,
    ensures
        latin1_char(packed_byte(c)) == c,
{
}

/// Text in the single-byte range reads back unchanged from the stream built
/// over it: packing each character into a byte and reading each byte back as a
/// character gives the text again.
pub proof fn round_trip_text(s: Seq<char>)
    requires
        is_latin1(s),
    ensures
        latin1_text(packed(s)) == s,
{
    assert forall|i: int| 0 <= i < s.len() implies latin1_text(packed(s))[i] == s[i] by {
        lemma_single_byte_char(s[i]);
    }
    assert(latin1_text(packed(s)) =~= s);
}

/// Wraps the full contents of a source file, as read from disk, as a stream.
pub fn readInputStream(contents: Vec<u8>) -> (st: InputStream)
    ensures
        st@ == contents@,
{
    let st = InputStream { bytes: contents, pos: 0 };
    assert(st@ =~= st.bytes@);
    st
}

/// Whether no byte remains.
pub fn inputStreamEmpty(st: &InputStream) -> (r: bool)
    ensures
        r == (st@.len() == 0),
{
    proof {
        use_type_invariant(st);
    }
    st.pos == st.bytes.len()
}

/// The remaining bytes read back as text, one character per byte.
pub fn inputStreamToString(st: &InputStream) -> (r: String)
    ensures
        r@ == latin1_text(st@),
{
    proof {
        use_type_invariant(st);
    }
    let mut r = String::new();
    let mut i: usize = st.pos;
    while i < st.bytes.len()
        invariant
            st.pos <= i <= st.bytes@.len(),
            r@ == latin1_text(st.bytes@.subrange(st.pos as int, i as int)),
        decreases st.bytes@.len() - i,
    {
        let b = st.bytes[i];
        proof {
            assert(st.bytes@.subrange(st.pos as int, i + 1) =~= st.bytes@.subrange(
                st.pos as int,
                i as int,
            ).push(b));
        }
        push_char(&mut r, b as char);
        i = i + 1;
    }
    r
}

/// Consumes the first byte: returns it with the stream of the bytes after it.
pub fn takeByte(st: InputStream) -> (r: (u8, InputStream))
    requires
        st@.len() > 0,
    ensures
        r.0 == st@[0],
        r.1@ == st@.drop_first(),
{
    proof {
        use_type_invariant(&st);
    }
    let b = st.bytes[st.pos];
    assert(st.pos < st.bytes.len());
    let rest = InputStream { bytes: st.bytes, pos: st.pos + 1 };
    assert(rest@ =~= st@.drop_first());
    (b, rest)
}

/// Consumes the first character, read from its single byte: returns it with
/// the stream of the bytes after it.
pub fn takeChar(st: InputStream) -> (r: (char, InputStream))
    requires
        st@.len() > 0,
    ensures
        r.0 == latin1_char(st@[0]),
        r.1@ == st@.drop_first(),
        latin1_text(st@) == seq![r.0] + latin1_text(r.1@),
{
    let ghost text = st@;
    let (b, rest) = takeByte(st);
    assert(latin1_text(text) =~= seq![b as char] + latin1_text(rest@));
    (b as char, rest)
}

/// The first `n` characters, or all of them where fewer remain.
pub fn takeChars(n: isize, st: &InputStream) -> (r: Vec<char>)
    requires
        n >= 0,
    ensures
        r@ == latin1_text(st@).take(min(n as int, st@.len() as int)),
        n >= st@.len() ==> r@ == latin1_text(st@),
        n == 0 ==> r@ == Seq::<char>::empty(),
{
    proof {
        use_type_invariant(st);
    }
    let avail: usize = st.bytes.len() - st.pos;
    let k: usize = if (n as usize) < avail {
        n as usize
    } else {
        avail
    };
    let mut r: Vec<char> = Vec::new();
    let mut i: usize = 0;
    while i < k
        invariant
            k <= avail == st@.len(),
            st.pos + avail == st.bytes.len(),
            i <= k,
            r@ == latin1_text(st@).take(i as int),
        decreases k - i,
    {
        r.push(st.bytes[st.pos + i] as char);
        i = i + 1;
        proof {
            assert(r@ =~= latin1_text(st@).take(i as int));
        }
    }
    assert(n >= st@.len() ==> r@ =~= latin1_text(st@));
    assert(n == 0 ==> r@ =~= Seq::<char>::empty());
    r
}

/// The number of lines of the whole remaining text: lines end at a line feed,
/// and a trailing fragment without one counts as a line.
pub fn countLines(st: &InputStream) -> (r: isize)
    requires
        st@.len() <= isize::MAX,
    ensures
        r == line_count(st@, LINE_FEED),
{
    proof {
        use_type_invariant(st);
        lemma_line_count_bound(st@, LINE_FEED);
    }
    let avail: usize = st.bytes.len() - st.pos;
    let mut count: usize = 0;
    let mut i: usize = 0;
    while i < avail
        invariant
            avail == st@.len(),
            st.pos + avail == st.bytes.len(),
            i <= avail,
            count == separator_count(st@.take(i as int), LINE_FEED),
        decreases avail - i,
    {
        let b = st.bytes[st.pos + i];
        proof {
            assert(st@.take(i + 1) =~= st@.take(i as int).push(b));
            lemma_separator_count_push(st@.take(i as int), b, LINE_FEED);
            lemma_line_count_bound(st@.take(i + 1), LINE_FEED);
        }
        if b == LINE_FEED {
            count = count + 1;
        }
        i = i + 1;
    }
    assert(st@.take(avail as int) =~= st@);
    if avail > 0 && st.bytes[st.bytes.len() - 1] != LINE_FEED {
        count = count + 1;
    }
    count as isize
}

} // verus!
