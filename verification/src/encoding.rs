//! How the characters of a string relate to its UTF-8 bytes.
//!
//! The executable code scans and cuts strings by byte offset, while the
//! contracts speak of sequences of characters. The lemmas here carry facts
//! from one side to the other.

use vstd::prelude::*;
use vstd::utf8::*;

verus! {

/// The bytes of a concatenation are the bytes of its parts, in order.
pub proof fn lemma_encode_concat(a: Seq<char>, b: Seq<char>)
    ensures
        encode_utf8(a + b) == encode_utf8(a) + encode_utf8(b),
    decreases a.len(),
{
    if a.len() == 0 {
        assert(a + b =~= b);
    } else {
        lemma_encode_concat(a.drop_first(), b);
        assert((a + b).drop_first() =~= a.drop_first() + b);
    }
}

/// Two strings with the same bytes are the same string.
pub proof fn lemma_encode_injective(a: Seq<char>, b: Seq<char>)
    requires
        encode_utf8(a) == encode_utf8(b),
    ensures
        a == b,
{
    encode_utf8_decode_utf8(a);
    encode_utf8_decode_utf8(b);
}

/// The string made of one ASCII character, and no other, has the one byte of
/// that character's code as its bytes.
pub proof fn lemma_encode_ascii_char(text: Seq<char>, c: char)
    requires
        c <= '\u{7f}',
    ensures
        encode_utf8(text) == seq![c as u8] <==> text == seq![c],
{
    let single = seq![c];
    is_ascii_chars_encode_utf8(single);
    if encode_utf8(text) == seq![c as u8] {
        lemma_encode_injective(text, single);
    }
}

/// An ASCII character at position `k` of `text` shows as its own byte at the
/// offset where the bytes of the first `k` characters end.
pub proof fn lemma_ascii_char_byte(text: Seq<char>, k: int)
    requires
        0 <= k < text.len(),
        text[k] <= '\u{7f}',
    ensures
        encode_utf8(text.subrange(0, k)).len() < encode_utf8(text).len(),
        encode_utf8(text)[encode_utf8(text.subrange(0, k)).len() as int] == text[k] as u8,
{
    let before = text.subrange(0, k);
    let after = text.subrange(k + 1, text.len() as int);
    assert(text =~= before + seq![text[k]] + after);
    lemma_encode_concat(before + seq![text[k]], after);
    lemma_encode_concat(before, seq![text[k]]);
    lemma_encode_ascii_char(seq![text[k]], text[k]);
}

/// Where no byte of `text` is the code of the ASCII character `c`, no
/// character of `text` is `c`.
pub proof fn lemma_byte_absent(text: Seq<char>, c: char)
    requires
        c <= '\u{7f}',
        forall|i: int| 0 <= i < encode_utf8(text).len() ==> encode_utf8(text)[i] != c as u8,
    ensures
        forall|k: int| 0 <= k < text.len() ==> text[k] != c,
{
    assert forall|k: int| 0 <= k < text.len() implies text[k] != c by {
        if text[k] == c {
            lemma_ascii_char_byte(text, k);
        }
    }
}

/// Cuts `text` in two at byte offset `mid`, which must not fall inside a
/// character. Each part is a slice of `text`; nothing is copied.
pub(crate) fn cut<'a>(text: &'a str, mid: usize) -> (parts: (&'a str, &'a str))
    requires
        is_char_boundary(encode_utf8(text@), mid as int),
    ensures
        parts.0@ + parts.1@ == text@,
        encode_utf8(parts.0@) == encode_utf8(text@).subrange(0, mid as int),
        encode_utf8(parts.1@) == encode_utf8(text@).subrange(
            mid as int,
            encode_utf8(text@).len() as int,
        ),
{
    let parts = text.split_at(mid);
    proof {
        encode_utf8_valid_utf8(text@);
        decode_utf8_split(encode_utf8(text@), mid as int);
        encode_utf8_decode_utf8(text@);
        encode_utf8_decode_utf8(parts.0@);
        encode_utf8_decode_utf8(parts.1@);
    }
    parts
}

} // verus!
