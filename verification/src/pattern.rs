//! Substring matching on text.

use crate::encoding::lemma_encode_concat;
use vstd::prelude::*;
use vstd::utf8::*;

verus! {

/// `needle` occurs in `haystack` as a contiguous run starting at `at`.
pub open spec fn occurs_at<T>(needle: Seq<T>, haystack: Seq<T>, at: int) -> bool {
    &&& 0 <= at
    &&& at + needle.len() <= haystack.len()
    &&& haystack.subrange(at, at + needle.len()) == needle
}

/// `needle` occurs somewhere in `haystack` as a contiguous run.
pub open spec fn is_substring<T>(needle: Seq<T>, haystack: Seq<T>) -> bool {
    exists|at: int| occurs_at(needle, haystack, at)
}

/// Whether `needle` stands in `haystack` at offset `at`.
fn bytes_match_at(needle: &[u8], haystack: &[u8], at: usize) -> (found: bool)
    requires
        at + needle@.len() <= haystack@.len(),
    ensures
        found == occurs_at(needle@, haystack@, at as int),
{
    let width = needle.len();
    let limit = haystack.len();
    let mut k: usize = 0;
    while k < width
        invariant
            k <= width,
            width == needle@.len(),
            limit == haystack@.len(),
            at + width <= limit,
            forall|j: int| 0 <= j < k ==> haystack@[at + j] == needle@[j],
        decreases width - k,
    {
        if haystack[at + k] != needle[k] {
            assert(haystack@.subrange(at as int, at + width)[k as int] != needle@[k as int]);
            return false;
        }
        k += 1;
    }
    assert(haystack@.subrange(at as int, at + width) =~= needle@);
    true
}

/// Whether `needle` stands somewhere in `haystack`, trying each offset in turn.
fn bytes_contain(needle: &[u8], haystack: &[u8]) -> (found: bool)
    ensures
        found == is_substring(needle@, haystack@),
{
    if needle.len() > haystack.len() {
        return false;
    }
    let last = haystack.len() - needle.len();
    let mut at: usize = 0;
    loop
        invariant
            at <= last,
            last + needle@.len() == haystack@.len(),
            forall|i: int| 0 <= i < at ==> !occurs_at(needle@, haystack@, i),
        decreases last - at,
    {
        if bytes_match_at(needle, haystack, at) {
            return true;
        }
        if at == last {
            return false;
        }
        at += 1;
    }
}

/// A string that holds another holds the other's bytes among its own.
proof fn lemma_chars_found_in_bytes(needle: Seq<char>, haystack: Seq<char>, at: int)
    requires
        occurs_at(needle, haystack, at),
    ensures
        is_substring(encode_utf8(needle), encode_utf8(haystack)),
{
    let before = haystack.subrange(0, at);
    let after = haystack.subrange(at + needle.len(), haystack.len() as int);
    assert(haystack =~= before + needle + after);
    lemma_encode_concat(before + needle, after);
    lemma_encode_concat(before, needle);
    let offset = encode_utf8(before).len() as int;
    assert(encode_utf8(haystack).subrange(offset, offset + encode_utf8(needle).len())
        =~= encode_utf8(needle));
    assert(occurs_at(encode_utf8(needle), encode_utf8(haystack), offset));
}

/// Where the bytes of a string hold the bytes of another, the string holds the
/// other: a match on bytes never begins or ends inside a character.
proof fn lemma_bytes_found_in_chars(needle: Seq<char>, haystack: Seq<char>, offset: int)
    requires
        occurs_at(encode_utf8(needle), encode_utf8(haystack), offset),
    ensures
        is_substring(needle, haystack),
{
    let pat = encode_utf8(needle);
    let hay = encode_utf8(haystack);
    encode_utf8_valid_utf8(needle);
    encode_utf8_valid_utf8(haystack);
    encode_utf8_decode_utf8(needle);
    encode_utf8_decode_utf8(haystack);
    if needle.len() == 0 {
        assert(haystack.subrange(0, 0) =~= needle);
        assert(occurs_at(needle, haystack, 0));
    } else {
        // The match begins with the first byte of a character, so it begins
        // at a boundary of the haystack.
        assert(!is_continuation_byte(pat[0]));
        assert(hay[offset] == hay.subrange(offset, offset + pat.len())[0]);
        is_char_boundary_iff_not_is_continuation_byte(hay, offset);
        valid_utf8_split(hay, offset);
        decode_utf8_split(hay, offset);
        // What follows the match is well formed, because the match and the
        // haystack from the match on both are. So the match ends at a
        // boundary too.
        let from_match = hay.subrange(offset, hay.len() as int);
        let width = pat.len() as int;
        let past_match = from_match.subrange(width, from_match.len() as int);
        assert(from_match.subrange(0, width) =~= pat);
        if !valid_utf8(past_match) {
            partial_valid_partial_invalid_utf8(from_match, width);
        }
        if width == from_match.len() {
            is_char_boundary_start_end_of_seq(from_match);
        } else {
            assert(!is_continuation_byte(past_match[0]));
            assert(from_match[width] == past_match[0]);
            is_char_boundary_iff_not_is_continuation_byte(from_match, width);
        }
        decode_utf8_split(from_match, width);
        // Between the two boundaries stand the characters of the needle.
        let before = decode_utf8(hay.subrange(0, offset));
        let after = decode_utf8(past_match);
        assert(haystack == before + (needle + after));
        let at = before.len() as int;
        assert(haystack.subrange(at, at + needle.len()) =~= needle);
        assert(occurs_at(needle, haystack, at));
    }
}

/// A string holds another exactly when its bytes hold the other's bytes.
pub proof fn lemma_substring_by_bytes(needle: Seq<char>, haystack: Seq<char>)
    ensures
        is_substring(encode_utf8(needle), encode_utf8(haystack)) == is_substring(needle, haystack),
{
    if is_substring(needle, haystack) {
        let at = choose|at: int| occurs_at(needle, haystack, at);
        lemma_chars_found_in_bytes(needle, haystack, at);
    }
    if is_substring(encode_utf8(needle), encode_utf8(haystack)) {
        let offset = choose|offset: int|
            occurs_at(encode_utf8(needle), encode_utf8(haystack), offset);
        lemma_bytes_found_in_chars(needle, haystack, offset);
    }
}

/// Whether `haystack` holds `needle` as a contiguous run of characters. The
/// empty string is held by every string.
pub fn contains(haystack: &str, needle: &str) -> (found: bool)
    ensures
        found == is_substring(needle@, haystack@),
{
    proof {
        lemma_substring_by_bytes(needle@, haystack@);
    }
    bytes_contain(needle.as_bytes(), haystack.as_bytes())
}

} // verus!
