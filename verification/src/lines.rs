//! The lines of a text.
//!
//! A line ends at a line feed, or at a carriage return directly followed by a
//! line feed; neither belongs to the line. A carriage return anywhere else is
//! an ordinary character. The last line needs no line ending, and a text that
//! ends with one has no empty line after it.

use crate::encoding::{cut, lemma_byte_absent, lemma_encode_ascii_char, lemma_encode_concat};
use crate::pattern::{is_substring, occurs_at};
use vstd::prelude::*;
use vstd::utf8::*;

verus! {

/// The number of characters before the first line feed of `text`, or the
/// length of `text` where it has none.
pub open spec fn line_end(text: Seq<char>) -> nat
    decreases text.len(),
{
    if text.len() == 0 || text[0] == '\n' {
        0
    } else {
        1 + line_end(text.drop_first())
    }
}

/// `line` without the carriage return at its end, if it has one there.
pub open spec fn without_carriage_return(line: Seq<char>) -> Seq<char> {
    if line.len() > 0 && line.last() == '\r' {
        line.drop_last()
    } else {
        line
    }
}

/// The first line of `text`: what stands before its first line ending, or all
/// of it where it has none.
pub open spec fn first_line(text: Seq<char>) -> Seq<char> {
    let end = line_end(text);
    if end < text.len() {
        without_carriage_return(text.subrange(0, end as int))
    } else {
        text
    }
}

/// What follows the first line of `text` and its line ending.
pub open spec fn after_first_line(text: Seq<char>) -> Seq<char> {
    let end = line_end(text);
    if end < text.len() {
        text.subrange(end as int + 1, text.len() as int)
    } else {
        Seq::empty()
    }
}

/// The lines of `text`, in order.
pub open spec fn lines_of(text: Seq<char>) -> Seq<Seq<char>>
    decreases text.len(),
{
    if text.len() == 0 {
        Seq::empty()
    } else {
        seq![first_line(text)] + lines_of(after_first_line(text))
    }
}

/// `line_end` is the place of the first line feed: no line feed stands before
/// it, and one stands at it unless the text has none.
pub proof fn lemma_line_end(text: Seq<char>)
    ensures
        line_end(text) <= text.len(),
        forall|k: int| 0 <= k < line_end(text) ==> text[k] != '\n',
        line_end(text) < text.len() ==> text[line_end(text) as int] == '\n',
    decreases text.len(),
{
    if text.len() > 0 && text[0] != '\n' {
        let rest = text.drop_first();
        lemma_line_end(rest);
        assert forall|k: int| 0 <= k < line_end(text) implies text[k] != '\n' by {
            if k > 0 {
                assert(text[k] == rest[k - 1]);
            }
        }
    }
}

/// A text made of a stretch without line feed, a line feed, and more has its
/// first line feed where that stretch ends.
pub proof fn lemma_line_end_found(head: Seq<char>, tail: Seq<char>)
    requires
        forall|k: int| 0 <= k < head.len() ==> head[k] != '\n',
    ensures
        line_end(head + seq!['\n'] + tail) == head.len(),
    decreases head.len(),
{
    let text = head + seq!['\n'] + tail;
    if head.len() > 0 {
        assert(text.drop_first() =~= head.drop_first() + seq!['\n'] + tail);
        lemma_line_end_found(head.drop_first(), tail);
    }
}

/// Every line of a text is a slice of it: a contiguous run of its characters.
pub proof fn lemma_line_is_slice(text: Seq<char>, line: Seq<char>)
    requires
        lines_of(text).contains(line),
    ensures
        is_substring(line, text),
    decreases text.len(),
{
    lemma_line_end(text);
    if text.len() > 0 {
        let k = choose|k: int| 0 <= k < lines_of(text).len() && lines_of(text)[k] == line;
        if k == 0 {
            assert(line =~= text.subrange(0, line.len() as int));
            assert(occurs_at(line, text, 0));
        } else {
            let rest = after_first_line(text);
            let skipped = line_end(text) + 1;
            assert(lines_of(rest)[k - 1] == line);
            lemma_line_is_slice(rest, line);
            let at = choose|at: int| occurs_at(line, rest, at);
            assert(rest.subrange(at, at + line.len()) =~= text.subrange(
                skipped + at,
                skipped + at + line.len(),
            ));
            assert(occurs_at(line, text, skipped + at));
        }
    }
}

/// Drops the carriage return at the end of `line`, if it has one there.
fn strip_carriage_return<'a>(line: &'a str) -> (stripped: &'a str)
    ensures
        stripped@ == without_carriage_return(line@),
{
    let bytes = line.as_bytes();
    let width = bytes.len();
    if width > 0 && bytes[width - 1] == 0x0D {
        proof {
            encode_utf8_valid_utf8(line@);
            is_char_boundary_iff_not_is_continuation_byte(bytes@, width - 1);
        }
        let (body, ending) = cut(line, width - 1);
        proof {
            assert(encode_utf8(ending@) =~= seq!['\r' as u8]);
            lemma_encode_ascii_char(ending@, '\r');
        }
        body
    } else {
        proof {
            if line@.len() > 0 && line@.last() == '\r' {
                let body = line@.drop_last();
                assert(line@ =~= body + seq!['\r']);
                lemma_encode_concat(body, seq!['\r']);
                lemma_encode_ascii_char(seq!['\r'], '\r');
            }
        }
        line
    }
}

/// Takes the first line off `text`: the line, and what follows its line
/// ending. Nothing is copied.
pub fn split_first_line<'a>(text: &'a str) -> (parts: (&'a str, &'a str))
    ensures
        parts.0@ == first_line(text@),
        parts.1@ == after_first_line(text@),
{
    let bytes = text.as_bytes();
    let width = bytes.len();
    let mut end: usize = 0;
    while end < width && bytes[end] != 0x0A
        invariant
            end <= width,
            width == bytes@.len(),
            forall|i: int| 0 <= i < end ==> bytes@[i] != 0x0A,
        decreases width - end,
    {
        end += 1;
    }
    if end == width {
        // No line feed: the text is one line.
        proof {
            lemma_byte_absent(text@, '\n');
            lemma_line_end(text@);
            reveal_strlit("");
        }
        (text, "")
    } else {
        // A line feed is a character of one byte: a character begins at it,
        // and the next one right after it.
        proof {
            encode_utf8_valid_utf8(text@);
            is_char_boundary_iff_not_is_continuation_byte(bytes@, end as int);
        }
        let (head, from_ending) = cut(text, end);
        proof {
            encode_utf8_valid_utf8(from_ending@);
            reveal_with_fuel(is_char_boundary, 2);
        }
        let (ending, tail) = cut(from_ending, 1);
        // The bytes before it held no line feed, so it is the first of the
        // text.
        proof {
            assert(encode_utf8(ending@) =~= seq!['\n' as u8]);
            lemma_encode_ascii_char(ending@, '\n');
            lemma_byte_absent(head@, '\n');
            lemma_line_end_found(head@, tail@);
            assert(text@ =~= head@ + seq!['\n'] + tail@);
        }
        (strip_carriage_return(head), tail)
    }
}

} // verus!
