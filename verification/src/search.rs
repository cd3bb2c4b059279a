//! Searching the lines of a text for a query.

use crate::lines::{lemma_line_is_slice, lines_of, split_first_line};
use crate::lowercase::lowercase_of;
use crate::pattern::{contains, is_substring, occurs_at};
use vstd::prelude::*;

verus! {

/// Whether a line holds `needle`: as it stands, or, where `fold_case` is set,
/// in its lowercase form.
pub open spec fn line_holds(needle: Seq<char>, line: Seq<char>, fold_case: bool) -> bool {
    is_substring(
        needle,
        if fold_case {
            lowercase_of(line)
        } else {
            line
        },
    )
}

/// The lines of `contents` that hold `needle`, in the order of the text.
pub open spec fn lines_holding(needle: Seq<char>, contents: Seq<char>, fold_case: bool) -> Seq<
    Seq<char>,
> {
    lines_of(contents).filter(|line: Seq<char>| line_holds(needle, line, fold_case))
}

/// The lines of `contents` that hold `query`, letter case observed.
pub open spec fn matching_lines(query: Seq<char>, contents: Seq<char>) -> Seq<Seq<char>> {
    lines_holding(query, contents, false)
}

/// The lines of `contents` whose lowercase form holds the lowercase form of
/// `query`.
pub open spec fn matching_lines_ignoring_case(query: Seq<char>, contents: Seq<char>) -> Seq<
    Seq<char>,
> {
    lines_holding(lowercase_of(query), contents, true)
}

/// `picked` is taken from `from` at the places `at`, which go upwards.
pub open spec fn picked_at<A>(picked: Seq<A>, from: Seq<A>, at: Seq<int>) -> bool {
    &&& at.len() == picked.len()
    &&& forall|k: int|
        0 <= k < at.len() ==> 0 <= #[trigger] at[k] < from.len() && picked[k] == from[at[k]]
    &&& forall|j: int, k: int| 0 <= j < k < at.len() ==> at[j] < at[k]
}

/// `picked` holds some of the items of `from`, each once, in the order in
/// which they stand in `from`.
pub open spec fn keeps_order<A>(picked: Seq<A>, from: Seq<A>) -> bool {
    exists|at: Seq<int>| picked_at(picked, from, at)
}

/// What a filter keeps, it keeps in order.
pub proof fn lemma_filter_keeps_order<A>(from: Seq<A>, keep: spec_fn(A) -> bool)
    ensures
        keeps_order(from.filter(keep), from),
    decreases from.len(),
{
    reveal(Seq::filter);
    if from.len() == 0 {
        assert(picked_at(from.filter(keep), from, Seq::<int>::empty()));
    } else {
        let shorter = from.drop_last();
        lemma_filter_keeps_order(shorter, keep);
        let at = choose|at: Seq<int>| picked_at(shorter.filter(keep), shorter, at);
        if keep(from.last()) {
            assert(picked_at(from.filter(keep), from, at.push(from.len() - 1)));
        } else {
            assert(picked_at(from.filter(keep), from, at));
        }
    }
}

/// A filter that every item passes keeps them all.
pub proof fn lemma_filter_keeps_all<A>(from: Seq<A>, keep: spec_fn(A) -> bool)
    requires
        forall|k: int| 0 <= k < from.len() ==> keep(#[trigger] from[k]),
    ensures
        from.filter(keep) == from,
    decreases from.len(),
{
    reveal(Seq::filter);
    if from.len() > 0 {
        lemma_filter_keeps_all(from.drop_last(), keep);
        assert(from.drop_last().push(from.last()) =~= from);
    }
}

/// What holds of the lines found for a `needle`: each is a line of the text
/// and holds the needle, they come in the order of the text, an empty needle
/// finds every line, and an empty text has none to find.
pub proof fn lemma_lines_holding(needle: Seq<char>, contents: Seq<char>, fold_case: bool)
    ensures
        forall|k: int|
            0 <= k < lines_holding(needle, contents, fold_case).len() ==> {
                let line = #[trigger] lines_holding(needle, contents, fold_case)[k];
                lines_of(contents).contains(line) && line_holds(needle, line, fold_case)
            },
        keeps_order(lines_holding(needle, contents, fold_case), lines_of(contents)),
        needle.len() == 0 ==> lines_holding(needle, contents, fold_case) == lines_of(contents),
        contents.len() == 0 ==> lines_holding(needle, contents, fold_case).len() == 0,
{
    let lines = lines_of(contents);
    let holds = |line: Seq<char>| line_holds(needle, line, fold_case);
    let found = lines.filter(holds);
    lemma_filter_keeps_order(lines, holds);
    let at = choose|at: Seq<int>| picked_at(found, lines, at);
    assert forall|k: int| 0 <= k < found.len() implies lines.contains(#[trigger] found[k])
        && line_holds(needle, found[k], fold_case) by {
        assert(found[k] == lines[at[k]]);
    }
    if needle.len() == 0 {
        assert forall|k: int| 0 <= k < lines.len() implies holds(#[trigger] lines[k]) by {
            let line = if fold_case {
                lowercase_of(lines[k])
            } else {
                lines[k]
            };
            assert(line.subrange(0, 0) =~= needle);
            assert(occurs_at(needle, line, 0));
        }
        lemma_filter_keeps_all(lines, holds);
    }
}

/// A search without regard to case finds every line that a search with
/// regard to case finds for any spelling of the query, that is, for any text
/// with the same lowercase form as the query.
///
/// This holds where each line that holds the spelling still holds it once
/// both are brought to lowercase. Most text is so. It fails where the
/// lowercase form of a letter depends on its neighbours, as that of the Greek
/// capital sigma does at the end of a word.
pub proof fn lemma_ignoring_case_finds_each_spelling(
    query: Seq<char>,
    spelling: Seq<char>,
    contents: Seq<char>,
)
    requires
        lowercase_of(spelling) == lowercase_of(query),
        forall|line: Seq<char>|
            lines_of(contents).contains(line) && #[trigger] is_substring(spelling, line)
                ==> is_substring(lowercase_of(spelling), lowercase_of(line)),
    ensures
        forall|line: Seq<char>| #[trigger]
            matching_lines(spelling, contents).contains(line)
                ==> matching_lines_ignoring_case(query, contents).contains(line),
{
    let lines = lines_of(contents);
    let found = matching_lines(spelling, contents);
    let folded = |line: Seq<char>| line_holds(lowercase_of(query), line, true);
    lemma_lines_holding(spelling, contents, false);
    assert forall|line: Seq<char>| #[trigger] found.contains(line) implies lines.filter(
        folded,
    ).contains(line) by {
        let k = choose|k: int| 0 <= k < found.len() && found[k] == line;
        assert(lines.contains(found[k]) && is_substring(spelling, found[k]));
        let i = choose|i: int| 0 <= i < lines.len() && lines[i] == line;
        lines.lemma_filter_contains(folded, i);
    }
}

/// Walks the lines of `contents` and keeps those that hold `needle`: each
/// line is looked at as it stands or, where `fold_case` is set, in its
/// lowercase form.
fn select_lines<'a>(needle: &str, contents: &'a str, fold_case: bool) -> (found: Vec<&'a str>)
    ensures
        found.deep_view() == lines_holding(needle@, contents@, fold_case),
{
    let mut found: Vec<&'a str> = Vec::new();
    let mut rest = contents;
    let ghost holds = |line: Seq<char>| line_holds(needle@, line, fold_case);
    let ghost mut seen: Seq<Seq<char>> = Seq::empty();
    while !rest.is_empty()
        invariant
            holds == |line: Seq<char>| line_holds(needle@, line, fold_case),
            lines_of(contents@) == seen + lines_of(rest@),
            found.deep_view() == seen.filter(holds),
        decreases rest@.len(),
    {
        let (line, tail) = split_first_line(rest);
        let hit = if fold_case {
            let lowered = line.to_lowercase();
            contains(lowered.as_str(), needle)
        } else {
            contains(line, needle)
        };
        proof {
            // The filter takes up the last line seen on top of the others.
            reveal(Seq::filter);
            assert(seen.push(line@).drop_last() =~= seen);
            seen = seen.push(line@);
        }
        if hit {
            found.push(line);
        }
        rest = tail;
    }
    found
}

/// The lines of `contents` that hold `query`, exactly as written. Each line
/// found is a slice of `contents`, and the lines come in the order of the
/// text. An empty query finds every line; an empty text has no lines.
pub fn search<'a>(query: &str, contents: &'a str) -> (found: Vec<&'a str>)
    ensures
        found.deep_view() == matching_lines(query@, contents@),
        forall|k: int|
            0 <= k < found.len() ==> {
                let line = #[trigger] found[k]@;
                &&& lines_of(contents@).contains(line)
                &&& is_substring(line, contents@)
                &&& is_substring(query@, line)
            },
        keeps_order(found.deep_view(), lines_of(contents@)),
        query@.len() == 0 ==> found.deep_view() == lines_of(contents@),
        contents@.len() == 0 ==> found.len() == 0,
{
    let found = select_lines(query, contents, false);
    proof {
        lemma_lines_holding(query@, contents@, false);
        assert forall|k: int| 0 <= k < found.len() implies {
            let line = #[trigger] found[k]@;
            &&& lines_of(contents@).contains(line)
            &&& is_substring(line, contents@)
            &&& is_substring(query@, line)
        } by {
            assert(found[k]@ == found.deep_view()[k]);
            lemma_line_is_slice(contents@, found[k]@);
        }
    }
    found
}

/// The lines of `contents` that hold `query` when letter case is left out of
/// account: those whose lowercase form holds the lowercase form of `query`.
/// The lines are returned as they stand in `contents`, in the order of the
/// text. An empty query finds every line; an empty text has no lines.
pub fn search_case_insensitive<'a>(query: &str, contents: &'a str) -> (found: Vec<&'a str>)
    ensures
        found.deep_view() == matching_lines_ignoring_case(query@, contents@),
        forall|k: int|
            0 <= k < found.len() ==> {
                let line = #[trigger] found[k]@;
                &&& lines_of(contents@).contains(line)
                &&& is_substring(line, contents@)
                &&& is_substring(lowercase_of(query@), lowercase_of(line))
            },
        keeps_order(found.deep_view(), lines_of(contents@)),
        query@.len() == 0 ==> found.deep_view() == lines_of(contents@),
        contents@.len() == 0 ==> found.len() == 0,
{
    let lowered = query.to_lowercase();
    let found = select_lines(lowered.as_str(), contents, true);
    proof {
        lemma_lines_holding(lowered@, contents@, true);
        assert forall|k: int| 0 <= k < found.len() implies {
            let line = #[trigger] found[k]@;
            &&& lines_of(contents@).contains(line)
            &&& is_substring(line, contents@)
            &&& is_substring(lowercase_of(query@), lowercase_of(line))
        } by {
            assert(found[k]@ == found.deep_view()[k]);
            lemma_line_is_slice(contents@, found[k]@);
        }
    }
    found
}

} // verus!
