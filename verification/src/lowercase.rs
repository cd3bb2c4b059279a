//! The lowercase form of a text.
//!
//! Bringing text to lowercase is left to the standard library, which follows
//! the Unicode tables. Nothing here proves what it computes: the contracts
//! of this crate only give its result a name.

use vstd::prelude::*;

verus! {

/// The lowercase form of `text` as Unicode defines it. One character may give
/// several, and what a letter gives may depend on its neighbours, so the form
/// of a text is in general not made of the forms of its parts.
pub uninterp spec fn lowercase_of(text: Seq<char>) -> Seq<char>;

/// `str::to_lowercase` of the standard library, taken on trust: the string
/// that it returns is the lowercase form of its argument, and for the empty
/// string it is empty.
pub assume_specification[ str::to_lowercase ](text: &str) -> (lowered: String)
    ensures
        lowered@ == lowercase_of(text@),
        text@.len() == 0 ==> lowered@.len() == 0,
;

} // verus!
