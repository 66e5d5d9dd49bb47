//! Identifier case conversion, delegated to an external string utility.

use vstd::prelude::*;

verus! {

/// The snake-case form of an identifier.  The conversion is a fixed function
/// of the characters alone; the library never states what it is on given
/// values and reasons about it only through this name.
pub uninterp spec fn snake_of(s: Seq<char>) -> Seq<char>;

/// Relies on case::CaseExt::to_snake (crate `case`): converts camel case to
/// snake case, reading only the characters of its input.  Each input
/// character yields one output character, with an underscore prepended to
/// every uppercase ASCII character after the first position, so the result
/// is empty exactly on empty input and never shorter than the input.
#[verifier::external_body]
pub(crate) fn to_snake(s: &str) -> (r: String)
    ensures
        r@ == snake_of(s@),
        s@.len() == 0 ==> r@.len() == 0,
        r@.len() >= s@.len(),
{
    case::CaseExt::to_snake(s)
}

} // verus!
