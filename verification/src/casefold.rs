//! Case normalization for case-insensitive search: lowercasing is
//! delegated to the standard library, and its result is given a name
//! that the matching contracts speak of. Only comparison keys are
//! lowercased; reported lines always keep their original text.

use vstd::prelude::*;

verus! {

/// The Unicode lowercase form of a character sequence, as
/// `str::to_lowercase` computes it: a function of the characters alone,
/// the same in every process and on every machine.
pub uninterp spec fn lower_of(s: Seq<char>) -> Seq<char>;

/// Relies on `str::to_lowercase`, for the lowercase form of a string:
/// its result depends only on the characters of `s`.
#[verifier::external_body]
pub(crate) fn lowercase(s: &str) -> (r: String)
    ensures
        r@ == lower_of(s@),
{
    s.to_lowercase()
}

} // verus!
