//! The rule by which a file search picks names: the needle occurs in the
//! file name, ignoring case.

use vstd::prelude::*;
use crate::matcher::{find_exact, find_from};
use crate::text::chars_of;

verus! {

/// What `str::to_lowercase` makes of a text.
pub uninterp spec fn lower_of(s: Seq<char>) -> Seq<char>;

/// Relies on `str::to_lowercase`: the result depends on the characters alone.
#[verifier::external_body]
fn lowercase(s: &str) -> (r: String)
    ensures
        r@ == lower_of(s@),
{
    s.to_lowercase()
}

/// Whether `needle_lower` occurs in `name_lower`; both are already lowercase.
pub fn matches_folded(name_lower: &str, needle_lower: &str) -> (r: bool)
    ensures
        r == (find_from(name_lower@, needle_lower@, 0) is Some),
{
    find_exact(&chars_of(name_lower), &chars_of(needle_lower)).is_some()
}

/// Whether a file name matches a search needle: the lowercase needle occurs
/// in the lowercase name.
pub fn file_name_matches(name: &str, needle: &str) -> (r: bool)
    ensures
        r == (find_from(lower_of(name@), lower_of(needle@), 0) is Some),
{
    let n = lowercase(name);
    let q = lowercase(needle);
    matches_folded(n.as_str(), q.as_str())
}

} // verus!
