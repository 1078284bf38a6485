//! Lowercasing as Unicode defines it.

use vstd::prelude::*;

verus! {

/// The lowercase form of a text under Unicode's default case mapping. The
/// mapping is a table of the standard library; nothing of it is spelled out
/// here.
pub uninterp spec fn lowercase(s: Seq<char>) -> Seq<char>;

/// `str::to_lowercase`: hands back a new text that is the lowercase form of
/// `s`. All that is claimed is that the result depends on the characters of
/// `s` alone.
#[verifier::external_body]
pub(crate) fn to_lowercase(s: &str) -> (r: String)
    ensures
        r@ == lowercase(s@),
{
    s.to_lowercase()
}

} // verus!
