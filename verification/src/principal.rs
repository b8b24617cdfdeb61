//! Principals are the host's caller identities; the library works with their
//! canonical textual form and leaves parsing to the `candid` crate.

use vstd::prelude::*;

verus! {

/// What candid's principal parser yields on a given text: the canonical
/// lowercase textual form on success, the parser's message on failure; a
/// function of the text alone.
pub uninterp spec fn principal_of(s: Seq<char>) -> Result<Seq<char>, Seq<char>>;

/// Relies on candid::Principal::from_text and Principal::to_text: from_text
/// accepts exactly the canonical base32-with-CRC grouping, case-insensitively,
/// and to_text prints the canonical lowercase form of the parsed principal.
#[verifier::external_body]
pub(crate) fn canonical_principal(s: &str) -> (r: Result<String, String>)
    ensures
        r is Ok <==> principal_of(s@) is Ok,
        r is Ok ==> r->Ok_0@ == principal_of(s@)->Ok_0,
        r is Err ==> r->Err_0@ == principal_of(s@)->Err_0,
{
    match candid::Principal::from_text(s) {
        Ok(p) => Ok(p.to_text()),
        Err(e) => Err(e.to_string()),
    }
}

} // verus!
