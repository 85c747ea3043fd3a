//! Verified client library for a DNS-hosting provider's JSON-over-HTTPS API.
//!
//! The library owns everything that can be stated and proved: the data
//! model, request URL construction, encoding and parsing of the JSON wire
//! format, interpretation of server responses, and the mapping from CLI
//! commands to planned requests. The surrounding binary performs the HTTP
//! calls and file I/O and hands plain values back to this library.

pub mod body;
pub mod commands;
pub mod json;
pub mod response;
pub mod types;
pub mod url;

use vstd::prelude::*;

verus! {

/// Compares two string slices character by character.
pub fn str_eq(a: &str, b: &str) -> (r: bool)
    ensures
        r == (a@ == b@),
{
    let alen = a.unicode_len();
    let blen = b.unicode_len();
    if alen != blen {
        assert(a@ != b@) by {
            assert(a@.len() != b@.len());
        }
        return false;
    }
    let mut i: usize = 0;
    while i < alen
        invariant
            alen == a@.len(),
            blen == b@.len(),
            alen == blen,
            i <= alen,
            forall|j: int| 0 <= j < i ==> a@[j] == b@[j],
        decreases alen - i,
    {
        if a.get_char(i) != b.get_char(i) {
            assert(a@ != b@);
            return false;
        }
        i += 1;
    }
    proof {
        assert(a@ =~= b@);
    }
    true
}

} // verus!
