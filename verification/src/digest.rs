//! The hash that a task's identifier is derived from.

use sha1::{Digest, Sha1};
use vstd::prelude::*;

verus! {

/// The SHA-1 digest of the UTF-8 bytes of `data`, written as lower-case
/// hexadecimal digits.
pub uninterp spec fn sha1_hex(data: Seq<char>) -> Seq<char>;

/// Feeds the bytes of `data` to a fresh `sha1::Sha1` hasher (`Digest::new`,
/// `Digest::update`, `Digest::finalize`) and formats the digest with `{:x}`.
/// The digest depends on the bytes alone; which digits come out is not
/// stated here, only named. A SHA-1 digest has 20 bytes, and each is
/// written as two digits.
#[verifier::external_body]
pub(crate) fn sha1_hex_digest(data: &str) -> (r: String)
    ensures
        r@ == sha1_hex(data@),
        r@.len() == 40,
{
    let mut hasher = Sha1::new();
    hasher.update(data);
    format!("{:x}", hasher.finalize())
}

} // verus!
