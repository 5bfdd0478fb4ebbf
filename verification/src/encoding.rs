//! Standard base64, as binary values travel inside text columns.

use base64::engine::general_purpose::STANDARD;
use base64::Engine;
use vstd::prelude::*;

verus! {

/// What `STANDARD.encode` of the `base64` crate returns for `bytes`.
pub uninterp spec fn base64_text(bytes: Seq<u8>) -> Seq<char>;

/// What `STANDARD.decode` of the `base64` crate returns for `text`: the decoded
/// bytes, or `None` where it reports an error.
pub uninterp spec fn base64_bytes(text: Seq<char>) -> Option<Seq<u8>>;

/// Whether the encoding of `len` bytes, four characters for each three bytes
/// or part of three, fits in one allocation.
pub open spec fn base64_fits(len: nat) -> bool {
    4 * ((len + 2) / 3) <= isize::MAX
}

/// `STANDARD.encode` of the `base64` crate: the result depends on the bytes
/// alone, and decoding it gives them back. Encodings that do not fit in memory
/// make the crate panic and are left out.
#[verifier::external_body]
pub(crate) fn base64_encode(bytes: &[u8]) -> (r: String)
    requires
        base64_fits(bytes@.len()),
    ensures
        r@ == base64_text(bytes@),
        base64_bytes(r@) == Some(bytes@),
{
    STANDARD.encode(bytes)
}

/// `STANDARD.decode` of the `base64` crate: the result depends on the text
/// alone; an error becomes `None`.
#[verifier::external_body]
pub(crate) fn base64_decode(text: &str) -> (r: Option<Vec<u8>>)
    ensures
        match r {
            Some(bytes) => base64_bytes(text@) == Some(bytes@),
            None => base64_bytes(text@) is None,
        },
{
    STANDARD.decode(text).ok()
}

} // verus!
