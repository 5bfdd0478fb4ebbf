//! Key values as the library holds them: opaque byte strings.
//!
//! How a key is derived, committed to or encrypted is the business of the key
//! derivation backend. Here a key, a commitment and an encrypted key are their
//! encodings.

use vstd::prelude::*;

verus! {

/// A secret key, by its encoding.
#[derive(Debug, PartialEq, Eq)]
pub struct KeyMaterial {
    pub bytes: Vec<u8>,
}

/// A public commitment to a key, by its encoding.
#[derive(Debug, PartialEq, Eq)]
pub struct KeyCommitment {
    pub bytes: Vec<u8>,
}

/// A key encrypted under another key, by its encoding.
#[derive(Debug, PartialEq, Eq)]
pub struct EncryptedKeyMaterial {
    pub bytes: Vec<u8>,
}

/// The key manager's only failure: the requested key is not available.
#[derive(Clone, Copy, Debug, PartialEq, Eq, Structural)]
pub struct KeyManagerError;

impl View for KeyMaterial {
    type V = Seq<u8>;

    open spec fn view(&self) -> Seq<u8> {
        self.bytes@
    }
}

impl View for KeyCommitment {
    type V = Seq<u8>;

    open spec fn view(&self) -> Seq<u8> {
        self.bytes@
    }
}

impl View for EncryptedKeyMaterial {
    type V = Seq<u8>;

    open spec fn view(&self) -> Seq<u8> {
        self.bytes@
    }
}

/// A copy of a byte string.
pub fn copy_bytes(bytes: &[u8]) -> (r: Vec<u8>)
    ensures
        r@ == bytes@,
{
    let mut out: Vec<u8> = Vec::new();
    out.extend_from_slice(bytes);
    assert(out@ =~= bytes@);
    out
}

impl KeyMaterial {
    pub fn new(bytes: Vec<u8>) -> (r: Self)
        ensures
            r@ == bytes@,
    {
        KeyMaterial { bytes }
    }

    pub fn as_bytes(&self) -> (r: &[u8])
        ensures
            r@ == self@,
    {
        self.bytes.as_slice()
    }
}

impl Clone for KeyMaterial {
    fn clone(&self) -> (r: Self)
        ensures
            r@ == self@,
    {
        KeyMaterial { bytes: copy_bytes(self.bytes.as_slice()) }
    }
}

impl KeyCommitment {
    pub fn new(bytes: Vec<u8>) -> (r: Self)
        ensures
            r@ == bytes@,
    {
        KeyCommitment { bytes }
    }

    pub fn as_bytes(&self) -> (r: &[u8])
        ensures
            r@ == self@,
    {
        self.bytes.as_slice()
    }
}

impl Clone for KeyCommitment {
    fn clone(&self) -> (r: Self)
        ensures
            r@ == self@,
    {
        KeyCommitment { bytes: copy_bytes(self.bytes.as_slice()) }
    }
}

impl EncryptedKeyMaterial {
    pub fn new(bytes: Vec<u8>) -> (r: Self)
        ensures
            r@ == bytes@,
    {
        EncryptedKeyMaterial { bytes }
    }
}

impl Clone for EncryptedKeyMaterial {
    fn clone(&self) -> (r: Self)
        ensures
            r@ == self@,
    {
        EncryptedKeyMaterial { bytes: copy_bytes(self.bytes.as_slice()) }
    }
}

} // verus!
