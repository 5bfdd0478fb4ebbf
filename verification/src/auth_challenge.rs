//! The message that a member signs to prove its identity.

use crate::persistence::SpaceId;
use vstd::bytes::u64_to_le_bytes;
use vstd::prelude::*;

verus! {

/// Domain-separation prefix of authentication challenges.
pub const DOMAIN: &'static str = "halyard-auth-challenge-v1";

/// The bytes of the prefix.
pub open spec fn domain() -> Seq<u8> {
    DOMAIN@.map_values(|c: char| c as u8)
}

/// The bytes of the prefix.
fn domain_bytes() -> (r: Vec<u8>)
    ensures
        r@ == domain(),
{
    let r: Vec<u8> = vec![
        104, 97, 108, 121, 97, 114, 100, 45, 97, 117, 116, 104, 45, 99, 104, 97, 108, 108, 101, 110,
        103, 101, 45, 118, 49,
    ];
    proof {
        reveal_strlit("halyard-auth-challenge-v1");
    }
    assert(r@ =~= domain());
    r
}

/// The eight bytes of a user id, least significant first, in two's complement.
pub open spec fn uid_bytes(uid: i64) -> Seq<u8> {
    vstd::bytes::spec_u64_to_le_bytes(uid as u64)
}

/// The challenge message: the domain, the space, the user id and the nonce.
pub open spec fn challenge(space_id: Seq<u8>, uid: i64, nonce: Seq<u8>) -> Seq<u8> {
    domain() + space_id + uid_bytes(uid) + nonce
}

/// The message that user `uid` of a space signs for `nonce`.
pub fn auth_challenge_message(space_id: SpaceId, uid: i64, nonce: &[u8]) -> (r: Vec<u8>)
    ensures
        r@ == challenge(space_id@, uid, nonce@),
{
    let mut m: Vec<u8> = domain_bytes();
    m.extend_from_slice(space_id.as_bytes().as_slice());
    let word: u64 = #[verifier::truncate]
    (uid as u64);
    let bytes = u64_to_le_bytes(word);
    m.extend_from_slice(bytes.as_slice());
    m.extend_from_slice(nonce);
    assert(m@ =~= challenge(space_id@, uid, nonce@));
    m
}

/// Every challenge starts with the domain.
pub proof fn law_challenge_is_domain_separated(space_id: Seq<u8>, uid: i64, nonce: Seq<u8>)
    ensures
        domain().is_prefix_of(challenge(space_id, uid, nonce)),
{
    assert(challenge(space_id, uid, nonce).subrange(0, domain().len() as int) =~= domain());
}

/// A challenge is for one space, one user and one nonce: it changes with each of
/// them.
pub proof fn law_challenge_binds_its_inputs(
    space1: Seq<u8>,
    uid1: i64,
    nonce1: Seq<u8>,
    space2: Seq<u8>,
    uid2: i64,
    nonce2: Seq<u8>,
)
    requires
        space1.len() == 16,
        space2.len() == 16,
        challenge(space1, uid1, nonce1) == challenge(space2, uid2, nonce2),
    ensures
        space1 == space2,
        uid1 == uid2,
        nonce1 == nonce2,
{
    vstd::bytes::lemma_auto_spec_u64_to_from_le_bytes();
    let c1 = challenge(space1, uid1, nonce1);
    let c2 = challenge(space2, uid2, nonce2);
    let n = domain().len() as int;
    assert(uid_bytes(uid1).len() == 8);
    assert(uid_bytes(uid2).len() == 8);
    assert(c1.subrange(n, n + 16) =~= space1);
    assert(c2.subrange(n, n + 16) =~= space2);
    assert(c1.subrange(n + 16, n + 24) =~= uid_bytes(uid1));
    assert(c2.subrange(n + 16, n + 24) =~= uid_bytes(uid2));
    assert(c1.skip(n + 24) =~= nonce1);
    assert(c2.skip(n + 24) =~= nonce2);
    assert(uid1 as u64 == uid2 as u64);
    assert(uid1 == uid2) by (bit_vector)
        requires
            uid1 as u64 == uid2 as u64,
    ;
}

/// A challenge is the domain, the sixteen bytes of the space, the user id as a
/// little-endian word in two's complement, and the nonce, one after the other and
/// nothing else: each can be read back from its place.
pub proof fn law_challenge_layout(space_id: Seq<u8>, uid: i64, nonce: Seq<u8>)
    requires
        space_id.len() == 16,
    ensures
        ({
            let m = challenge(space_id, uid, nonce);
            &&& m.len() == 49 + nonce.len()
            &&& forall|i: int|
                0 <= i < 25 ==> #[trigger] m[i] == "halyard-auth-challenge-v1"@[i] as u8
            &&& m.subrange(25, 41) == space_id
            &&& vstd::bytes::spec_u64_from_le_bytes(m.subrange(41, 49)) == uid as u64
            &&& m.skip(49) == nonce
        }),
{
    vstd::bytes::lemma_auto_spec_u64_to_from_le_bytes();
    reveal_strlit("halyard-auth-challenge-v1");
    let m = challenge(space_id, uid, nonce);
    assert(domain().len() == 25);
    assert(uid_bytes(uid).len() == 8);
    assert(m.subrange(25, 41) =~= space_id);
    assert(m.subrange(41, 49) =~= uid_bytes(uid));
    assert(m.skip(49) =~= nonce);
}

} // verus!
