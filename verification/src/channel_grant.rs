//! Channel-grant records of the retention layer: who may read which channel.

use crate::encoding::{base64_decode, base64_encode};
use crate::keys::KeyCommitment;
use crate::text::{append_i64, chars_of, parse_i64};
use vstd::prelude::*;
use vstd::slice::*;
use vstd::string::*;

verus! {

/// Prefix for channel-grant records in the retention layer.
pub const GRANT_KEY_PREFIX: &'static str = "sl2/channel_grant/";

/// The row key of the grant of `channel` to user `uid`.
pub open spec fn grant_key_text(uid: int, channel: int) -> Seq<char> {
    GRANT_KEY_PREFIX@ + crate::text::int_text(uid) + seq!['/'] + crate::text::int_text(channel)
}

/// Whether `key` starts with the prefix of channel-grant records.
pub open spec fn has_grant_prefix(key: Seq<char>) -> bool {
    GRANT_KEY_PREFIX@.is_prefix_of(key)
}

/// Whether position `p` of `s` holds its one and only slash.
pub open spec fn is_only_slash(s: Seq<char>, p: int) -> bool {
    &&& 0 <= p < s.len()
    &&& s[p] == '/'
    &&& forall|i: int| 0 <= i < s.len() && i != p ==> #[trigger] s[i] != '/'
}

/// The user and channel that a grant row key names: after the prefix, two
/// integers separated by the only slash.
pub open spec fn grant_key_ids(key: Seq<char>) -> Option<(i64, i64)> {
    let rest = key.skip(GRANT_KEY_PREFIX@.len() as int);
    if has_grant_prefix(key) && exists|p: int| is_only_slash(rest, p) {
        let p = choose|p: int| is_only_slash(rest, p);
        match (
            crate::text::i64_of_text(rest.take(p)),
            crate::text::i64_of_text(rest.skip(p + 1)),
        ) {
            (Some(uid), Some(channel)) => Some((uid, channel)),
            _ => None,
        }
    } else {
        None
    }
}

/// A grant row key names exactly the user and channel it was built from.
pub proof fn law_grant_key_round_trip(uid: i64, channel: i64)
    ensures
        grant_key_ids(grant_key_text(uid as int, channel as int)) == Some((uid, channel)),
{
    let key = grant_key_text(uid as int, channel as int);
    let prefix = GRANT_KEY_PREFIX@;
    let first = crate::text::int_text(uid as int);
    let second = crate::text::int_text(channel as int);
    let rest = key.skip(prefix.len() as int);
    crate::text::lemma_int_text_chars(uid as int);
    crate::text::lemma_int_text_chars(channel as int);
    crate::text::lemma_int_text_round_trip(uid as int);
    crate::text::lemma_int_text_round_trip(channel as int);
    assert(key.take(prefix.len() as int) =~= prefix);
    assert(rest =~= first + seq!['/'] + second);
    let at = first.len() as int;
    assert(is_only_slash(rest, at)) by {
        assert forall|i: int| 0 <= i < rest.len() && i != at implies #[trigger] rest[i] != '/' by {
            if i < at {
                assert(rest[i] == first[i]);
            } else {
                assert(rest[i] == second[i - at - 1]);
            }
        }
    }
    let p = choose|p: int| is_only_slash(rest, p);
    assert(p == at);
    assert(rest.take(at) =~= first);
    assert(rest.skip(at + 1) =~= second);
}

/// Distinct grants have distinct row keys.
pub proof fn law_grant_keys_are_distinct(uid1: i64, channel1: i64, uid2: i64, channel2: i64)
    requires
        grant_key_text(uid1 as int, channel1 as int) == grant_key_text(
            uid2 as int,
            channel2 as int,
        ),
    ensures
        uid1 == uid2,
        channel1 == channel2,
{
    law_grant_key_round_trip(uid1, channel1);
    law_grant_key_round_trip(uid2, channel2);
}

/// Construct a grant row key from user and channel IDs.
pub fn grant_row_key(uid: i64, channel: i64) -> (r: String)
    ensures
        r@ == grant_key_text(uid as int, channel as int),
{
    let mut out = String::new();
    out.append(GRANT_KEY_PREFIX);
    append_i64(&mut out, uid);
    out.append("/");
    append_i64(&mut out, channel);
    proof {
        reveal_strlit("/");
        assert("/"@ =~= seq!['/']);
        assert(out@ =~= grant_key_text(uid as int, channel as int));
    }
    out
}

/// Whether `key` starts with the prefix of channel-grant records.
pub fn starts_with_grant_prefix(key: &str) -> (r: bool)
    ensures
        r == has_grant_prefix(key@),
{
    let prefix = chars_of(GRANT_KEY_PREFIX);
    let chars = chars_of(key);
    if chars.len() < prefix.len() {
        return false;
    }
    let mut i: usize = 0;
    while i < prefix.len()
        invariant
            prefix@ == GRANT_KEY_PREFIX@,
            chars@ == key@,
            i <= prefix@.len() <= chars@.len(),
            forall|j: int| 0 <= j < i ==> prefix@[j] == chars@[j],
        decreases prefix@.len() - i,
    {
        if prefix[i] != chars[i] {
            assert(prefix@[i as int] != key@.subrange(0, prefix@.len() as int)[i as int]);
            return false;
        }
        i = i + 1;
    }
    assert(prefix@ =~= key@.subrange(0, prefix@.len() as int));
    true
}

/// Parse a grant row key back to (uid, channel) IDs.
pub fn parse_grant_row_key(key: &str) -> (r: Option<(i64, i64)>)
    ensures
        r == grant_key_ids(key@),
{
    if !starts_with_grant_prefix(key) {
        return None;
    }
    let chars = chars_of(key);
    let start: usize = chars_of(GRANT_KEY_PREFIX).len();
    let ghost rest = key@.skip(start as int);
    let mut slash: Option<usize> = None;
    let mut i: usize = start;
    while i < chars.len()
        invariant
            start == GRANT_KEY_PREFIX@.len(),
            has_grant_prefix(key@),
            chars@ == key@,
            rest == key@.skip(start as int),
            start <= i <= chars@.len(),
            match slash {
                Some(p) => start <= p < i && rest[p - start] == '/' && forall|j: int|
                    0 <= j < i - start && j != p - start ==> #[trigger] rest[j] != '/',
                None => forall|j: int| 0 <= j < i - start ==> #[trigger] rest[j] != '/',
            },
        decreases chars@.len() - i,
    {
        assert(chars@[i as int] == rest[i - start]);
        if chars[i] == '/' {
            match slash {
                Some(p) => {
                    proof {
                        assert forall|q: int| !is_only_slash(rest, q) by {
                            if q == p - start {
                                assert(rest[i - start] == '/');
                            } else {
                                assert(rest[p - start] == '/');
                            }
                        }
                    }
                    return None;
                },
                None => {
                    slash = Some(i);
                },
            }
        }
        i = i + 1;
    }
    match slash {
        None => {
            assert forall|q: int| !is_only_slash(rest, q) by {}
            None
        },
        Some(p) => {
            proof {
                assert(is_only_slash(rest, p - start));
                let q = choose|q: int| is_only_slash(rest, q);
                assert(q == p - start);
            }
            let first = slice_subrange(chars.as_slice(), start, p);
            let second = slice_subrange(chars.as_slice(), p + 1, chars.len());
            assert(first@ =~= rest.take(p - start));
            assert(second@ =~= rest.skip(p - start + 1));
            match (parse_i64(first), parse_i64(second)) {
                (Some(uid), Some(channel)) => Some((uid, channel)),
                _ => None,
            }
        },
    }
}

/// What a stored value stands for: its bytes, where it is base64 and they are a
/// commitment.
pub open spec fn grant_value(encoded: Seq<char>, is_commitment: bool) -> Option<Seq<u8>> {
    if is_commitment {
        crate::encoding::base64_bytes(encoded)
    } else {
        None
    }
}

/// Whether `encoded` is the stored value of a commitment.
pub open spec fn is_grant_value(encoded: Seq<char>, commitment: Seq<u8>) -> bool {
    &&& encoded == crate::encoding::base64_text(commitment)
    &&& crate::encoding::base64_bytes(encoded) == Some(commitment)
}

/// Encode a key commitment to its base64 representation.
pub fn encode_grant_value(commitment: &KeyCommitment) -> (r: String)
    requires
        crate::encoding::base64_fits(commitment@.len()),
    ensures
        is_grant_value(r@, commitment@),
{
    base64_encode(commitment.as_bytes())
}

/// The bytes of a stored value, of which the key derivation backend says whether
/// they are a commitment.
pub fn grant_value_bytes(encoded: &str) -> (r: Option<Vec<u8>>)
    ensures
        match crate::encoding::base64_bytes(encoded@) {
            Some(bytes) => r is Some && r->0@ == bytes,
            None => r is None,
        },
{
    base64_decode(encoded)
}

/// Decode a base64-encoded string back to a key commitment. `is_commitment` is
/// the answer of the key derivation backend on the bytes of the string; without
/// it there is no commitment.
pub fn decode_grant_value(encoded: &str, is_commitment: bool) -> (r: Option<KeyCommitment>)
    ensures
        match grant_value(encoded@, is_commitment) {
            Some(bytes) => r is Some && r->0@ == bytes,
            None => r is None,
        },
        r is Some <==> crate::encoding::base64_bytes(encoded@) is Some && is_commitment,
{
    match grant_value_bytes(encoded) {
        Some(bytes) => if is_commitment {
            Some(KeyCommitment::new(bytes))
        } else {
            None
        },
        None => None,
    }
}

/// The stored value of a commitment reads back as that commitment, where the
/// backend takes its bytes for one, and as nothing where it does not.
pub proof fn law_grant_value_reads_back(encoded: Seq<char>, commitment: Seq<u8>)
    requires
        is_grant_value(encoded, commitment),
    ensures
        grant_value(encoded, true) == Some(commitment),
        grant_value(encoded, false) is None,
{
}

/// Whether a text holds no slash.
pub open spec fn is_slash_free(s: Seq<char>) -> bool {
    forall|i: int| 0 <= i < s.len() ==> #[trigger] s[i] != '/'
}

/// The row key of a grant is the prefix, the user's number, a slash and the
/// channel's number.
pub proof fn law_grant_key_is_spelled_out(uid: int, channel: int)
    ensures
        grant_key_text(uid, channel) == "sl2/channel_grant/"@ + crate::text::int_text(uid) + "/"@
            + crate::text::int_text(channel),
{
    reveal_strlit("/");
    assert("/"@ =~= seq!['/']);
}

/// A row key names a user and a channel exactly where it is the prefix, a number,
/// a slash and a number, with no other slash among them.
pub proof fn law_grant_keys_are_read(key: Seq<char>, uid: i64, channel: i64)
    ensures
        grant_key_ids(key) == Some((uid, channel)) <==> exists|a: Seq<char>, b: Seq<char>|
            {
                &&& key == "sl2/channel_grant/"@ + a + "/"@ + b
                &&& #[trigger] is_slash_free(a)
                &&& #[trigger] is_slash_free(b)
                &&& crate::text::i64_of_text(a) == Some(uid)
                &&& crate::text::i64_of_text(b) == Some(channel)
            },
{
    reveal_strlit("/");
    assert("/"@ =~= seq!['/']);
    let prefix = GRANT_KEY_PREFIX@;
    let n = prefix.len() as int;
    let rest = key.skip(n);
    if grant_key_ids(key) == Some((uid, channel)) {
        let p = choose|p: int| is_only_slash(rest, p);
        let (a, b) = (rest.take(p), rest.skip(p + 1));
        assert(key.take(n) =~= prefix);
        assert(rest =~= a + "/"@ + b);
        assert(key =~= prefix + a + "/"@ + b);
        assert(is_slash_free(a));
        assert(is_slash_free(b));
    }
    if exists|a: Seq<char>, b: Seq<char>|
        {
            &&& key == "sl2/channel_grant/"@ + a + "/"@ + b
            &&& #[trigger] is_slash_free(a)
            &&& #[trigger] is_slash_free(b)
            &&& crate::text::i64_of_text(a) == Some(uid)
            &&& crate::text::i64_of_text(b) == Some(channel)
        } {
        let (a, b) = choose|a: Seq<char>, b: Seq<char>|
            {
                &&& key == "sl2/channel_grant/"@ + a + "/"@ + b
                &&& #[trigger] is_slash_free(a)
                &&& #[trigger] is_slash_free(b)
                &&& crate::text::i64_of_text(a) == Some(uid)
                &&& crate::text::i64_of_text(b) == Some(channel)
            };
        let at = a.len() as int;
        assert(key.take(n) =~= prefix);
        assert(rest =~= a + seq!['/'] + b);
        assert forall|i: int| 0 <= i < rest.len() && i != at implies #[trigger] rest[i] != '/' by {
            if i < at {
                assert(rest[i] == a[i]);
            } else {
                assert(rest[i] == b[i - at - 1]);
            }
        }
        assert(is_only_slash(rest, at));
        let p = choose|p: int| is_only_slash(rest, p);
        assert(p == at);
        assert(rest.take(at) =~= a);
        assert(rest.skip(at + 1) =~= b);
    }
}

/// A stored value reads as a commitment exactly where it is base64 and the
/// backend takes its bytes for one, and then as those bytes.
pub proof fn law_grant_values_are_read(encoded: Seq<char>, is_commitment: bool)
    ensures
        grant_value(encoded, is_commitment) is Some <==> is_commitment
            && crate::encoding::base64_bytes(encoded) is Some,
        grant_value(encoded, is_commitment) is Some ==> grant_value(encoded, is_commitment)
            == crate::encoding::base64_bytes(encoded),
{
}

/// The stored value of a commitment is its base64 text, and reads back as it.
pub proof fn law_stored_value_is_base64(encoded: Seq<char>, commitment: Seq<u8>)
    ensures
        is_grant_value(encoded, commitment) <==> {
            &&& encoded == crate::encoding::base64_text(commitment)
            &&& crate::encoding::base64_bytes(encoded) == Some(commitment)
        },
{
}

} // verus!
