//! Structural key derivation for read scoping: the lower tier of the retention
//! key tree.
//!
//! A channel is a node in the key tree. Its subtree key is derived from a group
//! key and the channel identifier, and its data keys from the subtree key and an
//! epoch sequence number:
//!
//! ```text
//!   group key --(per channel)--> subtree key --(per epoch)--> data key
//! ```
//!
//! A full member holds the group key and derives any channel's subtree key. A
//! scoped member is delivered the subtree keys that it may use, and cannot go
//! back from them to the group key or to a sibling channel.

use crate::keys::KeyMaterial;
use crate::text;
use crate::text::{append_i64, append_u64};
use vstd::prelude::*;
use vstd::string::*;

verus! {

/// Domain-separation prefix for the per-channel subtree derivation.
pub const CHANNEL_ROOT_TAG_PREFIX: &'static str = "es:l2:channel-root:";

/// Domain-separation prefix for the per-channel data key derivation.
pub const CHANNEL_DATA_HKDF_PREFIX: &'static str = "es:l2:channel-data:";

/// Reserved channel value for the space's root line: the plane of tables
/// without channels. Real channels have identifiers from 0 up.
pub const ROOT_CHANNEL: i64 = i64::MIN;

/// Identifies a data key: which channel (or [`ROOT_CHANNEL`]) and which epoch
/// sequence.
#[derive(Clone, Copy, Debug, PartialEq, Eq, Hash, Structural)]
pub struct TreeKeyId {
    pub channel: i64,
    pub seq: u64,
}

impl TreeKeyId {
    pub fn new(channel: i64, seq: u64) -> (r: Self)
        ensures
            r.channel == channel,
            r.seq == seq,
    {
        TreeKeyId { channel, seq }
    }

    /// A key id on the root line.
    pub fn root(seq: u64) -> (r: Self)
        ensures
            r.channel == ROOT_CHANNEL,
            r.seq == seq,
            r.on_root_line(),
    {
        TreeKeyId { channel: ROOT_CHANNEL, seq }
    }

    pub open spec fn on_root_line(self) -> bool {
        self.channel == ROOT_CHANNEL
    }

    pub fn is_root(&self) -> (r: bool)
        ensures
            r == self.on_root_line(),
    {
        self.channel == ROOT_CHANNEL
    }

    /// The key id in words: the line, then the sequence number.
    pub open spec fn label_text(self) -> Seq<char> {
        if self.on_root_line() {
            "root:"@ + text::int_text(self.seq as int)
        } else {
            "ch"@ + text::int_text(self.channel as int) + ":"@ + text::int_text(self.seq as int)
        }
    }

    /// The key id in words.
    pub fn label(&self) -> (r: String)
        ensures
            r@ == self.label_text(),
    {
        if self.is_root() {
            let mut out = "root:".to_owned();
            append_u64(&mut out, self.seq);
            out
        } else {
            let mut out = "ch".to_owned();
            append_i64(&mut out, self.channel);
            out.append(":");
            append_u64(&mut out, self.seq);
            out
        }
    }
}

/// No channel is taken for the root line.
pub proof fn law_channels_are_not_the_root_line(channel: i64, seq: u64)
    requires
        channel >= 0,
    ensures
        !(TreeKeyId { channel, seq }).on_root_line(),
{
}

/// A derivation step that is still to be made: from which key, under which tag.
#[derive(Debug, PartialEq, Eq)]
pub struct Derivation {
    pub parent: KeyMaterial,
    pub tag: String,
}

/// The tag under which a channel's subtree key is derived.
pub open spec fn channel_root_tag(channel: i64) -> Seq<char> {
    CHANNEL_ROOT_TAG_PREFIX@ + text::int_text(channel as int)
}

/// Distinct channels are derived under distinct tags.
pub proof fn law_channel_tags_are_distinct(a: i64, b: i64)
    requires
        channel_root_tag(a) == channel_root_tag(b),
    ensures
        a == b,
{
    let n = CHANNEL_ROOT_TAG_PREFIX@.len() as int;
    assert(channel_root_tag(a).skip(n) =~= text::int_text(a as int));
    assert(channel_root_tag(b).skip(n) =~= text::int_text(b as int));
    text::lemma_int_text_injective(a as int, b as int);
}

/// The tag under which a channel's subtree key is derived, and which a proof
/// of a channel grant speaks of.
pub fn channel_grant_tag(channel: i64) -> (r: String)
    ensures
        r@ == channel_root_tag(channel),
{
    let mut tag = CHANNEL_ROOT_TAG_PREFIX.to_owned();
    append_i64(&mut tag, channel);
    tag
}

/// The derivation of a channel's subtree key from a group key.
pub fn channel_root(group_key: &KeyMaterial, channel: i64) -> (r: Derivation)
    ensures
        r.parent@ == group_key@,
        r.tag@ == channel_root_tag(channel),
{
    Derivation { parent: group_key.clone(), tag: channel_grant_tag(channel) }
}

/// The 32 bytes that HKDF-SHA256 without salt, from the crates `hkdf` and
/// `sha2`, expands from the key material `ikm` for the info text `info`.
pub uninterp spec fn hkdf_sha256(ikm: Seq<u8>, info: Seq<char>) -> Seq<u8>;

/// `Hkdf::<Sha256>::new(None, ikm)` followed by `expand` to 32 bytes, from the
/// crate `hkdf`. The result depends on the key material and the info text
/// alone. Expansion fails only beyond 255 blocks of 32 bytes, so it does not
/// fail here.
#[verifier::external_body]
fn hkdf_expand(ikm: &[u8], info: &str) -> (r: [u8; 32])
    ensures
        r@ == hkdf_sha256(ikm@, info@),
{
    let hkdf = hkdf::Hkdf::<sha2::Sha256>::new(None, ikm);
    let mut okm = [0u8; 32];
    hkdf.expand(info.as_bytes(), &mut okm).expect("32 bytes are within the limit");
    okm
}

/// The info text under which a channel's data key at `seq` is derived.
pub open spec fn channel_data_info(seq: u64) -> Seq<char> {
    CHANNEL_DATA_HKDF_PREFIX@ + text::int_text(seq as int)
}

/// Distinct epochs are derived under distinct info texts.
pub proof fn law_data_key_infos_are_distinct(a: u64, b: u64)
    requires
        channel_data_info(a) == channel_data_info(b),
    ensures
        a == b,
{
    let n = CHANNEL_DATA_HKDF_PREFIX@.len() as int;
    assert(channel_data_info(a).skip(n) =~= text::int_text(a as int));
    assert(channel_data_info(b).skip(n) =~= text::int_text(b as int));
    text::lemma_int_text_injective(a as int, b as int);
}

/// A channel's data key at epoch sequence `seq`, from its subtree key. Holding
/// the subtree key yields the data key of every `seq`.
pub fn channel_data_key(channel_root: &KeyMaterial, seq: u64) -> (r: [u8; 32])
    ensures
        r@ == hkdf_sha256(channel_root@, channel_data_info(seq)),
{
    let mut info = CHANNEL_DATA_HKDF_PREFIX.to_owned();
    append_u64(&mut info, seq);
    hkdf_expand(channel_root.as_bytes(), info.as_str())
}

} // verus!
