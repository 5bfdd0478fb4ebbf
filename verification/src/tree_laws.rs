//! What holds of the read plane: which data key a member reaches, and what a
//! member holds after keys were delivered or dropped.

use crate::text;
use crate::tree_keys;
use crate::tree_keys::TreeKeyId;
use crate::tree_space_key;
use crate::tree_space_key::DataKeyStepView;
use crate::keys::KeyMaterial;
use vstd::prelude::*;
use vstd::string::*;

verus! {

/// The data key of an epoch under a channel's subtree key.
pub open spec fn epoch_key(subtree: Seq<u8>, seq: u64) -> Seq<u8> {
    tree_keys::hkdf_sha256(subtree, "es:l2:channel-data:"@ + text::int_text(seq as int))
}

/// The data key of a row is expanded from the channel's subtree key for the
/// epoch in the row's own key id.
pub proof fn law_data_key_is_of_its_epoch(subtree: Seq<u8>, id: TreeKeyId)
    ensures
        tree_space_key::data_key_bytes(subtree, id) == epoch_key(subtree, id.seq),
{
}

/// Under one subtree key, rows of different epochs get keys that are expanded
/// for different info texts; rows of one epoch get the same key, whatever else
/// their ids say.
pub proof fn law_epochs_have_their_own_data_keys(subtree: Seq<u8>, a: TreeKeyId, b: TreeKeyId)
    ensures
        a.seq != b.seq ==> exists|info_a: Seq<char>, info_b: Seq<char>|
            {
                &&& info_a != info_b
                &&& tree_space_key::data_key_bytes(subtree, a)
                    == #[trigger] tree_keys::hkdf_sha256(subtree, info_a)
                &&& tree_space_key::data_key_bytes(subtree, b)
                    == #[trigger] tree_keys::hkdf_sha256(subtree, info_b)
            },
        a.seq == b.seq ==> tree_space_key::data_key_bytes(subtree, a)
            == tree_space_key::data_key_bytes(subtree, b),
{
    let prefix = "es:l2:channel-data:"@;
    let info_a = prefix + text::int_text(a.seq as int);
    let info_b = prefix + text::int_text(b.seq as int);
    law_data_key_is_of_its_epoch(subtree, a);
    law_data_key_is_of_its_epoch(subtree, b);
    if info_a == info_b {
        assert(info_a.skip(prefix.len() as int) =~= text::int_text(a.seq as int));
        assert(info_b.skip(prefix.len() as int) =~= text::int_text(b.seq as int));
        text::lemma_int_text_injective(a.seq as int, b.seq as int);
    }
    assert(tree_space_key::data_key_bytes(subtree, a) == tree_keys::hkdf_sha256(subtree, info_a));
    assert(tree_space_key::data_key_bytes(subtree, b) == tree_keys::hkdf_sha256(subtree, info_b));
}

/// What surrounds the read plane: the data keys of the root line, the group key
/// of each epoch, and the derivation of subtree keys.
pub struct KeyWorld {
    pub root_line: spec_fn(u64) -> Seq<u8>,
    pub group_key: spec_fn(u64) -> Seq<u8>,
    pub derive: spec_fn(Seq<u8>, Seq<char>) -> Seq<u8>,
}

impl KeyWorld {
    /// A channel's subtree key in an epoch.
    pub open spec fn subtree(self, channel: i64, epoch: u64) -> Seq<u8> {
        (self.derive)(
            (self.group_key)(epoch),
            "es:l2:channel-root:"@ + text::int_text(channel as int),
        )
    }

    /// The data key that a step leads to, for the row with key id `id`.
    pub open spec fn reached(self, step: DataKeyStepView, id: TreeKeyId) -> Seq<u8> {
        match step {
            DataKeyStepView::Ready(key) => key,
            DataKeyStepView::RootLine { seq } => (self.root_line)(seq),
            DataKeyStepView::Derive { epoch, tag } => tree_space_key::data_key_bytes(
                (self.derive)((self.group_key)(epoch), tag),
                id,
            ),
        }
    }
}

/// A full member reaches, for every key id, the data key of that id: of the root
/// line at its sequence number, or of the channel's subtree in the group key of
/// the row's own epoch.
pub proof fn law_full_member_reaches_the_data_key(
    world: KeyWorld,
    keys: Map<(i64, u64), Seq<u8>>,
    id: TreeKeyId,
)
    ensures
        tree_space_key::data_key_step(true, keys, id) is Some,
        world.reached(tree_space_key::data_key_step(true, keys, id)->Some_0, id) == (
        if id.channel == i64::MIN {
            (world.root_line)(id.seq)
        } else {
            epoch_key(world.subtree(id.channel, id.seq), id.seq)
        }),
{
}

/// A scoped member reaches the data key of a channel and epoch from the key that
/// was delivered for exactly these, and nothing without it; the root line is
/// always out of reach.
pub proof fn law_scoped_member_reaches_the_data_key(
    world: KeyWorld,
    keys: Map<(i64, u64), Seq<u8>>,
    id: TreeKeyId,
)
    ensures
        ({
            let step = tree_space_key::data_key_step(false, keys, id);
            &&& step is Some <==> id.channel != i64::MIN && keys.dom().contains(
                (id.channel, id.seq),
            )
            &&& step is Some ==> world.reached(step->Some_0, id) == epoch_key(
                keys[(id.channel, id.seq)],
                id.seq,
            )
        }),
{
}

/// Members agree: who was delivered a channel's true subtree key for an epoch
/// reaches the very data key that a full member reaches, so that each reads the
/// other's rows.
pub proof fn law_members_reach_the_same_data_key(
    world: KeyWorld,
    full_keys: Map<(i64, u64), Seq<u8>>,
    scoped_keys: Map<(i64, u64), Seq<u8>>,
    id: TreeKeyId,
)
    requires
        id.channel != i64::MIN,
        scoped_keys.dom().contains((id.channel, id.seq)),
        scoped_keys[(id.channel, id.seq)] == world.subtree(id.channel, id.seq),
    ensures
        ({
            let full = tree_space_key::data_key_step(true, full_keys, id);
            let scoped = tree_space_key::data_key_step(false, scoped_keys, id);
            &&& full is Some
            &&& scoped is Some
            &&& world.reached(full->Some_0, id) == world.reached(scoped->Some_0, id)
        }),
{
}

/// Dropping a channel leaves the keys of all other channels, all epochs of them,
/// and none of its own.
pub proof fn law_dropping_takes_one_channel(keys: Map<(i64, u64), Seq<u8>>, channel: i64)
    ensures
        ({
            let left = tree_space_key::without_channel(keys, channel);
            &&& forall|c: i64, epoch: u64| #[trigger]
                left.dom().contains((c, epoch)) <==> keys.dom().contains((c, epoch)) && c != channel
            &&& forall|c: i64, epoch: u64| #[trigger]
                left.dom().contains((c, epoch)) ==> left[(c, epoch)] == keys[(c, epoch)]
        }),
{
}

/// A list of delivered keys stands for a key for each channel and epoch in it
/// and for no other; where one is listed several times, the last counts.
pub proof fn law_last_delivered_key_counts(pairs: Seq<((i64, u64), KeyMaterial)>)
    ensures
        forall|id: (i64, u64)| #[trigger]
            tree_space_key::delivered_map(pairs).dom().contains(id) <==> exists|i: int|
                0 <= i < pairs.len() && (#[trigger] pairs[i]).0 == id,
        forall|i: int|
            0 <= i < pairs.len() && (forall|j: int|
                i < j < pairs.len() ==> (#[trigger] pairs[j]).0 != pairs[i].0)
                ==> tree_space_key::delivered_map(pairs)[(#[trigger] pairs[i]).0] == pairs[i].1@,
    decreases pairs.len(),
{
    if pairs.len() > 0 {
        let rest = pairs.drop_last();
        let last = pairs.len() - 1;
        law_last_delivered_key_counts(rest);
        assert(pairs[last] == pairs.last());
        assert forall|i: int| 0 <= i < rest.len() implies #[trigger] rest[i] == pairs[i] by {}
        assert forall|id: (i64, u64)| #[trigger]
            tree_space_key::delivered_map(pairs).dom().contains(id) <==> exists|i: int|
                0 <= i < pairs.len() && (#[trigger] pairs[i]).0 == id by {
            if tree_space_key::delivered_map(rest).dom().contains(id) {
                let i = choose|i: int| 0 <= i < rest.len() && (#[trigger] rest[i]).0 == id;
                assert(pairs[i].0 == id);
            }
            if exists|i: int| 0 <= i < pairs.len() && (#[trigger] pairs[i]).0 == id {
                let i = choose|i: int| 0 <= i < pairs.len() && (#[trigger] pairs[i]).0 == id;
                if i < last {
                    assert(rest[i].0 == id);
                }
            }
        }
        assert forall|i: int|
            0 <= i < pairs.len() && (forall|j: int|
                i < j < pairs.len() ==> (#[trigger] pairs[j]).0 != pairs[i].0) implies
            tree_space_key::delivered_map(pairs)[(#[trigger] pairs[i]).0] == pairs[i].1@ by {
            if i < last {
                assert(pairs[last].0 != pairs[i].0);
                assert forall|j: int| i < j < rest.len() implies (#[trigger] rest[j]).0
                    != rest[i].0 by {
                    assert(pairs[j].0 != pairs[i].0);
                }
                assert(rest[i] == pairs[i]);
            }
        }
    }
}

/// The tag of a channel's derivation is the prefix and the channel's own number;
/// the info text of an epoch's data key is the prefix and the epoch's own
/// number.
pub proof fn law_tags_name_what_they_are_for(channel: i64, seq: u64)
    ensures
        tree_keys::channel_root_tag(channel) == "es:l2:channel-root:"@ + text::int_text(
            channel as int,
        ),
        tree_keys::channel_data_info(seq) == "es:l2:channel-data:"@ + text::int_text(seq as int),
{
}

/// A key id in words names its line and its sequence number, so that no two ids
/// share a name.
pub proof fn law_labels_are_distinct(a: TreeKeyId, b: TreeKeyId)
    ensures
        a.label_text() == b.label_text() <==> a == b,
        a.channel == i64::MIN ==> a.label_text() == "root:"@ + text::int_text(a.seq as int),
        a.channel != i64::MIN ==> a.label_text() == "ch"@ + text::int_text(a.channel as int)
            + ":"@ + text::int_text(a.seq as int),
{
    reveal_strlit("root:");
    reveal_strlit("ch");
    reveal_strlit(":");
    let (s, t) = (a.label_text(), b.label_text());
    if s == t {
        assert(s[0] == if a.channel == i64::MIN {
            'r'
        } else {
            'c'
        });
        assert(t[0] == if b.channel == i64::MIN {
            'r'
        } else {
            'c'
        });
        if a.channel == i64::MIN {
            assert(s.skip(5) =~= text::int_text(a.seq as int));
            assert(t.skip(5) =~= text::int_text(b.seq as int));
            text::lemma_int_text_injective(a.seq as int, b.seq as int);
        } else {
            let (x, y) = (text::int_text(a.channel as int), text::int_text(b.channel as int));
            text::lemma_int_text_chars(a.channel as int);
            text::lemma_int_text_chars(b.channel as int);
            let (m, n) = (x.len() as int, y.len() as int);
            assert(s[2 + m] == ':');
            assert(t[2 + n] == ':');
            if m < n {
                assert(t[2 + m] == y[m]);
            }
            if n < m {
                assert(s[2 + n] == x[n]);
            }
            assert(s.subrange(2, 2 + m) =~= x);
            assert(t.subrange(2, 2 + m) =~= y);
            text::lemma_int_text_injective(a.channel as int, b.channel as int);
            assert(s.skip(3 + m) =~= text::int_text(a.seq as int));
            assert(t.skip(3 + m) =~= text::int_text(b.seq as int));
            text::lemma_int_text_injective(a.seq as int, b.seq as int);
        }
    }
}

} // verus!
