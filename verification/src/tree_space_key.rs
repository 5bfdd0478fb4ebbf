//! The tree read plane: what a member can read.
//!
//! A channel is a node in the retention key tree, rooted at the group key. A
//! row of a channel is encrypted under the channel's data key of the epoch it
//! was written in.
//!
//! - A full member holds the group key, so it derives any channel's key.
//! - A scoped member holds no group key, only the channel keys delivered to it,
//!   and reads exactly those channels and epochs.

use crate::keys::{KeyCommitment, KeyManagerError, KeyMaterial};
use crate::stark_proofs;
use crate::stark_proofs::{
    ChannelGrantProofInput, ChannelGrantVerifyInput, ProofRequest, StarkProver,
};
use crate::transitions::KeyTreeTransition;
use crate::tree_keys;
use crate::tree_keys::{
    channel_data_key, channel_grant_tag, channel_root, Derivation, TreeKeyId,
};
use vstd::prelude::*;
use vstd::string::*;

verus! {

/// A delivered channel subtree key.
#[derive(Debug, PartialEq, Eq)]
struct ChannelKey {
    channel: i64,
    epoch: u64,
    key: KeyMaterial,
}

/// Either a full member (holds the group key) or a scoped member (holds only
/// delivered channel keys).
#[derive(Debug, PartialEq, Eq)]
pub struct TreeSpaceKey {
    /// The current group key; none for a scoped member.
    group: Option<KeyMaterial>,
    /// Delivered channel keys, each for one epoch, so that the key of a new
    /// epoch does not push out the one for rows of an earlier epoch. Empty for
    /// a full member.
    channel_keys: Vec<ChannelKey>,
}

/// The keys that a list spells out; later entries win.
spec fn keys_map(keys: Seq<ChannelKey>) -> Map<(i64, u64), Seq<u8>>
    decreases keys.len(),
{
    if keys.len() == 0 {
        Map::empty()
    } else {
        keys_map(keys.drop_last()).insert((keys.last().channel, keys.last().epoch), keys.last().key@)
    }
}

/// The delivered channel keys, by channel and epoch.
impl View for TreeSpaceKey {
    type V = Map<(i64, u64), Seq<u8>>;

    closed spec fn view(&self) -> Map<(i64, u64), Seq<u8>> {
        keys_map(self.channel_keys@)
    }
}

/// The keys of all channels but one.
pub open spec fn without_channel(keys: Map<(i64, u64), Seq<u8>>, channel: i64) -> Map<
    (i64, u64),
    Seq<u8>,
> {
    Map::new(|id: (i64, u64)| keys.dom().contains(id) && id.0 != channel, |id: (i64, u64)| keys[id])
}

/// The map that a list of delivered keys spells out; later entries win.
pub open spec fn delivered_map(pairs: Seq<((i64, u64), KeyMaterial)>) -> Map<(i64, u64), Seq<u8>>
    decreases pairs.len(),
{
    if pairs.len() == 0 {
        Map::empty()
    } else {
        delivered_map(pairs.drop_last()).insert(pairs.last().0, pairs.last().1@)
    }
}

/// What is still needed for a data key.
#[derive(Debug, PartialEq, Eq)]
pub enum DataKeyStep {
    /// The data key itself.
    Ready([u8; 32]),
    /// The data key of the root line at this sequence number.
    RootLine { seq: u64 },
    /// The key derived under `tag` from the group key of `epoch`: a channel's
    /// subtree key.
    Derive { epoch: u64, tag: String },
}

#[verifier::ext_equal]
pub enum DataKeyStepView {
    Ready(Seq<u8>),
    RootLine { seq: u64 },
    Derive { epoch: u64, tag: Seq<char> },
}

impl View for DataKeyStep {
    type V = DataKeyStepView;

    open spec fn view(&self) -> DataKeyStepView {
        match self {
            DataKeyStep::Ready(key) => DataKeyStepView::Ready(key@),
            DataKeyStep::RootLine { seq } => DataKeyStepView::RootLine { seq: *seq },
            DataKeyStep::Derive { epoch, tag } => DataKeyStepView::Derive {
                epoch: *epoch,
                tag: tag@,
            },
        }
    }
}

/// How a member comes by the data key `id`; `None` where it is out of reach. A
/// full member derives a channel's key from the group key of the row's own
/// epoch; a scoped member must have been delivered it for that epoch.
pub open spec fn data_key_step(full: bool, keys: Map<(i64, u64), Seq<u8>>, id: TreeKeyId) -> Option<
    DataKeyStepView,
> {
    if id.on_root_line() {
        if full {
            Some(DataKeyStepView::RootLine { seq: id.seq })
        } else {
            None
        }
    } else if full {
        Some(
            DataKeyStepView::Derive {
                epoch: id.seq,
                tag: tree_keys::channel_root_tag(id.channel),
            },
        )
    } else if keys.dom().contains((id.channel, id.seq)) {
        Some(DataKeyStepView::Ready(data_key_bytes(keys[(id.channel, id.seq)], id)))
    } else {
        None
    }
}

/// The data key `id` under a channel subtree key.
pub open spec fn data_key_bytes(subtree: Seq<u8>, id: TreeKeyId) -> Seq<u8> {
    tree_keys::hkdf_sha256(subtree, tree_keys::channel_data_info(id.seq))
}

/// What a member has to do to hold the current group key.
#[derive(Clone, Copy, Debug, PartialEq, Eq, Structural)]
pub enum SyncStep {
    /// Nothing: there is no group key to hold.
    AlreadyCurrent,
    /// Bring the group line up to date.
    SyncLine,
}

proof fn lemma_replace(keys: Seq<ChannelKey>, i: int, entry: ChannelKey)
    requires
        0 <= i < keys.len(),
        keys[i].channel == entry.channel,
        keys[i].epoch == entry.epoch,
        forall|j: int|
            i < j < keys.len() ==> !((#[trigger] keys[j]).channel == entry.channel
                && keys[j].epoch == entry.epoch),
    ensures
        keys_map(keys.update(i, entry)) == keys_map(keys).insert(
            (entry.channel, entry.epoch),
            entry.key@,
        ),
    decreases keys.len(),
{
    let updated = keys.update(i, entry);
    let last = keys.len() - 1;
    let expected = keys_map(keys).insert((entry.channel, entry.epoch), entry.key@);
    if i == last {
        assert(updated.drop_last() =~= keys.drop_last());
    } else {
        assert(updated.drop_last() =~= keys.drop_last().update(i, entry));
        lemma_replace(keys.drop_last(), i, entry);
        assert(!(keys[last].channel == entry.channel && keys[last].epoch == entry.epoch));
    }
    assert(keys_map(updated) =~= expected);
}

proof fn lemma_keys_dom(keys: Seq<ChannelKey>, id: (i64, u64))
    ensures
        keys_map(keys).dom().contains(id) <==> exists|i: int|
            0 <= i < keys.len() && (#[trigger] keys[i]).channel == id.0 && keys[i].epoch == id.1,
    decreases keys.len(),
{
    if keys.len() > 0 {
        let rest = keys.drop_last();
        let last = keys.len() - 1;
        lemma_keys_dom(rest, id);
        assert forall|i: int| 0 <= i < rest.len() implies #[trigger] rest[i] == keys[i] by {}
        if keys_map(rest).dom().contains(id) {
            let i = choose|i: int|
                0 <= i < rest.len() && (#[trigger] rest[i]).channel == id.0 && rest[i].epoch
                    == id.1;
            assert(keys[i].channel == id.0 && keys[i].epoch == id.1);
        }
        if exists|i: int|
            0 <= i < keys.len() && (#[trigger] keys[i]).channel == id.0 && keys[i].epoch == id.1 {
            let i = choose|i: int|
                0 <= i < keys.len() && (#[trigger] keys[i]).channel == id.0 && keys[i].epoch
                    == id.1;
            if i < last {
                assert(rest[i].channel == id.0 && rest[i].epoch == id.1);
            }
        }
    }
}

/// Whether the channels are in ascending order, each once.
pub open spec fn ascending(channels: Seq<i64>) -> bool {
    forall|i: int, j: int| 0 <= i < j < channels.len() ==> channels[i] < channels[j]
}

/// Adds `channel` in its place, if it is not there.
fn insert_sorted(channels: &mut Vec<i64>, channel: i64)
    requires
        ascending(old(channels)@),
    ensures
        ascending(final(channels)@),
        forall|c: i64| #[trigger]
            final(channels)@.contains(c) <==> old(channels)@.contains(c) || c == channel,
{
    let ghost before = channels@;
    let mut at: usize = 0;
    while at < channels.len() && channels[at] < channel
        invariant
            channels@ == before,
            ascending(before),
            at <= channels@.len(),
            forall|i: int| 0 <= i < at ==> before[i] < channel,
        decreases channels@.len() - at,
    {
        at = at + 1;
    }
    if at < channels.len() && channels[at] == channel {
        assert(before[at as int] == channel);
        return;
    }
    channels.insert(at, channel);
    proof {
        let after = channels@;
        assert(after == before.insert(at as int, channel));
        assert forall|c: i64| #[trigger] after.contains(c) <==> before.contains(c) || c
            == channel by {
            if before.contains(c) {
                let i = choose|i: int| 0 <= i < before.len() && before[i] == c;
                if i < at {
                    assert(after[i] == c);
                } else {
                    assert(after[i + 1] == c);
                }
            }
            assert(after[at as int] == channel);
            if after.contains(c) {
                let i = choose|i: int| 0 <= i < after.len() && after[i] == c;
                if i < at {
                    assert(before[i] == c);
                } else if i > at {
                    assert(before[i - 1] == c);
                }
            }
        }
    }
}

impl Clone for TreeSpaceKey {
    fn clone(&self) -> (r: Self)
        ensures
            r@ == self@,
            r.group_key() == self.group_key(),
    {
        let group = match &self.group {
            Some(key) => Some(key.clone()),
            None => None,
        };
        let ghost all = self.channel_keys@;
        let mut channel_keys: Vec<ChannelKey> = Vec::new();
        let mut i: usize = 0;
        assert(all.take(0) =~= Seq::<ChannelKey>::empty());
        while i < self.channel_keys.len()
            invariant
                all == self.channel_keys@,
                i <= all.len(),
                keys_map(channel_keys@) == keys_map(all.take(i as int)),
            decreases all.len() - i,
        {
            let entry = &self.channel_keys[i];
            let ghost before = channel_keys@;
            assert(all.take(i + 1).drop_last() =~= all.take(i as int));
            channel_keys.push(
                ChannelKey { channel: entry.channel, epoch: entry.epoch, key: entry.key.clone() },
            );
            assert(channel_keys@.drop_last() =~= before);
            i = i + 1;
        }
        assert(all.take(i as int) =~= all);
        TreeSpaceKey { group, channel_keys }
    }
}

impl TreeSpaceKey {
    /// The group key that the member holds.
    pub closed spec fn group_key(&self) -> Option<Seq<u8>> {
        match self.group {
            Some(key) => Some(key@),
            None => None,
        }
    }

    /// A full member at the start of a new group line.
    pub fn new(group_key: KeyMaterial) -> (r: Self)
        ensures
            r.group_key() == Some(group_key@),
            r@ == Map::<(i64, u64), Seq<u8>>::empty(),
    {
        TreeSpaceKey { group: Some(group_key), channel_keys: Vec::new() }
    }

    /// A full member that was given the group key.
    pub fn from_group_key(group_key: KeyMaterial) -> (r: Self)
        ensures
            r.group_key() == Some(group_key@),
            r@ == Map::<(i64, u64), Seq<u8>>::empty(),
    {
        TreeSpaceKey { group: Some(group_key), channel_keys: Vec::new() }
    }

    /// A scoped member that holds only the given keys, by channel and epoch.
    pub fn scoped(channel_keys: Vec<((i64, u64), KeyMaterial)>) -> (r: Self)
        ensures
            r.group_key() is None,
            r@ == delivered_map(channel_keys@),
    {
        TreeSpaceKey::restored(None, channel_keys)
    }

    /// A member as it was stored: by its group key, if it has one, and the keys
    /// delivered to it.
    pub fn restored(
        group: Option<KeyMaterial>,
        channel_keys: Vec<((i64, u64), KeyMaterial)>,
    ) -> (r: Self)
        ensures
            r.group_key() == (match group {
                Some(key) => Some(key@),
                None => None,
            }),
            r@ == delivered_map(channel_keys@),
    {
        let ghost all = channel_keys@;
        let mut r = TreeSpaceKey { group, channel_keys: Vec::new() };
        let ghost group_key = r.group_key();
        for pair in it: channel_keys
            invariant
                it.seq() == all,
                r.group_key() == group_key,
                r@ == delivered_map(all.take(it.index() as int)),
        {
            proof {
                assert(all.take(it.index() + 1).drop_last() =~= all.take(it.index() as int));
                assert(all.take(it.index() + 1).last() == pair);
            }
            let ((channel, epoch), key) = pair;
            r.install_channel_key(channel, epoch, key);
        }
        assert(all.take(all.len() as int) =~= all);
        r
    }

    /// The delivered channel keys, by channel and epoch.
    pub fn delivered_keys(&self) -> (r: Vec<((i64, u64), KeyMaterial)>)
        ensures
            delivered_map(r@) == self@,
    {
        let ghost all = self.channel_keys@;
        let mut pairs: Vec<((i64, u64), KeyMaterial)> = Vec::new();
        let mut i: usize = 0;
        while i < self.channel_keys.len()
            invariant
                all == self.channel_keys@,
                i <= all.len(),
                delivered_map(pairs@) == keys_map(all.take(i as int)),
            decreases all.len() - i,
        {
            let entry = &self.channel_keys[i];
            let ghost before = pairs@;
            assert(all.take(i + 1).drop_last() =~= all.take(i as int));
            pairs.push(((entry.channel, entry.epoch), entry.key.clone()));
            assert(pairs@.drop_last() =~= before);
            i = i + 1;
        }
        assert(all.take(i as int) =~= all);
        pairs
    }

    /// Whether this member holds the group key.
    pub fn is_full(&self) -> (r: bool)
        ensures
            r == self.group_key() is Some,
    {
        self.group.is_some()
    }

    /// The position of the last entry for a channel and epoch.
    fn position(&self, channel: i64, epoch: u64) -> (r: Option<usize>)
        ensures
            match r {
                Some(i) => {
                    let keys = self.channel_keys@;
                    &&& i < keys.len()
                    &&& keys[i as int].channel == channel
                    &&& keys[i as int].epoch == epoch
                    &&& self@.dom().contains((channel, epoch))
                    &&& self@[(channel, epoch)] == keys[i as int].key@
                    &&& forall|j: int|
                        i < j < keys.len() ==> !((#[trigger] keys[j]).channel == channel
                            && keys[j].epoch == epoch)
                },
                None => !self@.dom().contains((channel, epoch)),
            },
    {
        let ghost keys = self.channel_keys@;
        let mut i: usize = self.channel_keys.len();
        assert(keys.take(i as int) =~= keys);
        while i > 0
            invariant
                keys == self.channel_keys@,
                i <= keys.len(),
                forall|j: int|
                    i <= j < keys.len() ==> !((#[trigger] keys[j]).channel == channel
                        && keys[j].epoch == epoch),
                self@.dom().contains((channel, epoch)) == keys_map(
                    keys.take(i as int),
                ).dom().contains((channel, epoch)),
                self@[(channel, epoch)] == keys_map(keys.take(i as int))[(channel, epoch)],
            decreases i,
        {
            i = i - 1;
            assert(keys.take(i + 1).drop_last() =~= keys.take(i as int));
            let entry = &self.channel_keys[i];
            if entry.channel == channel && entry.epoch == epoch {
                return Some(i);
            }
        }
        assert(keys.take(0) =~= Seq::<ChannelKey>::empty());
        None
    }

    /// The delivered key of a channel for an epoch.
    pub fn channel_key(&self, channel: i64, epoch: u64) -> (r: Option<&KeyMaterial>)
        ensures
            match r {
                Some(key) => self@.dom().contains((channel, epoch)) && self@[(channel, epoch)]
                    == key@,
                None => !self@.dom().contains((channel, epoch)),
            },
    {
        match self.position(channel, epoch) {
            Some(i) => Some(&self.channel_keys[i].key),
            None => None,
        }
    }

    /// The channels that a scoped member holds keys of, in ascending order,
    /// each once however many epochs of it are held.
    pub fn scoped_channels(&self) -> (r: Vec<i64>)
        ensures
            ascending(r@),
            forall|i: int, j: int| 0 <= i < j < r@.len() ==> r@[i] < r@[j],
            forall|c: i64| #[trigger]
                r@.contains(c) <==> exists|epoch: u64| #[trigger] self@.dom().contains((c, epoch)),
    {
        let ghost keys = self.channel_keys@;
        let mut channels: Vec<i64> = Vec::new();
        let mut i: usize = 0;
        while i < self.channel_keys.len()
            invariant
                keys == self.channel_keys@,
                i <= keys.len(),
                ascending(channels@),
                forall|c: i64| #[trigger]
                    channels@.contains(c) <==> exists|j: int|
                        0 <= j < i && (#[trigger] keys[j]).channel == c,
            decreases keys.len() - i,
        {
            insert_sorted(&mut channels, self.channel_keys[i].channel);
            i = i + 1;
        }
        proof {
            assert forall|c: i64| #[trigger]
                channels@.contains(c) <==> exists|epoch: u64| #[trigger]
                    self@.dom().contains((c, epoch)) by {
                if channels@.contains(c) {
                    let j = choose|j: int| 0 <= j < i && (#[trigger] keys[j]).channel == c;
                    lemma_keys_dom(keys, (c, keys[j].epoch));
                    assert(self@.dom().contains((c, keys[j].epoch)));
                }
                if exists|epoch: u64| #[trigger] self@.dom().contains((c, epoch)) {
                    let epoch = choose|epoch: u64| #[trigger] self@.dom().contains((c, epoch));
                    lemma_keys_dom(keys, (c, epoch));
                }
            }
        }
        channels
    }

    /// Install a delivered channel subtree key for an epoch. Other epochs and
    /// other channels are kept.
    pub fn install_channel_key(&mut self, channel: i64, epoch: u64, key: KeyMaterial)
        ensures
            final(self)@ == old(self)@.insert((channel, epoch), key@),
            final(self).group_key() == old(self).group_key(),
    {
        let entry = ChannelKey { channel, epoch, key };
        match self.position(channel, epoch) {
            Some(i) => {
                proof {
                    lemma_replace(self.channel_keys@, i as int, entry);
                }
                self.channel_keys.set(i, entry);
            },
            None => {
                self.channel_keys.push(entry);
                assert(self.channel_keys@.drop_last() =~= old(self).channel_keys@);
            },
        }
    }

    /// Drop a channel's keys: read revocation. All epochs go, so that no stale
    /// key stays behind.
    pub fn drop_channel_key(&mut self, channel: i64)
        ensures
            final(self)@ == without_channel(old(self)@, channel),
            final(self).group_key() == old(self).group_key(),
    {
        let ghost all = self.channel_keys@;
        let mut kept: Vec<ChannelKey> = Vec::new();
        let mut i: usize = 0;
        assert(all.take(0) =~= Seq::<ChannelKey>::empty());
        assert(keys_map(kept@) =~= without_channel(keys_map(all.take(0)), channel));
        while i < self.channel_keys.len()
            invariant
                all == self.channel_keys@,
                i <= all.len(),
                keys_map(kept@) == without_channel(keys_map(all.take(i as int)), channel),
            decreases all.len() - i,
        {
            let entry = &self.channel_keys[i];
            let ghost before = kept@;
            assert(all.take(i + 1).drop_last() =~= all.take(i as int));
            if entry.channel != channel {
                kept.push(
                    ChannelKey {
                        channel: entry.channel,
                        epoch: entry.epoch,
                        key: entry.key.clone(),
                    },
                );
                assert(kept@.drop_last() =~= before);
            }
            assert(keys_map(kept@) =~= without_channel(keys_map(all.take(i + 1)), channel));
            i = i + 1;
        }
        assert(all.take(i as int) =~= all);
        self.channel_keys = kept;
    }

    /// The group key, or an error for a scoped member.
    pub fn group_ref(&self) -> (r: Result<&KeyMaterial, KeyManagerError>)
        ensures
            match self.group_key() {
                Some(key) => r is Ok && r->Ok_0@ == key,
                None => r is Err,
            },
    {
        match &self.group {
            Some(key) => Ok(key),
            None => Err(KeyManagerError),
        }
    }

    /// The derivation of a channel's subtree key from the current group key,
    /// for delivery to a scoped member. Full members only.
    pub fn channel_subtree_key(&self, channel: i64) -> (r: Option<Derivation>)
        ensures
            match self.group_key() {
                Some(key) => r is Some && r->Some_0.parent@ == key && r->Some_0.tag@
                    == tree_keys::channel_root_tag(channel),
                None => r is None,
            },
    {
        match &self.group {
            Some(key) => Some(channel_root(key, channel)),
            None => None,
        }
    }

    /// What is to be proved for a grant of `channel` under an explicit group
    /// key, such as the new one during a rekey: that the subtree key with the
    /// given commitment is derived from the group key for this channel.
    pub fn channel_grant_for_group_key(
        &self,
        group_key: &KeyMaterial,
        group_commitment: KeyCommitment,
        channel: i64,
        channel_key: &KeyMaterial,
        channel_commitment: KeyCommitment,
    ) -> (r: ProofRequest)
        ensures
            r.transition@ == stark_proofs::channel_grant_steps(
                channel,
                group_commitment@,
                channel_commitment@,
            ),
            r.keys@ == stark_proofs::channel_grant_keys(group_key@, channel_key@),
    {
        StarkProver.prove_channel_grant(
            ChannelGrantProofInput {
                channel,
                group_key: group_key.clone(),
                group_commitment,
                channel_key: channel_key.clone(),
                channel_commitment,
            },
        )
    }

    /// What is to be proved for a grant of `channel` under the current group
    /// key. Full members only.
    pub fn prove_channel_grant(
        &self,
        group_commitment: KeyCommitment,
        channel: i64,
        channel_key: &KeyMaterial,
        channel_commitment: KeyCommitment,
    ) -> (r: Option<ProofRequest>)
        ensures
            match self.group_key() {
                Some(key) => {
                    &&& r is Some
                    &&& r->Some_0.transition@ == stark_proofs::channel_grant_steps(
                        channel,
                        group_commitment@,
                        channel_commitment@,
                    )
                    &&& r->Some_0.keys@ == stark_proofs::channel_grant_keys(key, channel_key@)
                },
                None => r is None,
            },
    {
        match &self.group {
            Some(key) => Some(
                self.channel_grant_for_group_key(
                    key,
                    group_commitment,
                    channel,
                    channel_key,
                    channel_commitment,
                ),
            ),
            None => None,
        }
    }

    /// The key id of the root line at the sequence number that the group line
    /// reports. Full members only.
    pub fn current_key_id(&self, line_seq: Option<u64>) -> (r: Result<TreeKeyId, KeyManagerError>)
        ensures
            match line_seq {
                Some(seq) => if self.group_key() is Some {
                    r is Ok && r->Ok_0.on_root_line() && r->Ok_0.seq == seq
                } else {
                    r is Err
                },
                None => r is Err,
            },
    {
        match self.group_ref() {
            Ok(_) => match line_seq {
                Some(seq) => Ok(TreeKeyId::root(seq)),
                None => Err(KeyManagerError),
            },
            Err(e) => Err(e),
        }
    }

    /// The key id of the root line after the group line was extended to the
    /// sequence number reported. Full members only.
    pub fn extend(&self, line_seq: Option<u64>) -> (r: Result<TreeKeyId, KeyManagerError>)
        ensures
            match line_seq {
                Some(seq) => if self.group_key() is Some {
                    r is Ok && r->Ok_0.on_root_line() && r->Ok_0.seq == seq
                } else {
                    r is Err
                },
                None => r is Err,
            },
    {
        self.current_key_id(line_seq)
    }

    /// The sequence number before which the group line is to be reduced. Full
    /// members only.
    pub fn reduce(&self, before: &TreeKeyId) -> (r: Result<u64, KeyManagerError>)
        ensures
            if self.group_key() is Some {
                r == Ok::<u64, KeyManagerError>(before.seq)
            } else {
                r is Err
            },
    {
        match self.group_ref() {
            Ok(_) => Ok(before.seq),
            Err(e) => Err(e),
        }
    }

    /// How to come by a data key. Out of scope is an error.
    pub fn data_key_for_key_id(&self, key_id: &TreeKeyId) -> (r: Result<
        DataKeyStep,
        KeyManagerError,
    >)
        ensures
            match data_key_step(self.group_key() is Some, self@, *key_id) {
                Some(step) => r is Ok && r->Ok_0@ == step,
                None => r is Err,
            },
    {
        if key_id.is_root() {
            return match self.group_ref() {
                Ok(_) => Ok(DataKeyStep::RootLine { seq: key_id.seq }),
                Err(e) => Err(e),
            };
        }
        if self.group.is_some() {
            let tag = channel_grant_tag(key_id.channel);
            return Ok(DataKeyStep::Derive { epoch: key_id.seq, tag });
        }
        match self.channel_key(key_id.channel, key_id.seq) {
            Some(subtree) => Ok(DataKeyStep::Ready(channel_data_key(subtree, key_id.seq))),
            None => Err(KeyManagerError),
        }
    }

    /// The epoch that a new row of a channel is written in. A full member goes
    /// by the group chain, whose epoch is handed in; a scoped member by the
    /// newest key delivered to it.
    pub fn current_channel_epoch(&self, channel: i64, chain_epoch: Option<u64>) -> (r: Result<
        u64,
        KeyManagerError,
    >)
        ensures
            match self.group_key() {
                Some(_) => match chain_epoch {
                    Some(epoch) => r == Ok::<u64, KeyManagerError>(epoch),
                    None => r is Err,
                },
                None => {
                    &&& r is Ok <==> exists|epoch: u64| #[trigger]
                        self@.dom().contains((channel, epoch))
                    &&& r is Ok ==> self@.dom().contains((channel, r->Ok_0)) && forall|epoch: u64|
                        #[trigger] self@.dom().contains((channel, epoch)) ==> epoch <= r->Ok_0
                },
            },
    {
        if self.group.is_some() {
            return match chain_epoch {
                Some(epoch) => Ok(epoch),
                None => Err(KeyManagerError),
            };
        }
        let ghost keys = self.channel_keys@;
        let mut newest: Option<u64> = None;
        let mut i: usize = 0;
        while i < self.channel_keys.len()
            invariant
                keys == self.channel_keys@,
                i <= keys.len(),
                match newest {
                    Some(n) => exists|j: int|
                        0 <= j < i && (#[trigger] keys[j]).channel == channel && keys[j].epoch
                            == n,
                    None => true,
                },
                forall|j: int|
                    0 <= j < i && (#[trigger] keys[j]).channel == channel ==> newest is Some
                        && keys[j].epoch <= newest->Some_0,
            decreases keys.len() - i,
        {
            let entry = &self.channel_keys[i];
            if entry.channel == channel {
                let newer = match newest {
                    Some(n) => n < entry.epoch,
                    None => true,
                };
                if newer {
                    newest = Some(entry.epoch);
                }
            }
            i = i + 1;
        }
        proof {
            assert forall|epoch: u64| #[trigger] self@.dom().contains((channel, epoch)) implies
                newest is Some && epoch <= newest->Some_0 by {
                lemma_keys_dom(keys, (channel, epoch));
            }
            if newest is Some {
                lemma_keys_dom(keys, (channel, newest->Some_0));
                assert(self@.dom().contains((channel, newest->Some_0)));
            }
        }
        match newest {
            Some(epoch) => Ok(epoch),
            None => Err(KeyManagerError),
        }
    }

    /// Takes over a new group key that the group line has checked. A scoped
    /// member holds none, and stays as it is.
    pub fn apply_new_group_key(&mut self, new_group_key: KeyMaterial, checked: bool) -> (r: Result<
        (),
        KeyManagerError,
    >)
        ensures
            final(self)@ == old(self)@,
            r is Ok <==> old(self).group_key() is Some && checked,
            final(self).group_key() == (if r is Ok {
                Some(new_group_key@)
            } else {
                old(self).group_key()
            }),
    {
        if self.group.is_none() || !checked {
            return Err(KeyManagerError);
        }
        self.group = Some(new_group_key);
        Ok(())
    }

    /// Takes over a candidate for the group key that the group line has
    /// checked. A scoped member holds none, and stays as it is.
    pub fn recover_group_key_from_candidate(&mut self, candidate: KeyMaterial, checked: bool) -> (r:
        Result<(), KeyManagerError>)
        ensures
            final(self)@ == old(self)@,
            r is Ok <==> old(self).group_key() is Some && checked,
            final(self).group_key() == (if r is Ok {
                Some(candidate@)
            } else {
                old(self).group_key()
            }),
    {
        self.apply_new_group_key(candidate, checked)
    }

    /// Whether there is a group key to bring up to date.
    pub fn sync_group_key(&self) -> (r: SyncStep)
        ensures
            r == (if self.group_key() is Some {
                SyncStep::SyncLine
            } else {
                SyncStep::AlreadyCurrent
            }),
    {
        if self.group.is_some() {
            SyncStep::SyncLine
        } else {
            SyncStep::AlreadyCurrent
        }
    }
}

/// The data key of a channel row once the channel's subtree key has been
/// derived, or an error where that failed.
pub fn data_key_from_subtree(key_id: &TreeKeyId, subtree: Option<&KeyMaterial>) -> (r: Result<
    [u8; 32],
    KeyManagerError,
>)
    ensures
        match subtree {
            Some(key) => r is Ok && r->Ok_0@ == data_key_bytes(key@, *key_id),
            None => r is Err,
        },
{
    match subtree {
        Some(key) => Ok(channel_data_key(key, key_id.seq)),
        None => Err(KeyManagerError),
    }
}

/// The statement that a channel-grant proof is checked against: that
/// `channel_commitment` commits to the key derived for `channel` from the group
/// key with `group_commitment`.
pub fn verify_channel_grant(
    channel: i64,
    group_commitment: KeyCommitment,
    channel_commitment: KeyCommitment,
) -> (r: KeyTreeTransition)
    ensures
        r@ == stark_proofs::channel_grant_steps(
            channel,
            group_commitment@,
            channel_commitment@,
        ),
{
    StarkProver.verify_channel_grant(
        ChannelGrantVerifyInput { channel, group_commitment, channel_commitment },
    )
}

/// A full member reaches every data key, of the root line and of each channel
/// and epoch.
pub proof fn law_full_member_reads_everything(keys: Map<(i64, u64), Seq<u8>>, id: TreeKeyId)
    ensures
        data_key_step(true, keys, id) is Some,
{
}

/// A scoped member reaches a data key exactly where the channel's key was
/// delivered to it for that epoch; the root line is out of reach.
pub proof fn law_scoped_member_reads_what_was_delivered(
    keys: Map<(i64, u64), Seq<u8>>,
    id: TreeKeyId,
)
    ensures
        data_key_step(false, keys, id) is Some <==> !id.on_root_line() && keys.dom().contains(
            (id.channel, id.seq),
        ),
{
}

/// A delivered key gives a scoped member the data key that a full member gets
/// from deriving the same subtree key.
pub proof fn law_delivered_key_reads_the_same(
    keys: Map<(i64, u64), Seq<u8>>,
    id: TreeKeyId,
    subtree: Seq<u8>,
)
    requires
        !id.on_root_line(),
        keys.dom().contains((id.channel, id.seq)),
        keys[(id.channel, id.seq)] == subtree,
    ensures
        data_key_step(true, keys, id) == Some(
            DataKeyStepView::Derive {
                epoch: id.seq,
                tag: tree_keys::channel_root_tag(id.channel),
            },
        ),
        data_key_step(false, keys, id) == Some(DataKeyStepView::Ready(data_key_bytes(subtree, id))),
{
}

/// Installing a key for one channel and epoch changes nothing that could be
/// read before, of other channels and of other epochs of the same channel.
pub proof fn law_installing_keeps_history(
    keys: Map<(i64, u64), Seq<u8>>,
    full: bool,
    channel: i64,
    epoch: u64,
    key: Seq<u8>,
    id: TreeKeyId,
)
    requires
        id.channel != channel || id.seq != epoch,
    ensures
        data_key_step(full, keys.insert((channel, epoch), key), id) == data_key_step(
            full,
            keys,
            id,
        ),
{
}

/// Dropping a channel takes every epoch of it from a scoped member, and nothing
/// else.
pub proof fn law_dropping_revokes_one_channel(
    keys: Map<(i64, u64), Seq<u8>>,
    channel: i64,
    id: TreeKeyId,
)
    ensures
        id.channel == channel ==> data_key_step(false, without_channel(keys, channel), id) is None,
        id.channel != channel ==> data_key_step(false, without_channel(keys, channel), id)
            == data_key_step(false, keys, id),
{
}

} // verus!
