//! What holds of the transitions of the retention operations.

use crate::keys::{EncryptedKeyMaterial, KeyCommitment, KeyMaterial};
use crate::stark_proofs;
use crate::stark_proofs::{
    CHANNEL_GRANT_ROOT, CHANNEL_KEY, CURRENT_D, DELETE_ROOT, EXTEND_ROOT, GROUP, NEW_D, NEW_HGK,
    NEXT_D, OLD_HGK, REKEY_ROOT,
};
use crate::stark_proofs::{DeleteKeysSurvivor, GBCiphertextPair};
use crate::text;
use crate::transitions;
use crate::transitions::{StepView, TransitionTag};
use crate::tree_keys;
use vstd::prelude::*;
use vstd::string::*;

verus! {

/// Whether a claim speaks of the key at `node`.
pub open spec fn mentions(step: StepView, node: Seq<char>) -> bool {
    match step {
        StepView::Commit { node: at, commitment } => at == node,
        StepView::Derive { parent, child, tag } => parent == node || child == node,
        StepView::Encrypt { child, parent, tag, ciphertext } => parent == node || child == node,
    }
}

/// Whether some claim of a transition speaks of the key at `node`.
pub open spec fn has_node(steps: Seq<StepView>, node: Seq<char>) -> bool {
    exists|i: int| 0 <= i < steps.len() && mentions(#[trigger] steps[i], node)
}

/// Whether the keys are those at the nodes of a transition, no more and no
/// less.
pub open spec fn witnesses(keys: Map<Seq<char>, Seq<u8>>, steps: Seq<StepView>) -> bool {
    forall|node: Seq<char>| #[trigger] keys.dom().contains(node) <==> has_node(steps, node)
}

/// An extend transition binds both commitments.
pub proof fn law_extend_binds_inputs(a1: Seq<u8>, b1: Seq<u8>, a2: Seq<u8>, b2: Seq<u8>)
    requires
        stark_proofs::extend_steps(a1, b1) == stark_proofs::extend_steps(a2, b2),
    ensures
        a1 == a2,
        b1 == b2,
{
    let (s, t) = (stark_proofs::extend_steps(a1, b1), stark_proofs::extend_steps(a2, b2));
    assert(s[0] == t[0]);
    assert(s[2] == t[2]);
}

/// A rekey transition binds the three commitments and the two ciphertexts.
pub proof fn law_rekey_binds_inputs(
    old1: Seq<u8>,
    new1: Seq<u8>,
    link1: Seq<u8>,
    d1: Seq<u8>,
    head1: Seq<u8>,
    old2: Seq<u8>,
    new2: Seq<u8>,
    link2: Seq<u8>,
    d2: Seq<u8>,
    head2: Seq<u8>,
)
    requires
        stark_proofs::rekey_steps(old1, new1, link1, d1, head1) == stark_proofs::rekey_steps(
            old2,
            new2,
            link2,
            d2,
            head2,
        ),
    ensures
        old1 == old2,
        new1 == new2,
        link1 == link2,
        d1 == d2,
        head1 == head2,
{
    let s = stark_proofs::rekey_steps(old1, new1, link1, d1, head1);
    let t = stark_proofs::rekey_steps(old2, new2, link2, d2, head2);
    assert(s[0] == t[0]);
    assert(s[1] == t[1]);
    assert(s[2] == t[2]);
    assert(s[3] == t[3]);
    assert(s[4] == t[4]);
}

/// A channel-grant transition binds the channel and both commitments: the
/// statement for one channel is never that for another.
pub proof fn law_channel_grant_binds_inputs(
    channel1: i64,
    group1: Seq<u8>,
    key1: Seq<u8>,
    channel2: i64,
    group2: Seq<u8>,
    key2: Seq<u8>,
)
    requires
        stark_proofs::channel_grant_steps(channel1, group1, key1)
            == stark_proofs::channel_grant_steps(channel2, group2, key2),
    ensures
        channel1 == channel2,
        group1 == group2,
        key1 == key2,
{
    let s = stark_proofs::channel_grant_steps(channel1, group1, key1);
    let t = stark_proofs::channel_grant_steps(channel2, group2, key2);
    assert(s[0] == t[0]);
    assert(s[1] == t[1]);
    assert(s[2] == t[2]);
}

/// How a backend commits to keys, derives them and opens ciphertexts under tag
/// texts, and its texts for the tags of the group line.
pub struct KeyScheme {
    pub commit: spec_fn(Seq<u8>) -> Seq<u8>,
    pub derive: spec_fn(Seq<u8>, Seq<char>) -> Seq<u8>,
    pub open: spec_fn(Seq<u8>, Seq<char>, Seq<u8>) -> Seq<u8>,
    pub line_tag: spec_fn(TransitionTag) -> Seq<char>,
}

impl KeyScheme {
    /// The text of a tag.
    pub open spec fn tag_text(self, tag: TransitionTag) -> Seq<char> {
        match transitions::derivation_text(tag) {
            Some(text) => text,
            None => (self.line_tag)(tag),
        }
    }

    /// Whether a claim is true of the keys at the nodes.
    pub open spec fn satisfies(self, keys: Map<Seq<char>, Seq<u8>>, step: StepView) -> bool {
        match step {
            StepView::Commit { node, commitment } => {
                &&& keys.dom().contains(node)
                &&& (self.commit)(keys[node]) == commitment
            },
            StepView::Derive { parent, child, tag } => {
                &&& keys.dom().contains(parent)
                &&& keys.dom().contains(child)
                &&& keys[child] == (self.derive)(keys[parent], self.tag_text(tag))
            },
            StepView::Encrypt { child, parent, tag, ciphertext } => {
                &&& keys.dom().contains(parent)
                &&& keys.dom().contains(child)
                &&& keys[child] == (self.open)(keys[parent], self.tag_text(tag), ciphertext)
            },
        }
    }

    /// Whether all claims of a transition are true of the keys at the nodes.
    pub open spec fn satisfies_all(
        self,
        keys: Map<Seq<char>, Seq<u8>>,
        steps: Seq<StepView>,
    ) -> bool {
        forall|i: int| 0 <= i < steps.len() ==> self.satisfies(keys, #[trigger] steps[i])
    }
}

/// The derivation that a channel-grant transition claims is the one that
/// `channel_root` makes: from the group key, under the channel's own tag, and no
/// other claim is a derivation.
pub proof fn law_channel_grant_claims_channel_root(
    channel: i64,
    group: Seq<u8>,
    channel_key: Seq<u8>,
)
    ensures
        ({
            let steps = stark_proofs::channel_grant_steps(channel, group, channel_key);
            &&& steps[1] == (StepView::Derive {
                parent: stark_proofs::node(CHANNEL_GRANT_ROOT, GROUP),
                child: stark_proofs::node(CHANNEL_GRANT_ROOT, CHANNEL_KEY),
                tag: TransitionTag::ChannelGrant(channel),
            })
            &&& transitions::derivation_text(steps[1]->Derive_tag) == Some(
                tree_keys::channel_root_tag(channel),
            )
            &&& forall|i: int|
                0 <= i < steps.len() && i != 1 ==> (#[trigger] steps[i]) is Commit
        }),
{
}

/// A channel grant attests exactly this, whatever the backend: the one
/// commitment is to the group key, the channel's key is the one that
/// `channel_root` derives from it for this channel, and the other commitment is
/// to that key.
pub proof fn law_channel_grant_attests_channel_root(
    scheme: KeyScheme,
    channel: i64,
    group_commitment: Seq<u8>,
    channel_commitment: Seq<u8>,
    group_key: Seq<u8>,
    channel_key: Seq<u8>,
)
    ensures
        scheme.satisfies_all(
            stark_proofs::channel_grant_keys(group_key, channel_key),
            stark_proofs::channel_grant_steps(channel, group_commitment, channel_commitment),
        ) <==> {
            &&& (scheme.commit)(group_key) == group_commitment
            &&& channel_key == (scheme.derive)(group_key, tree_keys::channel_root_tag(channel))
            &&& (scheme.commit)(channel_key) == channel_commitment
        },
{
    let keys = stark_proofs::channel_grant_keys(group_key, channel_key);
    let steps = stark_proofs::channel_grant_steps(channel, group_commitment, channel_commitment);
    let group_node = stark_proofs::node(CHANNEL_GRANT_ROOT, GROUP);
    let channel_node = stark_proofs::node(CHANNEL_GRANT_ROOT, CHANNEL_KEY);
    assert(group_node != channel_node) by {
        reveal_strlit("group");
        reveal_strlit("channel_key");
        if group_node == channel_node {
            transitions::lemma_child_path_injective(
                CHANNEL_GRANT_ROOT@,
                GROUP@,
                CHANNEL_KEY@,
            );
        }
    }
    assert(keys[group_node] == group_key);
    assert(keys[channel_node] == channel_key);
    if scheme.satisfies_all(keys, steps) {
        assert(scheme.satisfies(keys, steps[0]));
        assert(scheme.satisfies(keys, steps[1]));
        assert(scheme.satisfies(keys, steps[2]));
    }
}

/// Data key heads with different sequence numbers are different nodes.
proof fn lemma_d_head_node_injective(a: int, b: int)
    requires
        stark_proofs::d_head_node(a) == stark_proofs::d_head_node(b),
    ensures
        a == b,
{
    transitions::lemma_child_path_injective(
        DELETE_ROOT@,
        "d"@ + text::int_text(a),
        "d"@ + text::int_text(b),
    );
    assert(("d"@ + text::int_text(a)).skip("d"@.len() as int) =~= text::int_text(a));
    assert(("d"@ + text::int_text(b)).skip("d"@.len() as int) =~= text::int_text(b));
    text::lemma_int_text_injective(a, b);
}

/// A delete transition binds everything that is deleted around: the two group
/// key commitments, every head's sequence number and commitment, every link
/// and every head ciphertext.
pub proof fn law_delete_binds_inputs(
    old1: Seq<u8>,
    new1: Seq<u8>,
    commitments1: Seq<Seq<u8>>,
    seqs1: Seq<u64>,
    links1: Seq<Seq<u8>>,
    heads1: Seq<Seq<u8>>,
    old2: Seq<u8>,
    new2: Seq<u8>,
    commitments2: Seq<Seq<u8>>,
    seqs2: Seq<u64>,
    links2: Seq<Seq<u8>>,
    heads2: Seq<Seq<u8>>,
)
    requires
        stark_proofs::delete_shape_fits(
            commitments1.len() as int,
            seqs1.len() as int,
            links1.len() as int,
            heads1.len() as int,
        ),
        stark_proofs::delete_shape_fits(
            commitments2.len() as int,
            seqs2.len() as int,
            links2.len() as int,
            heads2.len() as int,
        ),
        stark_proofs::delete_steps(old1, new1, commitments1, seqs1, links1, heads1)
            == stark_proofs::delete_steps(old2, new2, commitments2, seqs2, links2, heads2),
    ensures
        old1 == old2,
        new1 == new2,
        commitments1 == commitments2,
        seqs1 == seqs2,
        links1 == links2,
        heads1 == heads2,
{
    let s = stark_proofs::delete_steps(old1, new1, commitments1, seqs1, links1, heads1);
    let t = stark_proofs::delete_steps(old2, new2, commitments2, seqs2, links2, heads2);
    let n = commitments1.len() as int;
    assert(s.len() == 3 + n + (n - 1) + n);
    assert(n == commitments2.len());
    assert(s[0] == t[0]);
    assert(s[2] == t[2]);
    assert forall|i: int| 0 <= i < n implies commitments1[i] == commitments2[i] && seqs1[i]
        == seqs2[i] by {
        assert(s[3 + i] == t[3 + i]);
        assert(s[3 + i] == stark_proofs::delete_head_steps(commitments1, seqs1)[i]);
        assert(t[3 + i] == stark_proofs::delete_head_steps(commitments2, seqs2)[i]);
        lemma_d_head_node_injective(seqs1[i] as int, seqs2[i] as int);
    }
    assert(commitments1 =~= commitments2);
    assert(seqs1 =~= seqs2);
    assert forall|i: int| 0 <= i < n - 1 implies links1[i] == links2[i] by {
        assert(s[3 + n + i] == stark_proofs::delete_link_steps(links1)[i]);
        assert(t[3 + n + i] == stark_proofs::delete_link_steps(links2)[i]);
    }
    assert(links1 =~= links2);
    assert forall|i: int| 0 <= i < n implies heads1[i] == heads2[i] by {
        let at = 3 + n + (n - 1) + i;
        assert(s[at] == stark_proofs::delete_reencrypt_steps(seqs1, heads1)[i]);
        assert(t[at] == stark_proofs::delete_reencrypt_steps(seqs2, heads2)[i]);
    }
    assert(heads1 =~= heads2);
}

/// No transition of one operation is a transition of another.
pub proof fn law_operations_are_told_apart(
    extend_a: Seq<u8>,
    extend_b: Seq<u8>,
    rekey_old: Seq<u8>,
    rekey_new: Seq<u8>,
    rekey_link: Seq<u8>,
    rekey_d: Seq<u8>,
    rekey_head: Seq<u8>,
    channel: i64,
    group: Seq<u8>,
    channel_key: Seq<u8>,
    delete_old: Seq<u8>,
    delete_new: Seq<u8>,
    commitments: Seq<Seq<u8>>,
    seqs: Seq<u64>,
    links: Seq<Seq<u8>>,
    heads: Seq<Seq<u8>>,
)
    ensures
        ({
            let extend = stark_proofs::extend_steps(extend_a, extend_b);
            let rekey = stark_proofs::rekey_steps(
                rekey_old,
                rekey_new,
                rekey_link,
                rekey_d,
                rekey_head,
            );
            let grant = stark_proofs::channel_grant_steps(channel, group, channel_key);
            let delete = stark_proofs::delete_steps(
                delete_old,
                delete_new,
                commitments,
                seqs,
                links,
                heads,
            );
            &&& extend != rekey
            &&& extend != grant
            &&& extend != delete
            &&& rekey != grant
            &&& rekey != delete
            &&& grant != delete
        }),
{
    let extend = stark_proofs::extend_steps(extend_a, extend_b);
    let rekey = stark_proofs::rekey_steps(rekey_old, rekey_new, rekey_link, rekey_d, rekey_head);
    let grant = stark_proofs::channel_grant_steps(channel, group, channel_key);
    let delete = stark_proofs::delete_steps(
        delete_old,
        delete_new,
        commitments,
        seqs,
        links,
        heads,
    );
    assert(extend[1] is Derive && extend[1]->Derive_tag == TransitionTag::DataDerive);
    assert(grant[1] is Derive && grant[1]->Derive_tag == TransitionTag::ChannelGrant(channel));
    assert(delete[1] is Derive && delete[1]->Derive_tag == TransitionTag::GroupDerive);
    assert(rekey[1] is Commit);
}

/// The witness of an extend holds a key for each node of its transition.
pub proof fn law_extend_witness_is_complete(
    current_commitment: Seq<u8>,
    next_commitment: Seq<u8>,
    current_d: Seq<u8>,
    next_d: Seq<u8>,
)
    ensures
        witnesses(
            stark_proofs::extend_keys(current_d, next_d),
            stark_proofs::extend_steps(current_commitment, next_commitment),
        ),
{
    let steps = stark_proofs::extend_steps(current_commitment, next_commitment);
    assert(mentions(steps[0], stark_proofs::node(EXTEND_ROOT, CURRENT_D)));
    assert(mentions(steps[2], stark_proofs::node(EXTEND_ROOT, NEXT_D)));
}

/// The witness of a rekey holds a key for each node of its transition.
pub proof fn law_rekey_witness_is_complete(
    old_commitment: Seq<u8>,
    new_commitment: Seq<u8>,
    link: Seq<u8>,
    d_commitment: Seq<u8>,
    head: Seq<u8>,
    old_hgk: Seq<u8>,
    new_hgk: Seq<u8>,
    new_d: Seq<u8>,
)
    ensures
        witnesses(
            stark_proofs::rekey_keys(old_hgk, new_hgk, new_d),
            stark_proofs::rekey_steps(old_commitment, new_commitment, link, d_commitment, head),
        ),
{
    let steps = stark_proofs::rekey_steps(
        old_commitment,
        new_commitment,
        link,
        d_commitment,
        head,
    );
    assert(mentions(steps[0], stark_proofs::node(REKEY_ROOT, OLD_HGK)));
    assert(mentions(steps[1], stark_proofs::node(REKEY_ROOT, NEW_HGK)));
    assert(mentions(steps[3], stark_proofs::node(REKEY_ROOT, NEW_D)));
}

/// The witness of a channel grant holds a key for each node of its transition.
pub proof fn law_channel_grant_witness_is_complete(
    channel: i64,
    group_commitment: Seq<u8>,
    channel_commitment: Seq<u8>,
    group_key: Seq<u8>,
    channel_key: Seq<u8>,
)
    ensures
        witnesses(
            stark_proofs::channel_grant_keys(group_key, channel_key),
            stark_proofs::channel_grant_steps(channel, group_commitment, channel_commitment),
        ),
{
    let steps = stark_proofs::channel_grant_steps(channel, group_commitment, channel_commitment);
    assert(mentions(steps[0], stark_proofs::node(CHANNEL_GRANT_ROOT, GROUP)));
    assert(mentions(steps[2], stark_proofs::node(CHANNEL_GRANT_ROOT, CHANNEL_KEY)));
}

proof fn lemma_chain_keys_dom(
    keys: Map<Seq<char>, Seq<u8>>,
    b_keys: Seq<Seq<u8>>,
    node: Seq<char>,
)
    ensures
        stark_proofs::with_chain_keys(keys, b_keys).dom().contains(node) <==> (
        keys.dom().contains(node) || exists|i: int|
            1 <= i <= b_keys.len() && #[trigger] stark_proofs::chain_node(i) == node),
    decreases b_keys.len(),
{
    if b_keys.len() > 0 {
        lemma_chain_keys_dom(keys, b_keys.drop_last(), node);
        assert(stark_proofs::chain_node(b_keys.len() as int) == stark_proofs::chain_node(
            b_keys.len() as int,
        ));
    }
}

proof fn lemma_head_keys_dom(
    keys: Map<Seq<char>, Seq<u8>>,
    d_keys: Seq<Seq<u8>>,
    seqs: Seq<u64>,
    node: Seq<char>,
)
    requires
        d_keys.len() <= seqs.len(),
    ensures
        stark_proofs::with_head_keys(keys, d_keys, seqs).dom().contains(node) <==> (
        keys.dom().contains(node) || exists|i: int|
            0 <= i < d_keys.len() && stark_proofs::d_head_node(#[trigger] seqs[i] as int) == node),
    decreases d_keys.len(),
{
    if d_keys.len() > 0 {
        lemma_head_keys_dom(keys, d_keys.drop_last(), seqs, node);
        let last = d_keys.len() - 1;
        if stark_proofs::d_head_node(seqs[last] as int) == node {
            assert(stark_proofs::with_head_keys(keys, d_keys, seqs).dom().contains(node));
        }
    }
}

/// The witness of a deletion holds a key for each node of its transition,
/// where there is a chain key for each link and a data key for each head.
pub proof fn law_delete_witness_is_complete(
    old_commitment: Seq<u8>,
    new_commitment: Seq<u8>,
    commitments: Seq<Seq<u8>>,
    seqs: Seq<u64>,
    links: Seq<Seq<u8>>,
    heads: Seq<Seq<u8>>,
    old_hgk: Seq<u8>,
    dgk: Seq<u8>,
    b_keys: Seq<Seq<u8>>,
    d_keys: Seq<Seq<u8>>,
)
    requires
        stark_proofs::delete_shape_fits(
            commitments.len() as int,
            seqs.len() as int,
            links.len() as int,
            heads.len() as int,
        ),
        b_keys.len() == links.len(),
        d_keys.len() == heads.len(),
    ensures
        witnesses(
            stark_proofs::delete_keys(old_hgk, dgk, b_keys, d_keys, seqs),
            stark_proofs::delete_steps(
                old_commitment,
                new_commitment,
                commitments,
                seqs,
                links,
                heads,
            ),
        ),
{
    let steps = stark_proofs::delete_steps(
        old_commitment,
        new_commitment,
        commitments,
        seqs,
        links,
        heads,
    );
    let keys = stark_proofs::delete_keys(old_hgk, dgk, b_keys, d_keys, seqs);
    let group_keys = Map::<Seq<char>, Seq<u8>>::empty().insert(
        stark_proofs::node(DELETE_ROOT, OLD_HGK),
        old_hgk,
    ).insert(stark_proofs::node(DELETE_ROOT, NEW_HGK), dgk);
    let chain_keys = stark_proofs::with_chain_keys(group_keys, b_keys);
    let n = commitments.len() as int;
    let group_steps = stark_proofs::delete_group_steps(old_commitment, new_commitment);
    let head_steps = stark_proofs::delete_head_steps(commitments, seqs);
    let link_steps = stark_proofs::delete_link_steps(links);
    let reencrypt_steps = stark_proofs::delete_reencrypt_steps(seqs, heads);
    assert forall|i: int| 0 <= i < steps.len() implies #[trigger] steps[i] == (if i < 3 {
        group_steps[i]
    } else if i < 3 + n {
        head_steps[i - 3]
    } else if i < 3 + n + (n - 1) {
        link_steps[i - 3 - n]
    } else {
        reencrypt_steps[i - 3 - n - (n - 1)]
    }) by {}
    assert forall|node: Seq<char>| #[trigger] keys.dom().contains(node) <==> has_node(
        steps,
        node,
    ) by {
        lemma_chain_keys_dom(group_keys, b_keys, node);
        lemma_head_keys_dom(chain_keys, d_keys, seqs, node);
        if keys.dom().contains(node) {
            if node == stark_proofs::node(DELETE_ROOT, OLD_HGK) {
                assert(mentions(steps[0], node));
            } else if node == stark_proofs::node(DELETE_ROOT, NEW_HGK) {
                assert(mentions(steps[2], node));
            } else if chain_keys.dom().contains(node) {
                let i = choose|i: int|
                    1 <= i <= b_keys.len() && #[trigger] stark_proofs::chain_node(i) == node;
                assert(steps[3 + n + (i - 1)] == link_steps[i - 1]);
                assert(mentions(steps[3 + n + (i - 1)], node));
            } else {
                let i = choose|i: int|
                    0 <= i < d_keys.len() && stark_proofs::d_head_node(#[trigger] seqs[i] as int)
                        == node;
                assert(steps[3 + i] == head_steps[i]);
                assert(mentions(steps[3 + i], node));
            }
        }
        if has_node(steps, node) {
            let i = choose|i: int| 0 <= i < steps.len() && mentions(#[trigger] steps[i], node);
            if i < 3 {
                assert(steps[i] == group_steps[i]);
            } else if i < 3 + n {
                assert(steps[i] == head_steps[i - 3]);
                assert(stark_proofs::d_head_node(seqs[i - 3] as int) == node);
            } else if i < 3 + n + (n - 1) {
                let j = i - 3 - n;
                assert(steps[i] == link_steps[j]);
                assert(stark_proofs::chain_node(j) == node || stark_proofs::chain_node(j + 1)
                    == node);
            } else {
                let j = i - 3 - n - (n - 1);
                assert(steps[i] == reencrypt_steps[j]);
                assert(stark_proofs::chain_node(j) == node || stark_proofs::d_head_node(
                    seqs[j] as int,
                ) == node);
            }
        }
    }
}

/// An extend attests exactly this, whatever the backend: the commitments are to
/// the current and the next data key, and the next one is derived from the
/// current one.
pub proof fn law_extend_attests_derivation(
    scheme: KeyScheme,
    current_commitment: Seq<u8>,
    next_commitment: Seq<u8>,
    current_d: Seq<u8>,
    next_d: Seq<u8>,
)
    ensures
        scheme.satisfies_all(
            stark_proofs::extend_keys(current_d, next_d),
            stark_proofs::extend_steps(current_commitment, next_commitment),
        ) <==> {
            &&& (scheme.commit)(current_d) == current_commitment
            &&& next_d == (scheme.derive)(current_d, (scheme.line_tag)(TransitionTag::DataDerive))
            &&& (scheme.commit)(next_d) == next_commitment
        },
{
    let keys = stark_proofs::extend_keys(current_d, next_d);
    let steps = stark_proofs::extend_steps(current_commitment, next_commitment);
    let current_node = stark_proofs::node(EXTEND_ROOT, CURRENT_D);
    let next_node = stark_proofs::node(EXTEND_ROOT, NEXT_D);
    assert(current_node != next_node) by {
        reveal_strlit("current_d");
        reveal_strlit("next_d");
        if current_node == next_node {
            transitions::lemma_child_path_injective(EXTEND_ROOT@, CURRENT_D@, NEXT_D@);
        }
    }
    assert(keys[current_node] == current_d);
    assert(keys[next_node] == next_d);
    if scheme.satisfies_all(keys, steps) {
        assert(scheme.satisfies(keys, steps[0]));
        assert(scheme.satisfies(keys, steps[1]));
        assert(scheme.satisfies(keys, steps[2]));
    }
}

/// A rekey attests exactly this, whatever the backend: the commitments are to
/// the old and the new group key and to the new data key, and the new group key
/// opens the one ciphertext, as a chain link, to the old group key and the
/// other, as a data key head, to the new data key.
pub proof fn law_rekey_attests_wrapping(
    scheme: KeyScheme,
    old_commitment: Seq<u8>,
    new_commitment: Seq<u8>,
    link: Seq<u8>,
    d_commitment: Seq<u8>,
    head: Seq<u8>,
    old_hgk: Seq<u8>,
    new_hgk: Seq<u8>,
    new_d: Seq<u8>,
)
    ensures
        scheme.satisfies_all(
            stark_proofs::rekey_keys(old_hgk, new_hgk, new_d),
            stark_proofs::rekey_steps(old_commitment, new_commitment, link, d_commitment, head),
        ) <==> {
            &&& (scheme.commit)(old_hgk) == old_commitment
            &&& (scheme.commit)(new_hgk) == new_commitment
            &&& (scheme.commit)(new_d) == d_commitment
            &&& old_hgk == (scheme.open)(
                new_hgk,
                (scheme.line_tag)(TransitionTag::ChainLink),
                link,
            )
            &&& new_d == (scheme.open)(
                new_hgk,
                (scheme.line_tag)(TransitionTag::DataHeadEncrypt),
                head,
            )
        },
{
    let keys = stark_proofs::rekey_keys(old_hgk, new_hgk, new_d);
    let steps = stark_proofs::rekey_steps(
        old_commitment,
        new_commitment,
        link,
        d_commitment,
        head,
    );
    let old_node = stark_proofs::node(REKEY_ROOT, OLD_HGK);
    let new_node = stark_proofs::node(REKEY_ROOT, NEW_HGK);
    let d_node = stark_proofs::node(REKEY_ROOT, NEW_D);
    assert(old_node != new_node && old_node != d_node && new_node != d_node) by {
        reveal_strlit("old_hgk");
        reveal_strlit("new_hgk");
        reveal_strlit("new_d");
        assert(OLD_HGK@[0] != NEW_HGK@[0]);
        if old_node == new_node {
            transitions::lemma_child_path_injective(REKEY_ROOT@, OLD_HGK@, NEW_HGK@);
        }
        if old_node == d_node {
            transitions::lemma_child_path_injective(REKEY_ROOT@, OLD_HGK@, NEW_D@);
        }
        if new_node == d_node {
            transitions::lemma_child_path_injective(REKEY_ROOT@, NEW_HGK@, NEW_D@);
        }
    }
    assert(keys[old_node] == old_hgk);
    assert(keys[new_node] == new_hgk);
    assert(keys[d_node] == new_d);
    if scheme.satisfies_all(keys, steps) {
        assert(scheme.satisfies(keys, steps[0]));
        assert(scheme.satisfies(keys, steps[1]));
        assert(scheme.satisfies(keys, steps[2]));
        assert(scheme.satisfies(keys, steps[3]));
        assert(scheme.satisfies(keys, steps[4]));
    }
}

/// The first letter after the root tells the nodes of a deletion apart.
proof fn lemma_delete_node_names()
    ensures
        forall|i: int| #[trigger] stark_proofs::chain_node(i) != stark_proofs::node(
            DELETE_ROOT,
            OLD_HGK,
        ),
        forall|s: int| #[trigger] stark_proofs::d_head_node(s) != stark_proofs::node(
            DELETE_ROOT,
            OLD_HGK,
        ),
        forall|i: int, s: int| #[trigger]
            stark_proofs::chain_node(i) != #[trigger] stark_proofs::d_head_node(s),
        stark_proofs::node(DELETE_ROOT, OLD_HGK) != stark_proofs::node(DELETE_ROOT, NEW_HGK),
{
    reveal_strlit("old_hgk");
    reveal_strlit("new_hgk");
    reveal_strlit("b");
    reveal_strlit("d");
    let start = (DELETE_ROOT@ + "/"@).len() as int;
    let old_node = stark_proofs::node(DELETE_ROOT, OLD_HGK);
    let new_node = stark_proofs::node(DELETE_ROOT, NEW_HGK);
    assert(old_node[start] == 'o');
    assert(new_node[start] == 'n');
    assert forall|i: int| #[trigger] stark_proofs::chain_node(i)[start] == (if i == 0 {
        'n'
    } else {
        'b'
    }) by {}
    assert forall|s: int| #[trigger] stark_proofs::d_head_node(s)[start] == 'd' by {}
    assert forall|i: int| #[trigger] stark_proofs::chain_node(i) != old_node by {
        assert(stark_proofs::chain_node(i)[start] != 'o');
    }
    assert forall|s: int| #[trigger] stark_proofs::d_head_node(s) != old_node by {
        assert(stark_proofs::d_head_node(s)[start] != 'o');
    }
    assert forall|i: int, s: int| #[trigger]
        stark_proofs::chain_node(i) != #[trigger] stark_proofs::d_head_node(s) by {
        assert(stark_proofs::d_head_node(s)[start] == 'd');
        assert(stark_proofs::chain_node(i)[start] != 'd');
    }
}

/// Chain keys at different positions are different nodes.
proof fn lemma_chain_node_injective(a: int, b: int)
    requires
        a >= 0,
        b >= 0,
        stark_proofs::chain_node(a) == stark_proofs::chain_node(b),
    ensures
        a == b,
{
    reveal_strlit("new_hgk");
    reveal_strlit("b");
    let start = (DELETE_ROOT@ + "/"@).len() as int;
    assert(stark_proofs::chain_node(a)[start] == (if a == 0 {
        'n'
    } else {
        'b'
    }));
    assert(stark_proofs::chain_node(b)[start] == (if b == 0 {
        'n'
    } else {
        'b'
    }));
    if a > 0 && b > 0 {
        transitions::lemma_child_path_injective(
            DELETE_ROOT@,
            "b"@ + text::int_text(a - 1),
            "b"@ + text::int_text(b - 1),
        );
        assert(("b"@ + text::int_text(a - 1)).skip("b"@.len() as int) =~= text::int_text(a - 1));
        assert(("b"@ + text::int_text(b - 1)).skip("b"@.len() as int) =~= text::int_text(b - 1));
        text::lemma_int_text_injective(a - 1, b - 1);
    }
}

proof fn lemma_chain_keys_at(keys: Map<Seq<char>, Seq<u8>>, b_keys: Seq<Seq<u8>>, node: Seq<char>)
    ensures
        forall|i: int|
            1 <= i <= b_keys.len() ==> {
                &&& stark_proofs::with_chain_keys(keys, b_keys).dom().contains(
                    #[trigger] stark_proofs::chain_node(i),
                )
                &&& stark_proofs::with_chain_keys(keys, b_keys)[stark_proofs::chain_node(i)]
                    == b_keys[i - 1]
            },
        (forall|i: int| 1 <= i <= b_keys.len() ==> #[trigger] stark_proofs::chain_node(i) != node)
            ==> {
            &&& stark_proofs::with_chain_keys(keys, b_keys).dom().contains(node)
                == keys.dom().contains(node)
            &&& stark_proofs::with_chain_keys(keys, b_keys)[node] == keys[node]
        },
    decreases b_keys.len(),
{
    if b_keys.len() > 0 {
        let rest = b_keys.drop_last();
        let n = b_keys.len() as int;
        lemma_chain_keys_at(keys, rest, node);
        assert forall|i: int| 1 <= i <= n implies {
            &&& stark_proofs::with_chain_keys(keys, b_keys).dom().contains(
                #[trigger] stark_proofs::chain_node(i),
            )
            &&& stark_proofs::with_chain_keys(keys, b_keys)[stark_proofs::chain_node(i)]
                == b_keys[i - 1]
        } by {
            if i < n {
                if stark_proofs::chain_node(i) == stark_proofs::chain_node(n) {
                    lemma_chain_node_injective(i, n);
                }
                assert(rest[i - 1] == b_keys[i - 1]);
            }
        }
        if forall|i: int| 1 <= i <= n ==> #[trigger] stark_proofs::chain_node(i) != node {
            assert(stark_proofs::chain_node(n) != node);
        }
    }
}

/// Whether heads that share a sequence number are the same key.
pub open spec fn heads_agree(d_keys: Seq<Seq<u8>>, seqs: Seq<u64>) -> bool {
    forall|i: int, j: int|
        #![trigger seqs[i], seqs[j]]
        0 <= i < d_keys.len() && 0 <= j < d_keys.len() && seqs[i] == seqs[j] ==> d_keys[i]
            == d_keys[j]
}

proof fn lemma_head_keys_at(
    keys: Map<Seq<char>, Seq<u8>>,
    d_keys: Seq<Seq<u8>>,
    seqs: Seq<u64>,
    node: Seq<char>,
)
    requires
        d_keys.len() <= seqs.len(),
        heads_agree(d_keys, seqs),
    ensures
        forall|i: int|
            0 <= i < d_keys.len() ==> {
                &&& stark_proofs::with_head_keys(keys, d_keys, seqs).dom().contains(
                    stark_proofs::d_head_node(#[trigger] seqs[i] as int),
                )
                &&& stark_proofs::with_head_keys(keys, d_keys, seqs)[stark_proofs::d_head_node(
                    seqs[i] as int,
                )] == d_keys[i]
            },
        (forall|s: int| #[trigger] stark_proofs::d_head_node(s) != node) ==> {
            &&& stark_proofs::with_head_keys(keys, d_keys, seqs).dom().contains(node)
                == keys.dom().contains(node)
            &&& stark_proofs::with_head_keys(keys, d_keys, seqs)[node] == keys[node]
        },
    decreases d_keys.len(),
{
    if d_keys.len() > 0 {
        let rest = d_keys.drop_last();
        let last = d_keys.len() - 1;
        assert forall|i: int, j: int|
            #![trigger seqs[i], seqs[j]]
            0 <= i < rest.len() && 0 <= j < rest.len() && seqs[i] == seqs[j] implies rest[i]
            == rest[j] by {
            assert(d_keys[i] == d_keys[j]);
        }
        lemma_head_keys_at(keys, rest, seqs, node);
        assert forall|i: int| 0 <= i < d_keys.len() implies {
            &&& stark_proofs::with_head_keys(keys, d_keys, seqs).dom().contains(
                stark_proofs::d_head_node(#[trigger] seqs[i] as int),
            )
            &&& stark_proofs::with_head_keys(keys, d_keys, seqs)[stark_proofs::d_head_node(
                seqs[i] as int,
            )] == d_keys[i]
        } by {
            if i < last {
                assert(rest[i] == d_keys[i]);
                if stark_proofs::d_head_node(seqs[i] as int) == stark_proofs::d_head_node(
                    seqs[last] as int,
                ) {
                    lemma_d_head_node_injective(seqs[i] as int, seqs[last] as int);
                    assert(d_keys[i] == d_keys[last]);
                }
            }
        }
    }
}

/// The keys of the group chain of a deletion, newest first: the new group key,
/// then the older keys that survive.
pub open spec fn chain_of(new_hgk: Seq<u8>, b_keys: Seq<Seq<u8>>) -> Seq<Seq<u8>> {
    seq![new_hgk] + b_keys
}

/// A deletion attests exactly this, whatever the backend: the commitments are to
/// the old and the new group key and to each surviving data key head; the new
/// group key is derived from the old one; each chain key opens its link to the
/// next older chain key; and each chain key opens its head ciphertext to its own
/// data key head.
pub proof fn law_delete_attests_rewrapping(
    scheme: KeyScheme,
    old_commitment: Seq<u8>,
    new_commitment: Seq<u8>,
    commitments: Seq<Seq<u8>>,
    seqs: Seq<u64>,
    links: Seq<Seq<u8>>,
    heads: Seq<Seq<u8>>,
    old_hgk: Seq<u8>,
    new_hgk: Seq<u8>,
    b_keys: Seq<Seq<u8>>,
    d_keys: Seq<Seq<u8>>,
)
    requires
        commitments.len() > 0,
        seqs.len() == commitments.len(),
        heads.len() == commitments.len(),
        d_keys.len() == commitments.len(),
        links.len() + 1 == commitments.len(),
        b_keys.len() + 1 == commitments.len(),
        heads_agree(d_keys, seqs),
    ensures
        scheme.satisfies_all(
            stark_proofs::delete_keys(old_hgk, new_hgk, b_keys, d_keys, seqs),
            stark_proofs::delete_steps(
                old_commitment,
                new_commitment,
                commitments,
                seqs,
                links,
                heads,
            ),
        ) <==> {
            let chain = chain_of(new_hgk, b_keys);
            &&& (scheme.commit)(old_hgk) == old_commitment
            &&& (scheme.commit)(new_hgk) == new_commitment
            &&& new_hgk == (scheme.derive)(
                old_hgk,
                (scheme.line_tag)(TransitionTag::GroupDerive),
            )
            &&& forall|i: int|
                0 <= i < commitments.len() ==> (scheme.commit)(d_keys[i])
                    == #[trigger] commitments[i]
            &&& forall|i: int|
                0 <= i < links.len() ==> chain[i + 1] == (scheme.open)(
                    chain[i],
                    (scheme.line_tag)(TransitionTag::ChainLink),
                    #[trigger] links[i],
                )
            &&& forall|i: int|
                0 <= i < heads.len() ==> d_keys[i] == (scheme.open)(
                    chain[i],
                    (scheme.line_tag)(TransitionTag::DataHeadEncrypt),
                    #[trigger] heads[i],
                )
        },
{
    let steps = stark_proofs::delete_steps(
        old_commitment,
        new_commitment,
        commitments,
        seqs,
        links,
        heads,
    );
    let keys = stark_proofs::delete_keys(old_hgk, new_hgk, b_keys, d_keys, seqs);
    let chain = chain_of(new_hgk, b_keys);
    let old_node = stark_proofs::node(DELETE_ROOT, OLD_HGK);
    let new_node = stark_proofs::node(DELETE_ROOT, NEW_HGK);
    let group_keys = Map::<Seq<char>, Seq<u8>>::empty().insert(old_node, old_hgk).insert(
        new_node,
        new_hgk,
    );
    let chain_keys = stark_proofs::with_chain_keys(group_keys, b_keys);
    let n = commitments.len() as int;
    let group_steps = stark_proofs::delete_group_steps(old_commitment, new_commitment);
    let head_steps = stark_proofs::delete_head_steps(commitments, seqs);
    let link_steps = stark_proofs::delete_link_steps(links);
    let reencrypt_steps = stark_proofs::delete_reencrypt_steps(seqs, heads);
    lemma_delete_node_names();
    lemma_chain_keys_at(group_keys, b_keys, old_node);
    lemma_head_keys_at(chain_keys, d_keys, seqs, old_node);
    assert(keys.dom().contains(old_node) && keys[old_node] == old_hgk);
    assert forall|i: int| 0 <= i < n implies {
        &&& keys.dom().contains(#[trigger] stark_proofs::chain_node(i))
        &&& keys[stark_proofs::chain_node(i)] == chain[i]
    } by {
        let at = stark_proofs::chain_node(i);
        lemma_chain_keys_at(group_keys, b_keys, at);
        lemma_head_keys_at(chain_keys, d_keys, seqs, at);
        if i == 0 {
            assert forall|j: int| 1 <= j <= b_keys.len() implies #[trigger]
                stark_proofs::chain_node(j) != at by {
                if stark_proofs::chain_node(j) == at {
                    lemma_chain_node_injective(j, 0);
                }
            }
        }
    }
    assert(keys[stark_proofs::chain_node(0)] == new_hgk);
    assert forall|i: int| 0 <= i < n implies {
        &&& keys.dom().contains(stark_proofs::d_head_node(#[trigger] seqs[i] as int))
        &&& keys[stark_proofs::d_head_node(seqs[i] as int)] == d_keys[i]
    } by {
        lemma_head_keys_at(chain_keys, d_keys, seqs, old_node);
    }
    assert forall|i: int| 0 <= i < steps.len() implies #[trigger] steps[i] == (if i < 3 {
        group_steps[i]
    } else if i < 3 + n {
        head_steps[i - 3]
    } else if i < 3 + n + (n - 1) {
        link_steps[i - 3 - n]
    } else {
        reencrypt_steps[i - 3 - n - (n - 1)]
    }) by {}
    assert(steps.len() == 3 + n + (n - 1) + n);
    assert(scheme.satisfies(keys, group_steps[0]) == ((scheme.commit)(old_hgk)
        == old_commitment));
    assert(scheme.satisfies(keys, group_steps[1]) == (new_hgk == (scheme.derive)(
        old_hgk,
        (scheme.line_tag)(TransitionTag::GroupDerive),
    )));
    assert(scheme.satisfies(keys, group_steps[2]) == ((scheme.commit)(new_hgk)
        == new_commitment));
    assert forall|i: int| 0 <= i < n implies #[trigger] scheme.satisfies(keys, head_steps[i]) == ((
    scheme.commit)(d_keys[i]) == commitments[i]) by {
        assert(keys[stark_proofs::d_head_node(seqs[i] as int)] == d_keys[i]);
    }
    assert forall|i: int| 0 <= i < n - 1 implies #[trigger] scheme.satisfies(keys, link_steps[i])
        == (chain[i + 1] == (scheme.open)(
        chain[i],
        (scheme.line_tag)(TransitionTag::ChainLink),
        links[i],
    )) by {
        assert(keys[stark_proofs::chain_node(i)] == chain[i]);
        assert(keys[stark_proofs::chain_node(i + 1)] == chain[i + 1]);
    }
    assert forall|i: int| 0 <= i < n implies #[trigger] scheme.satisfies(
        keys,
        reencrypt_steps[i],
    ) == (d_keys[i] == (scheme.open)(
        chain[i],
        (scheme.line_tag)(TransitionTag::DataHeadEncrypt),
        heads[i],
    )) by {
        assert(keys[stark_proofs::d_head_node(seqs[i] as int)] == d_keys[i]);
        assert(keys[stark_proofs::chain_node(i)] == chain[i]);
    }
    if scheme.satisfies_all(keys, steps) {
        assert(scheme.satisfies(keys, steps[0]));
        assert(scheme.satisfies(keys, steps[1]));
        assert(scheme.satisfies(keys, steps[2]));
        assert forall|i: int| 0 <= i < n implies (scheme.commit)(d_keys[i])
            == #[trigger] commitments[i] by {
            assert(scheme.satisfies(keys, steps[3 + i]));
            assert(scheme.satisfies(keys, head_steps[i]));
        }
        assert forall|i: int| 0 <= i < links.len() implies chain[i + 1] == (scheme.open)(
            chain[i],
            (scheme.line_tag)(TransitionTag::ChainLink),
            #[trigger] links[i],
        ) by {
            assert(scheme.satisfies(keys, steps[3 + n + i]));
            assert(scheme.satisfies(keys, link_steps[i]));
        }
        assert forall|i: int| 0 <= i < heads.len() implies d_keys[i] == (scheme.open)(
            chain[i],
            (scheme.line_tag)(TransitionTag::DataHeadEncrypt),
            #[trigger] heads[i],
        ) by {
            assert(scheme.satisfies(keys, steps[3 + n + (n - 1) + i]));
            assert(scheme.satisfies(keys, reencrypt_steps[i]));
        }
    } else {
        let i = choose|i: int|
            0 <= i < steps.len() && !scheme.satisfies(keys, #[trigger] steps[i]);
        if i < 3 {
            assert(steps[i] == group_steps[i]);
        } else if i < 3 + n {
            assert(!scheme.satisfies(keys, head_steps[i - 3]));
            assert(commitments[i - 3] == commitments[i - 3]);
        } else if i < 3 + n + (n - 1) {
            assert(!scheme.satisfies(keys, link_steps[i - 3 - n]));
            assert(links[i - 3 - n] == links[i - 3 - n]);
        } else {
            let j = i - 3 - n - (n - 1);
            assert(!scheme.satisfies(keys, reencrypt_steps[j]));
            assert(heads[j] == heads[j]);
        }
    }
}

/// The path of a node as it stands in statements.
pub open spec fn path(root: Seq<char>, name: Seq<char>) -> Seq<char> {
    root + "/"@ + name
}

/// The path of the chain key at position `i` of a deletion.
pub open spec fn chain_path(i: int) -> Seq<char> {
    path(
        "/sl2-delete"@,
        if i == 0 {
            "new_hgk"@
        } else {
            "b"@ + text::int_text(i - 1)
        },
    )
}

/// The path of a data key head of a deletion.
pub open spec fn head_path(seq: u64) -> Seq<char> {
    path("/sl2-delete"@, "d"@ + text::int_text(seq as int))
}

/// The statement of a deletion lists, in this order and nothing else: the old
/// group key, the derivation of the new one, the new group key; a commitment for
/// each head; a link from each chain key to the next older one; and an
/// encryption of each head under the chain key of its own position. All parties
/// lay it out alike.
pub proof fn law_delete_statement_layout(
    old_commitment: Seq<u8>,
    new_commitment: Seq<u8>,
    commitments: Seq<Seq<u8>>,
    seqs: Seq<u64>,
    links: Seq<Seq<u8>>,
    heads: Seq<Seq<u8>>,
)
    requires
        commitments.len() > 0,
        seqs.len() == commitments.len(),
        heads.len() == commitments.len(),
        links.len() + 1 == commitments.len(),
    ensures
        ({
            let n = commitments.len() as int;
            let steps = stark_proofs::delete_steps(
                old_commitment,
                new_commitment,
                commitments,
                seqs,
                links,
                heads,
            );
            &&& steps.len() == 3 * n + 2
            &&& steps[0] == (StepView::Commit {
                node: path("/sl2-delete"@, "old_hgk"@),
                commitment: old_commitment,
            })
            &&& steps[1] == (StepView::Derive {
                parent: path("/sl2-delete"@, "old_hgk"@),
                child: chain_path(0),
                tag: TransitionTag::GroupDerive,
            })
            &&& steps[2] == (StepView::Commit { node: chain_path(0), commitment: new_commitment })
            &&& forall|i: int|
                0 <= i < n ==> steps[3 + i] == (StepView::Commit {
                    node: head_path(seqs[i]),
                    commitment: #[trigger] commitments[i],
                })
            &&& forall|i: int|
                0 <= i < n - 1 ==> steps[3 + n + i] == (StepView::Encrypt {
                    child: chain_path(i + 1),
                    parent: chain_path(i),
                    tag: TransitionTag::ChainLink,
                    ciphertext: #[trigger] links[i],
                })
            &&& forall|i: int|
                0 <= i < n ==> steps[2 + 2 * n + i] == (StepView::Encrypt {
                    child: head_path(seqs[i]),
                    parent: chain_path(i),
                    tag: TransitionTag::DataHeadEncrypt,
                    ciphertext: #[trigger] heads[i],
                })
        }),
{
    let n = commitments.len() as int;
    let steps = stark_proofs::delete_steps(
        old_commitment,
        new_commitment,
        commitments,
        seqs,
        links,
        heads,
    );
    assert forall|i: int| 0 <= i < n implies steps[3 + i] == (StepView::Commit {
        node: head_path(seqs[i]),
        commitment: #[trigger] commitments[i],
    }) by {
        assert(steps[3 + i] == stark_proofs::delete_head_steps(commitments, seqs)[i]);
    }
    assert forall|i: int| 0 <= i < n - 1 implies steps[3 + n + i] == (StepView::Encrypt {
        child: chain_path(i + 1),
        parent: chain_path(i),
        tag: TransitionTag::ChainLink,
        ciphertext: #[trigger] links[i],
    }) by {
        assert(steps[3 + n + i] == stark_proofs::delete_link_steps(links)[i]);
    }
    assert forall|i: int| 0 <= i < n implies steps[2 + 2 * n + i] == (StepView::Encrypt {
        child: head_path(seqs[i]),
        parent: chain_path(i),
        tag: TransitionTag::DataHeadEncrypt,
        ciphertext: #[trigger] heads[i],
    }) by {
        assert(steps[2 + 2 * n + i] == stark_proofs::delete_reencrypt_steps(seqs, heads)[i]);
    }
}

/// The statements of the other operations, claim by claim, on nodes of the
/// names that all parties use.
pub proof fn law_other_statement_layouts(
    a: Seq<u8>,
    b: Seq<u8>,
    link: Seq<u8>,
    d: Seq<u8>,
    head: Seq<u8>,
    channel: i64,
)
    ensures
        ({
            let current = path("/sl2-extend"@, "current_d"@);
            let next = path("/sl2-extend"@, "next_d"@);
            stark_proofs::extend_steps(a, b) == seq![
                StepView::Commit { node: current, commitment: a },
                StepView::Derive { parent: current, child: next, tag: TransitionTag::DataDerive },
                StepView::Commit { node: next, commitment: b },
            ]
        }),
        ({
            let old = path("/sl2-rekey"@, "old_hgk"@);
            let new = path("/sl2-rekey"@, "new_hgk"@);
            let new_d = path("/sl2-rekey"@, "new_d"@);
            stark_proofs::rekey_steps(a, b, link, d, head) == seq![
                StepView::Commit { node: old, commitment: a },
                StepView::Commit { node: new, commitment: b },
                StepView::Encrypt {
                    child: old,
                    parent: new,
                    tag: TransitionTag::ChainLink,
                    ciphertext: link,
                },
                StepView::Commit { node: new_d, commitment: d },
                StepView::Encrypt {
                    child: new_d,
                    parent: new,
                    tag: TransitionTag::DataHeadEncrypt,
                    ciphertext: head,
                },
            ]
        }),
        ({
            let group = path("/sl2-channel-grant"@, "group"@);
            let channel_key = path("/sl2-channel-grant"@, "channel_key"@);
            stark_proofs::channel_grant_steps(channel, a, b) == seq![
                StepView::Commit { node: group, commitment: a },
                StepView::Derive {
                    parent: group,
                    child: channel_key,
                    tag: TransitionTag::ChannelGrant(channel),
                },
                StepView::Commit { node: channel_key, commitment: b },
            ]
        }),
{
}

/// The inputs of a deletion are accepted exactly where there is a survivor, a
/// row of ciphertexts for each one, an older chain key under each of them but
/// the last, and none under the last.
pub proof fn law_delete_inputs_form_a_chain(
    survivors: Seq<DeleteKeysSurvivor>,
    links: Seq<GBCiphertextPair>,
)
    ensures
        stark_proofs::delete_inputs_fit(survivors, links) <==> {
            &&& survivors.len() > 0
            &&& links.len() == survivors.len()
            &&& links.last().older_gb_key_ciphertext is None
            &&& forall|i: int|
                0 <= i < links.len() - 1 ==> (#[trigger] links[i]).older_gb_key_ciphertext is Some
        },
{
    if links.len() > 0 {
        assert(links.last() == links[links.len() - 1]);
    }
}

/// The lists of a deletion are accepted exactly where they are as long as the
/// chain, which is not empty, and the links are one fewer.
pub proof fn law_delete_lists_match(heads: int, seqs: int, links: int, head_cts: int)
    requires
        heads >= 0,
        seqs >= 0,
        links >= 0,
        head_cts >= 0,
    ensures
        stark_proofs::delete_shape_fits(heads, seqs, links, head_cts) <==> {
            &&& heads == links + 1
            &&& heads == seqs
            &&& heads == head_cts
        },
{
}

/// What the accepted inputs of a deletion attest, whatever the backend, said of
/// the survivors and of their rows of ciphertexts.
pub proof fn law_delete_inputs_attest_rewrapping(
    scheme: KeyScheme,
    old_commitment: Seq<u8>,
    new_commitment: Seq<u8>,
    survivors: Seq<DeleteKeysSurvivor>,
    links: Seq<GBCiphertextPair>,
    old_hgk: Seq<u8>,
    new_hgk: Seq<u8>,
    b_keys: Seq<Seq<u8>>,
    d_keys: Seq<Seq<u8>>,
)
    requires
        stark_proofs::delete_inputs_fit(survivors, links),
        d_keys.len() == survivors.len(),
        b_keys.len() + 1 == survivors.len(),
        forall|i: int, j: int|
            #![trigger survivors[i], survivors[j]]
            0 <= i < survivors.len() && 0 <= j < survivors.len() && survivors[i].d_head_seq
                == survivors[j].d_head_seq ==> d_keys[i] == d_keys[j],
    ensures
        scheme.satisfies_all(
            stark_proofs::delete_keys(
                old_hgk,
                new_hgk,
                b_keys,
                d_keys,
                stark_proofs::survivor_seqs(survivors),
            ),
            stark_proofs::delete_input_steps(old_commitment, new_commitment, survivors, links),
        ) <==> {
            let chain = chain_of(new_hgk, b_keys);
            &&& (scheme.commit)(old_hgk) == old_commitment
            &&& (scheme.commit)(new_hgk) == new_commitment
            &&& new_hgk == (scheme.derive)(
                old_hgk,
                (scheme.line_tag)(TransitionTag::GroupDerive),
            )
            &&& forall|i: int|
                0 <= i < survivors.len() ==> (scheme.commit)(d_keys[i]) == (
                #[trigger] survivors[i]).d_head_commitment@
            &&& forall|i: int|
                0 <= i < links.len() - 1 ==> chain[i + 1] == (scheme.open)(
                    chain[i],
                    (scheme.line_tag)(TransitionTag::ChainLink),
                    (#[trigger] links[i]).older_gb_key_ciphertext->Some_0@,
                )
            &&& forall|i: int|
                0 <= i < links.len() ==> d_keys[i] == (scheme.open)(
                    chain[i],
                    (scheme.line_tag)(TransitionTag::DataHeadEncrypt),
                    (#[trigger] links[i]).d_head_ciphertext@,
                )
        },
{
    let commitments = stark_proofs::survivor_commitments(survivors);
    let seqs = stark_proofs::survivor_seqs(survivors);
    let link_cts = stark_proofs::link_cts(links);
    let head_cts = stark_proofs::head_cts(links);
    let chain = chain_of(new_hgk, b_keys);
    assert forall|i: int, j: int|
        #![trigger seqs[i], seqs[j]]
        0 <= i < d_keys.len() && 0 <= j < d_keys.len() && seqs[i] == seqs[j] implies d_keys[i]
        == d_keys[j] by {
        assert(seqs[i] == survivors[i].d_head_seq);
        assert(seqs[j] == survivors[j].d_head_seq);
    }
    law_delete_attests_rewrapping(
        scheme,
        old_commitment,
        new_commitment,
        commitments,
        seqs,
        link_cts,
        head_cts,
        old_hgk,
        new_hgk,
        b_keys,
        d_keys,
    );
    assert forall|i: int| 0 <= i < survivors.len() implies #[trigger] commitments[i]
        == survivors[i].d_head_commitment@ by {}
    assert forall|i: int| 0 <= i < links.len() - 1 implies #[trigger] link_cts[i]
        == links[i].older_gb_key_ciphertext->Some_0@ by {}
    assert forall|i: int| 0 <= i < links.len() implies #[trigger] head_cts[i]
        == links[i].d_head_ciphertext@ by {}
    let keys = stark_proofs::delete_keys(old_hgk, new_hgk, b_keys, d_keys, seqs);
    let steps = stark_proofs::delete_input_steps(
        old_commitment,
        new_commitment,
        survivors,
        links,
    );
    if scheme.satisfies_all(keys, steps) {
        assert forall|i: int| 0 <= i < survivors.len() implies (scheme.commit)(d_keys[i]) == (
        #[trigger] survivors[i]).d_head_commitment@ by {
            assert(commitments[i] == survivors[i].d_head_commitment@);
        }
        assert forall|i: int| 0 <= i < links.len() - 1 implies chain[i + 1] == (scheme.open)(
            chain[i],
            (scheme.line_tag)(TransitionTag::ChainLink),
            (#[trigger] links[i]).older_gb_key_ciphertext->Some_0@,
        ) by {
            assert(link_cts[i] == links[i].older_gb_key_ciphertext->Some_0@);
        }
        assert forall|i: int| 0 <= i < links.len() implies d_keys[i] == (scheme.open)(
            chain[i],
            (scheme.line_tag)(TransitionTag::DataHeadEncrypt),
            (#[trigger] links[i]).d_head_ciphertext@,
        ) by {
            assert(head_cts[i] == links[i].d_head_ciphertext@);
        }
    }
}

/// The inputs of a deletion go into its statement as they are given: each
/// survivor's sequence number and commitment, and each row's two ciphertexts, in
/// order.
pub proof fn law_delete_inputs_are_taken_as_given(
    survivors: Seq<DeleteKeysSurvivor>,
    links: Seq<GBCiphertextPair>,
)
    requires
        links.len() > 0,
    ensures
        stark_proofs::survivor_seqs(survivors).len() == survivors.len(),
        stark_proofs::survivor_commitments(survivors).len() == survivors.len(),
        stark_proofs::head_cts(links).len() == links.len(),
        stark_proofs::link_cts(links).len() == links.len() - 1,
        forall|i: int|
            0 <= i < survivors.len() ==> {
                &&& stark_proofs::survivor_seqs(survivors)[i] == (
                #[trigger] survivors[i]).d_head_seq
                &&& stark_proofs::survivor_commitments(survivors)[i]
                    == survivors[i].d_head_commitment@
            },
        forall|i: int|
            0 <= i < links.len() ==> stark_proofs::head_cts(links)[i] == (
            #[trigger] links[i]).d_head_ciphertext@,
        forall|i: int|
            0 <= i < links.len() - 1 ==> stark_proofs::link_cts(links)[i] == (
            #[trigger] links[i]).older_gb_key_ciphertext->Some_0@,
{
}

/// Lists of keys, commitments and ciphertexts stand for their bytes, in order.
pub proof fn law_lists_stand_for_their_bytes(
    keys: Seq<KeyMaterial>,
    commitments: Seq<KeyCommitment>,
    ciphertexts: Seq<EncryptedKeyMaterial>,
)
    ensures
        stark_proofs::key_bytes(keys).len() == keys.len(),
        stark_proofs::commitment_bytes(commitments).len() == commitments.len(),
        stark_proofs::ciphertext_bytes(ciphertexts).len() == ciphertexts.len(),
        forall|i: int|
            0 <= i < keys.len() ==> stark_proofs::key_bytes(keys)[i] == (
            #[trigger] keys[i]).bytes@,
        forall|i: int|
            0 <= i < commitments.len() ==> stark_proofs::commitment_bytes(commitments)[i] == (
            #[trigger] commitments[i]).bytes@,
        forall|i: int|
            0 <= i < ciphertexts.len() ==> stark_proofs::ciphertext_bytes(ciphertexts)[i] == (
            #[trigger] ciphertexts[i]).bytes@,
{
}

/// Only a channel's own derivation is made under a text of this library, and
/// that text is the channel's tag; the tags of the group line are left to the
/// backend.
pub proof fn law_tags_of_the_line_are_the_backends(tag: TransitionTag)
    ensures
        match tag {
            TransitionTag::ChannelGrant(channel) => transitions::derivation_text(tag) == Some(
                "es:l2:channel-root:"@ + text::int_text(channel as int),
            ),
            _ => transitions::derivation_text(tag) is None,
        },
{
}

} // verus!
