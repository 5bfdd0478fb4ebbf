//! Which key-tree transition each retention operation proves.
//!
//! Transition shapes are defined purely from the public data of the proof
//! inputs. The prover and the verifier build the same transition wherever they
//! are given the same public inputs.

use crate::keys::{EncryptedKeyMaterial, KeyCommitment, KeyManagerError, KeyMaterial};
use crate::text;
use crate::text::append_u64;
use crate::transitions;
use crate::transitions::{CanonicalPath, KeyTreeTransition, StepView, TransitionTag, WitnessKeys};
use vstd::prelude::*;
use vstd::string::*;

verus! {

pub const EXTEND_ROOT: &'static str = "/sl2-extend";

pub const REKEY_ROOT: &'static str = "/sl2-rekey";

pub const DELETE_ROOT: &'static str = "/sl2-delete";

pub const CHANNEL_GRANT_ROOT: &'static str = "/sl2-channel-grant";

pub const CURRENT_D: &'static str = "current_d";

pub const NEXT_D: &'static str = "next_d";

pub const OLD_HGK: &'static str = "old_hgk";

pub const NEW_HGK: &'static str = "new_hgk";

pub const NEW_D: &'static str = "new_d";

pub const GROUP: &'static str = "group";

pub const CHANNEL_KEY: &'static str = "channel_key";

/// The node `name` under `root`.
pub open spec fn node(root: &str, name: &str) -> Seq<char> {
    transitions::child_path(root@, name@)
}

/// The next data key is derived from the current one.
pub open spec fn extend_steps(current_d: Seq<u8>, next_d: Seq<u8>) -> Seq<StepView> {
    seq![
        StepView::Commit { node: node(EXTEND_ROOT, CURRENT_D), commitment: current_d },
        StepView::Derive {
            parent: node(EXTEND_ROOT, CURRENT_D),
            child: node(EXTEND_ROOT, NEXT_D),
            tag: TransitionTag::DataDerive,
        },
        StepView::Commit { node: node(EXTEND_ROOT, NEXT_D), commitment: next_d },
    ]
}

/// A fresh group key holds the old one and a fresh data key.
pub open spec fn rekey_steps(
    old_hgk: Seq<u8>,
    new_hgk: Seq<u8>,
    chain_link_ct: Seq<u8>,
    new_d: Seq<u8>,
    d_head_ct: Seq<u8>,
) -> Seq<StepView> {
    seq![
        StepView::Commit { node: node(REKEY_ROOT, OLD_HGK), commitment: old_hgk },
        StepView::Commit { node: node(REKEY_ROOT, NEW_HGK), commitment: new_hgk },
        StepView::Encrypt {
            child: node(REKEY_ROOT, OLD_HGK),
            parent: node(REKEY_ROOT, NEW_HGK),
            tag: TransitionTag::ChainLink,
            ciphertext: chain_link_ct,
        },
        StepView::Commit { node: node(REKEY_ROOT, NEW_D), commitment: new_d },
        StepView::Encrypt {
            child: node(REKEY_ROOT, NEW_D),
            parent: node(REKEY_ROOT, NEW_HGK),
            tag: TransitionTag::DataHeadEncrypt,
            ciphertext: d_head_ct,
        },
    ]
}

/// The channel's subtree key is derived from the group key for that channel.
pub open spec fn channel_grant_steps(channel: i64, group: Seq<u8>, channel_key: Seq<u8>) -> Seq<
    StepView,
> {
    seq![
        StepView::Commit { node: node(CHANNEL_GRANT_ROOT, GROUP), commitment: group },
        StepView::Derive {
            parent: node(CHANNEL_GRANT_ROOT, GROUP),
            child: node(CHANNEL_GRANT_ROOT, CHANNEL_KEY),
            tag: TransitionTag::ChannelGrant(channel),
        },
        StepView::Commit { node: node(CHANNEL_GRANT_ROOT, CHANNEL_KEY), commitment: channel_key },
    ]
}

/// The node of the data key head with sequence number `seq`.
pub open spec fn d_head_node(seq: int) -> Seq<char> {
    transitions::child_path(DELETE_ROOT@, "d"@ + text::int_text(seq))
}

/// The node of the group chain key at position `i`, newest first: the new group
/// key, then the older keys that survive.
pub open spec fn chain_node(i: int) -> Seq<char> {
    if i == 0 {
        node(DELETE_ROOT, NEW_HGK)
    } else {
        transitions::child_path(DELETE_ROOT@, "b"@ + text::int_text(i - 1))
    }
}

/// The new group key is derived from the old one.
pub open spec fn delete_group_steps(old_hgk: Seq<u8>, new_hgk: Seq<u8>) -> Seq<StepView> {
    seq![
        StepView::Commit { node: node(DELETE_ROOT, OLD_HGK), commitment: old_hgk },
        StepView::Derive {
            parent: node(DELETE_ROOT, OLD_HGK),
            child: node(DELETE_ROOT, NEW_HGK),
            tag: TransitionTag::GroupDerive,
        },
        StepView::Commit { node: node(DELETE_ROOT, NEW_HGK), commitment: new_hgk },
    ]
}

/// The surviving data key heads have these commitments.
pub open spec fn delete_head_steps(commitments: Seq<Seq<u8>>, seqs: Seq<u64>) -> Seq<StepView> {
    Seq::new(
        commitments.len(),
        |i: int|
            StepView::Commit { node: d_head_node(seqs[i] as int), commitment: commitments[i] },
    )
}

/// Each chain key holds the next older one.
pub open spec fn delete_link_steps(cts: Seq<Seq<u8>>) -> Seq<StepView> {
    Seq::new(
        cts.len(),
        |i: int|
            StepView::Encrypt {
                child: chain_node(i + 1),
                parent: chain_node(i),
                tag: TransitionTag::ChainLink,
                ciphertext: cts[i],
            },
    )
}

/// Each chain key holds its data key head.
pub open spec fn delete_reencrypt_steps(seqs: Seq<u64>, cts: Seq<Seq<u8>>) -> Seq<StepView> {
    Seq::new(
        cts.len(),
        |i: int|
            StepView::Encrypt {
                child: d_head_node(seqs[i] as int),
                parent: chain_node(i),
                tag: TransitionTag::DataHeadEncrypt,
                ciphertext: cts[i],
            },
    )
}

/// Deletion: the group key is derived anew, and the surviving chain is wrapped
/// again below it.
pub open spec fn delete_steps(
    old_hgk: Seq<u8>,
    new_hgk: Seq<u8>,
    commitments: Seq<Seq<u8>>,
    seqs: Seq<u64>,
    link_cts: Seq<Seq<u8>>,
    head_cts: Seq<Seq<u8>>,
) -> Seq<StepView> {
    delete_group_steps(old_hgk, new_hgk) + delete_head_steps(commitments, seqs)
        + delete_link_steps(link_cts) + delete_reencrypt_steps(seqs, head_cts)
}

/// Whether the lists of a deletion fit together: one head, one sequence number
/// and one head ciphertext for each chain key, one link between each two.
pub open spec fn delete_shape_fits(heads: int, seqs: int, links: int, head_cts: int) -> bool {
    heads > 0 && seqs == heads && head_cts == heads && links + 1 == heads
}

pub open spec fn commitment_bytes(s: Seq<KeyCommitment>) -> Seq<Seq<u8>> {
    s.map_values(|c: KeyCommitment| c@)
}

pub open spec fn ciphertext_bytes(s: Seq<EncryptedKeyMaterial>) -> Seq<Seq<u8>> {
    s.map_values(|c: EncryptedKeyMaterial| c@)
}

pub fn build_extend_transition(
    current_d_commitment: KeyCommitment,
    next_d_commitment: KeyCommitment,
) -> (r: KeyTreeTransition)
    ensures
        r@ == extend_steps(current_d_commitment@, next_d_commitment@),
{
    let root = CanonicalPath::new(EXTEND_ROOT);
    let current_d_id = root.child(CURRENT_D);
    let next_d_id = root.child(NEXT_D);
    let mut t = KeyTreeTransition::new();
    t.commit(current_d_id.clone(), current_d_commitment);
    t.derive(current_d_id, next_d_id.clone(), TransitionTag::DataDerive);
    t.commit(next_d_id, next_d_commitment);
    t
}

pub fn build_rekey_transition(
    old_hgk_commitment: KeyCommitment,
    new_hgk_commitment: KeyCommitment,
    chain_link_ct: EncryptedKeyMaterial,
    new_d_commitment: KeyCommitment,
    d_head_ct: EncryptedKeyMaterial,
) -> (r: KeyTreeTransition)
    ensures
        r@ == rekey_steps(
            old_hgk_commitment@,
            new_hgk_commitment@,
            chain_link_ct@,
            new_d_commitment@,
            d_head_ct@,
        ),
{
    let root = CanonicalPath::new(REKEY_ROOT);
    let old_hgk_id = root.child(OLD_HGK);
    let new_hgk_id = root.child(NEW_HGK);
    let new_d_id = root.child(NEW_D);
    let mut t = KeyTreeTransition::new();
    t.commit(old_hgk_id.clone(), old_hgk_commitment);
    t.commit(new_hgk_id.clone(), new_hgk_commitment);
    t.encrypt(old_hgk_id, new_hgk_id.clone(), TransitionTag::ChainLink, chain_link_ct);
    t.commit(new_d_id.clone(), new_d_commitment);
    t.encrypt(new_d_id, new_hgk_id, TransitionTag::DataHeadEncrypt, d_head_ct);
    t
}

/// Channel-grant transition: a single derive edge. Its tag is specific to the
/// channel, so a proof for one channel cannot serve for another.
pub fn build_channel_grant_transition(
    channel: i64,
    group_commitment: KeyCommitment,
    channel_commitment: KeyCommitment,
) -> (r: KeyTreeTransition)
    ensures
        r@ == channel_grant_steps(channel, group_commitment@, channel_commitment@),
{
    let root = CanonicalPath::new(CHANNEL_GRANT_ROOT);
    let group_id = root.child(GROUP);
    let channel_id = root.child(CHANNEL_KEY);
    let mut t = KeyTreeTransition::new();
    t.commit(group_id.clone(), group_commitment);
    t.derive(group_id, channel_id.clone(), TransitionTag::ChannelGrant(channel));
    t.commit(channel_id, channel_commitment);
    t
}

/// The path of a data key head.
fn d_head_path(root: &CanonicalPath, seq: u64) -> (r: CanonicalPath)
    requires
        root@ == DELETE_ROOT@,
    ensures
        r@ == d_head_node(seq as int),
{
    let mut name = "d".to_owned();
    append_u64(&mut name, seq);
    root.child(name.as_str())
}

/// The path of the surviving chain key at position `i`, the new group key not
/// counted.
fn b_path(root: &CanonicalPath, i: usize) -> (r: CanonicalPath)
    requires
        root@ == DELETE_ROOT@,
    ensures
        r@ == chain_node(i + 1),
{
    let mut name = "b".to_owned();
    append_u64(&mut name, i as u64);
    root.child(name.as_str())
}

/// The path of the chain key at position `i`.
fn chain_path(root: &CanonicalPath, i: usize) -> (r: CanonicalPath)
    requires
        root@ == DELETE_ROOT@,
    ensures
        r@ == chain_node(i as int),
{
    if i == 0 {
        root.child(NEW_HGK)
    } else {
        b_path(root, i - 1)
    }
}

pub fn build_delete_transition(
    old_hgk_commitment: KeyCommitment,
    new_hgk_commitment: KeyCommitment,
    d_head_commitments: &[KeyCommitment],
    d_head_seqs: &[u64],
    chain_link_cts: &[EncryptedKeyMaterial],
    d_head_cts: &[EncryptedKeyMaterial],
) -> (r: Result<KeyTreeTransition, KeyManagerError>)
    ensures
        r is Ok <==> delete_shape_fits(
            d_head_commitments@.len() as int,
            d_head_seqs@.len() as int,
            chain_link_cts@.len() as int,
            d_head_cts@.len() as int,
        ),
        r is Ok ==> r->Ok_0@ == delete_steps(
            old_hgk_commitment@,
            new_hgk_commitment@,
            commitment_bytes(d_head_commitments@),
            d_head_seqs@,
            ciphertext_bytes(chain_link_cts@),
            ciphertext_bytes(d_head_cts@),
        ),
{
    let n: usize = d_head_commitments.len();
    if n == 0 || d_head_seqs.len() != n || d_head_cts.len() != n || chain_link_cts.len() != n - 1 {
        return Err(KeyManagerError);
    }
    let root = CanonicalPath::new(DELETE_ROOT);
    let old_hgk_id = root.child(OLD_HGK);
    let new_hgk_id = root.child(NEW_HGK);
    let mut t = KeyTreeTransition::new();

    // The group key: commit to the old one, derive and commit to the new one.
    t.commit(old_hgk_id.clone(), old_hgk_commitment);
    t.derive(old_hgk_id, new_hgk_id.clone(), TransitionTag::GroupDerive);
    t.commit(new_hgk_id, new_hgk_commitment);
    let ghost group_steps = delete_group_steps(old_hgk_commitment@, new_hgk_commitment@);
    let ghost head_steps = delete_head_steps(
        commitment_bytes(d_head_commitments@),
        d_head_seqs@,
    );
    let ghost link_steps = delete_link_steps(ciphertext_bytes(chain_link_cts@));
    let ghost reencrypt_steps = delete_reencrypt_steps(
        d_head_seqs@,
        ciphertext_bytes(d_head_cts@),
    );
    assert(t@ =~= group_steps + head_steps.take(0));

    // Commitments of the data key heads.
    let mut i: usize = 0;
    while i < n
        invariant
            i <= n,
            root@ == DELETE_ROOT@,
            n == d_head_commitments@.len(),
            n == d_head_seqs@.len(),
            head_steps == delete_head_steps(
                commitment_bytes(d_head_commitments@),
                d_head_seqs@,
            ),
            t@ == group_steps + head_steps.take(i as int),
        decreases n - i,
    {
        t.commit(d_head_path(&root, d_head_seqs[i]), d_head_commitments[i].clone());
        assert(head_steps.take(i + 1) =~= head_steps.take(i as int).push(head_steps[i as int]));
        assert(t@ =~= group_steps + head_steps.take(i + 1));
        i = i + 1;
    }
    assert(t@ =~= group_steps + head_steps + link_steps.take(0));

    // Each chain key encrypts the next older one.
    let mut i: usize = 0;
    while i < n - 1
        invariant
            0 < n,
            i <= n - 1,
            root@ == DELETE_ROOT@,
            n - 1 == chain_link_cts@.len(),
            link_steps == delete_link_steps(ciphertext_bytes(chain_link_cts@)),
            t@ == group_steps + head_steps + link_steps.take(i as int),
        decreases n - 1 - i,
    {
        t.encrypt(
            b_path(&root, i),
            chain_path(&root, i),
            TransitionTag::ChainLink,
            chain_link_cts[i].clone(),
        );
        assert(link_steps.take(i + 1) =~= link_steps.take(i as int).push(link_steps[i as int]));
        assert(t@ =~= group_steps + head_steps + link_steps.take(i + 1));
        i = i + 1;
    }
    assert(t@ =~= group_steps + head_steps + link_steps + reencrypt_steps.take(0));

    // Each chain key encrypts its data key head.
    let mut i: usize = 0;
    while i < n
        invariant
            i <= n,
            root@ == DELETE_ROOT@,
            n == d_head_seqs@.len(),
            n == d_head_cts@.len(),
            reencrypt_steps == delete_reencrypt_steps(
                d_head_seqs@,
                ciphertext_bytes(d_head_cts@),
            ),
            t@ == group_steps + head_steps + link_steps + reencrypt_steps.take(i as int),
        decreases n - i,
    {
        t.encrypt(
            d_head_path(&root, d_head_seqs[i]),
            chain_path(&root, i),
            TransitionTag::DataHeadEncrypt,
            d_head_cts[i].clone(),
        );
        assert(reencrypt_steps.take(i + 1) =~= reencrypt_steps.take(i as int).push(
            reencrypt_steps[i as int],
        ));
        assert(t@ =~= group_steps + head_steps + link_steps + reencrypt_steps.take(i + 1));
        i = i + 1;
    }
    assert(reencrypt_steps.take(n as int) =~= reencrypt_steps);
    Ok(t)
}

pub open spec fn key_bytes(s: Seq<KeyMaterial>) -> Seq<Seq<u8>> {
    s.map_values(|k: KeyMaterial| k@)
}

/// The keys at the nodes of an extend transition.
pub open spec fn extend_keys(current_d: Seq<u8>, next_d: Seq<u8>) -> Map<Seq<char>, Seq<u8>> {
    Map::empty().insert(node(EXTEND_ROOT, CURRENT_D), current_d).insert(
        node(EXTEND_ROOT, NEXT_D),
        next_d,
    )
}

/// The keys at the nodes of a rekey transition.
pub open spec fn rekey_keys(old_hgk: Seq<u8>, new_hgk: Seq<u8>, new_d: Seq<u8>) -> Map<
    Seq<char>,
    Seq<u8>,
> {
    Map::empty().insert(node(REKEY_ROOT, OLD_HGK), old_hgk).insert(
        node(REKEY_ROOT, NEW_HGK),
        new_hgk,
    ).insert(node(REKEY_ROOT, NEW_D), new_d)
}

/// The keys at the nodes of a channel-grant transition.
pub open spec fn channel_grant_keys(group: Seq<u8>, channel_key: Seq<u8>) -> Map<
    Seq<char>,
    Seq<u8>,
> {
    Map::empty().insert(node(CHANNEL_GRANT_ROOT, GROUP), group).insert(
        node(CHANNEL_GRANT_ROOT, CHANNEL_KEY),
        channel_key,
    )
}

/// `keys` with the surviving chain keys added.
pub open spec fn with_chain_keys(keys: Map<Seq<char>, Seq<u8>>, b_keys: Seq<Seq<u8>>) -> Map<
    Seq<char>,
    Seq<u8>,
>
    decreases b_keys.len(),
{
    if b_keys.len() == 0 {
        keys
    } else {
        with_chain_keys(keys, b_keys.drop_last()).insert(
            chain_node(b_keys.len() as int),
            b_keys.last(),
        )
    }
}

/// `keys` with the data key heads added, each under its sequence number.
pub open spec fn with_head_keys(
    keys: Map<Seq<char>, Seq<u8>>,
    d_keys: Seq<Seq<u8>>,
    seqs: Seq<u64>,
) -> Map<Seq<char>, Seq<u8>>
    decreases d_keys.len(),
{
    if d_keys.len() == 0 {
        keys
    } else {
        with_head_keys(keys, d_keys.drop_last(), seqs).insert(
            d_head_node(seqs[d_keys.len() - 1] as int),
            d_keys.last(),
        )
    }
}

/// The keys at the nodes of a delete transition.
pub open spec fn delete_keys(
    old_hgk: Seq<u8>,
    dgk: Seq<u8>,
    b_keys: Seq<Seq<u8>>,
    d_keys: Seq<Seq<u8>>,
    seqs: Seq<u64>,
) -> Map<Seq<char>, Seq<u8>> {
    with_head_keys(
        with_chain_keys(
            Map::empty().insert(node(DELETE_ROOT, OLD_HGK), old_hgk).insert(
                node(DELETE_ROOT, NEW_HGK),
                dgk,
            ),
            b_keys,
        ),
        d_keys,
        seqs,
    )
}

pub fn build_extend_witness(current_d_key: &KeyMaterial, next_d_key: &KeyMaterial) -> (r:
    WitnessKeys)
    ensures
        r@ == extend_keys(current_d_key@, next_d_key@),
{
    let root = CanonicalPath::new(EXTEND_ROOT);
    let mut keys = WitnessKeys::new();
    keys.insert(root.child(CURRENT_D).text, current_d_key.clone());
    keys.insert(root.child(NEXT_D).text, next_d_key.clone());
    keys
}

pub fn build_rekey_witness(
    old_hgk: &KeyMaterial,
    new_hgk: &KeyMaterial,
    new_d_head: &KeyMaterial,
) -> (r: WitnessKeys)
    ensures
        r@ == rekey_keys(old_hgk@, new_hgk@, new_d_head@),
{
    let root = CanonicalPath::new(REKEY_ROOT);
    let mut keys = WitnessKeys::new();
    keys.insert(root.child(OLD_HGK).text, old_hgk.clone());
    keys.insert(root.child(NEW_HGK).text, new_hgk.clone());
    keys.insert(root.child(NEW_D).text, new_d_head.clone());
    keys
}

pub fn build_channel_grant_witness(group_key: &KeyMaterial, channel_key: &KeyMaterial) -> (r:
    WitnessKeys)
    ensures
        r@ == channel_grant_keys(group_key@, channel_key@),
{
    let root = CanonicalPath::new(CHANNEL_GRANT_ROOT);
    let mut keys = WitnessKeys::new();
    keys.insert(root.child(GROUP).text, group_key.clone());
    keys.insert(root.child(CHANNEL_KEY).text, channel_key.clone());
    keys
}

/// Each data key head needs a sequence number.
pub fn build_delete_witness(
    old_hgk: &KeyMaterial,
    dgk: &KeyMaterial,
    b_keys: &[KeyMaterial],
    d_head_keys: &[KeyMaterial],
    d_head_seqs: &[u64],
) -> (r: WitnessKeys)
    requires
        d_head_keys@.len() <= d_head_seqs@.len(),
    ensures
        r@ == delete_keys(
            old_hgk@,
            dgk@,
            key_bytes(b_keys@),
            key_bytes(d_head_keys@),
            d_head_seqs@,
        ),
{
    let root = CanonicalPath::new(DELETE_ROOT);
    let mut keys = WitnessKeys::new();
    keys.insert(root.child(OLD_HGK).text, old_hgk.clone());
    keys.insert(root.child(NEW_HGK).text, dgk.clone());
    let ghost group_keys = keys@;
    let ghost b = key_bytes(b_keys@);
    let ghost d = key_bytes(d_head_keys@);
    let mut i: usize = 0;
    while i < b_keys.len()
        invariant
            root@ == DELETE_ROOT@,
            b == key_bytes(b_keys@),
            i <= b_keys@.len(),
            keys@ == with_chain_keys(group_keys, b.take(i as int)),
        decreases b_keys@.len() - i,
    {
        assert(b.take(i + 1).drop_last() =~= b.take(i as int));
        keys.insert(b_path(&root, i).text, b_keys[i].clone());
        i = i + 1;
    }
    assert(b.take(i as int) =~= b);
    let ghost chain_keys = keys@;
    let mut i: usize = 0;
    while i < d_head_keys.len()
        invariant
            root@ == DELETE_ROOT@,
            d == key_bytes(d_head_keys@),
            i <= d_head_keys@.len() <= d_head_seqs@.len(),
            keys@ == with_head_keys(chain_keys, d.take(i as int), d_head_seqs@),
        decreases d_head_keys@.len() - i,
    {
        assert(d.take(i + 1).drop_last() =~= d.take(i as int));
        keys.insert(d_head_path(&root, d_head_seqs[i]).text, d_head_keys[i].clone());
        i = i + 1;
    }
    assert(d.take(i as int) =~= d);
    keys
}

/// A row of the data key table.
#[derive(Debug, PartialEq, Eq)]
pub struct DTableRow {
    pub seq: u64,
    pub commitment: KeyCommitment,
}

/// A row of the group key table.
#[derive(Debug, PartialEq, Eq)]
pub struct FGKRow {
    pub d_start: u64,
    pub commitment: KeyCommitment,
}

/// The ciphertexts under one chain key: the next older chain key, if there is
/// one, and the data key head.
#[derive(Debug, PartialEq, Eq)]
pub struct GBCiphertextPair {
    pub older_gb_key_ciphertext: Option<EncryptedKeyMaterial>,
    pub d_head_ciphertext: EncryptedKeyMaterial,
}

/// A data key head that a deletion keeps.
#[derive(Debug, PartialEq, Eq)]
pub struct DeleteKeysSurvivor {
    pub d_head_seq: u64,
    pub d_head_commitment: KeyCommitment,
}

/// The public inputs of an extend proof.
pub struct ExtendVerifyInput<'a> {
    pub current_d_commitment: KeyCommitment,
    pub next_row: &'a DTableRow,
}

/// The inputs of an extend proof.
pub struct ExtendProofInput<'a> {
    pub current_d_commitment: KeyCommitment,
    pub next_row: &'a DTableRow,
    pub current_d_key: &'a KeyMaterial,
    pub next_d_key: &'a KeyMaterial,
}

/// The public inputs of a rekey proof.
pub struct RekeyVerifyInput<'a> {
    pub old_hgk_commitment: KeyCommitment,
    pub next_fgk_row: &'a FGKRow,
    pub next_row: &'a DTableRow,
    pub next_head_links: &'a GBCiphertextPair,
}

/// The inputs of a rekey proof.
pub struct RekeyProofInput<'a> {
    pub old_hgk_commitment: KeyCommitment,
    pub next_fgk_row: &'a FGKRow,
    pub next_row: &'a DTableRow,
    pub next_head_links: &'a GBCiphertextPair,
    pub old_hgk: &'a KeyMaterial,
    pub new_hgk: &'a KeyMaterial,
    pub new_d_head: &'a KeyMaterial,
}

/// The public inputs of a delete proof.
pub struct DeleteKeysVerifyInput<'a> {
    pub old_hgk_commitment: KeyCommitment,
    pub dgk_commitment: KeyCommitment,
    pub survivors: &'a [DeleteKeysSurvivor],
    pub next_links: &'a [GBCiphertextPair],
}

/// The inputs of a delete proof.
pub struct DeleteKeysProofInput<'a> {
    pub old_hgk_commitment: KeyCommitment,
    pub dgk_commitment: KeyCommitment,
    pub survivors: &'a [DeleteKeysSurvivor],
    pub next_links: &'a [GBCiphertextPair],
    pub old_hgk: &'a KeyMaterial,
    pub new_hgk: &'a KeyMaterial,
    pub b_keys: &'a [KeyMaterial],
    pub d_head_keys: &'a [KeyMaterial],
}

/// The public inputs of a channel-grant proof.
pub struct ChannelGrantVerifyInput {
    pub channel: i64,
    pub group_commitment: KeyCommitment,
    pub channel_commitment: KeyCommitment,
}

/// The inputs of a channel-grant proof: the two keys and their commitments.
pub struct ChannelGrantProofInput {
    pub channel: i64,
    pub group_key: KeyMaterial,
    pub group_commitment: KeyCommitment,
    pub channel_key: KeyMaterial,
    pub channel_commitment: KeyCommitment,
}

pub open spec fn survivor_commitments(s: Seq<DeleteKeysSurvivor>) -> Seq<Seq<u8>> {
    s.map_values(|v: DeleteKeysSurvivor| v.d_head_commitment@)
}

pub open spec fn survivor_seqs(s: Seq<DeleteKeysSurvivor>) -> Seq<u64> {
    s.map_values(|v: DeleteKeysSurvivor| v.d_head_seq)
}

/// The ciphertexts of the older chain keys under the newer ones.
pub open spec fn link_cts(links: Seq<GBCiphertextPair>) -> Seq<Seq<u8>> {
    Seq::new(
        (links.len() - 1) as nat,
        |i: int| links[i].older_gb_key_ciphertext->Some_0@,
    )
}

pub open spec fn head_cts(links: Seq<GBCiphertextPair>) -> Seq<Seq<u8>> {
    links.map_values(|link: GBCiphertextPair| link.d_head_ciphertext@)
}

/// Whether the inputs of a deletion are well formed: a chain that is not empty,
/// one link row for each survivor, and an older key under every chain key but
/// the oldest, which has none.
pub open spec fn delete_inputs_fit(
    survivors: Seq<DeleteKeysSurvivor>,
    links: Seq<GBCiphertextPair>,
) -> bool {
    &&& survivors.len() > 0
    &&& links.len() == survivors.len()
    &&& forall|i: int|
        0 <= i < links.len() ==> ((#[trigger] links[i]).older_gb_key_ciphertext is None <==> i
            == links.len() - 1)
}

/// The transition that well-formed inputs of a deletion stand for.
pub open spec fn delete_input_steps(
    old_hgk: Seq<u8>,
    dgk: Seq<u8>,
    survivors: Seq<DeleteKeysSurvivor>,
    links: Seq<GBCiphertextPair>,
) -> Seq<StepView> {
    delete_steps(
        old_hgk,
        dgk,
        survivor_commitments(survivors),
        survivor_seqs(survivors),
        link_cts(links),
        head_cts(links),
    )
}

/// Extract delete-keys public inputs and build the transition.
///
/// Returns the transition and the data key heads' sequence numbers, which the
/// witness needs.
pub fn delete_transition_from_inputs(
    old_hgk_commitment: KeyCommitment,
    dgk_commitment: KeyCommitment,
    survivors: &[DeleteKeysSurvivor],
    next_links: &[GBCiphertextPair],
) -> (r: Result<(KeyTreeTransition, Vec<u64>), KeyManagerError>)
    ensures
        r is Ok <==> delete_inputs_fit(survivors@, next_links@),
        r is Ok ==> {
            &&& r->Ok_0.0@ == delete_input_steps(
                old_hgk_commitment@,
                dgk_commitment@,
                survivors@,
                next_links@,
            )
            &&& r->Ok_0.1@ == survivor_seqs(survivors@)
        },
{
    let n: usize = survivors.len();
    if n == 0 || next_links.len() != n {
        return Err(KeyManagerError);
    }
    // The oldest chain key has no older sibling: an unexpected ciphertext there
    // would not be bound by the proof.
    if next_links[n - 1].older_gb_key_ciphertext.is_some() {
        assert(next_links@[n - 1].older_gb_key_ciphertext is Some);
        return Err(KeyManagerError);
    }
    let mut commitments: Vec<KeyCommitment> = Vec::new();
    let mut seqs: Vec<u64> = Vec::new();
    let mut heads: Vec<EncryptedKeyMaterial> = Vec::new();
    let mut links: Vec<EncryptedKeyMaterial> = Vec::new();
    let mut i: usize = 0;
    while i < n
        invariant
            n == survivors@.len() == next_links@.len(),
            i <= n,
            n > 0,
            next_links@[n - 1].older_gb_key_ciphertext is None,
            forall|j: int|
                0 <= j < i && j < n - 1 ==> (
                #[trigger] next_links@[j]).older_gb_key_ciphertext is Some,
            commitments@.len() == i,
            seqs@.len() == i,
            heads@.len() == i,
            links@.len() == (if i < n {
                i as int
            } else {
                n - 1
            }),
            forall|j: int|
                0 <= j < i ==> (#[trigger] commitments@[j])@ == survivors@[j].d_head_commitment@,
            forall|j: int| 0 <= j < i ==> #[trigger] seqs@[j] == survivors@[j].d_head_seq,
            forall|j: int|
                0 <= j < i ==> (#[trigger] heads@[j])@ == next_links@[j].d_head_ciphertext@,
            forall|j: int|
                0 <= j < links@.len() ==> (#[trigger] links@[j])@
                    == next_links@[j].older_gb_key_ciphertext->Some_0@,
        decreases n - i,
    {
        commitments.push(survivors[i].d_head_commitment.clone());
        seqs.push(survivors[i].d_head_seq);
        heads.push(next_links[i].d_head_ciphertext.clone());
        match &next_links[i].older_gb_key_ciphertext {
            Some(ct) => links.push(ct.clone()),
            None => {
                if i < n - 1 {
                    assert(next_links@[i as int].older_gb_key_ciphertext is None);
                    return Err(KeyManagerError);
                }
            },
        }
        i = i + 1;
    }
    proof {
        assert(commitment_bytes(commitments@) =~= survivor_commitments(survivors@));
        assert(seqs@ =~= survivor_seqs(survivors@));
        assert(ciphertext_bytes(heads@) =~= head_cts(next_links@));
        assert(ciphertext_bytes(links@) =~= link_cts(next_links@));
    }
    match build_delete_transition(
        old_hgk_commitment,
        dgk_commitment,
        commitments.as_slice(),
        seqs.as_slice(),
        links.as_slice(),
        heads.as_slice(),
    ) {
        Ok(transition) => Ok((transition, seqs)),
        Err(e) => Err(e),
    }
}

/// What is handed to the proof system: a statement and the keys behind it.
pub struct ProofRequest {
    pub transition: KeyTreeTransition,
    pub keys: WitnessKeys,
}

/// Proof adapter for the retention operations: which statement each of them
/// proves and verifies. A proof is made for, or checked against, exactly the
/// transition returned.
#[derive(Clone, Copy, Debug, PartialEq, Eq, Structural)]
pub struct StarkProver;

impl Default for StarkProver {
    fn default() -> (r: Self)
        ensures
            r == StarkProver,
    {
        StarkProver
    }
}

impl StarkProver {
    pub fn prove_extend(&self, input: ExtendProofInput) -> (r: ProofRequest)
        ensures
            r.transition@ == extend_steps(input.current_d_commitment@, input.next_row.commitment@),
            r.keys@ == extend_keys(input.current_d_key@, input.next_d_key@),
    {
        ProofRequest {
            transition: build_extend_transition(
                input.current_d_commitment,
                input.next_row.commitment.clone(),
            ),
            keys: build_extend_witness(input.current_d_key, input.next_d_key),
        }
    }

    pub fn verify_extend(&self, input: ExtendVerifyInput) -> (r: KeyTreeTransition)
        ensures
            r@ == extend_steps(input.current_d_commitment@, input.next_row.commitment@),
    {
        build_extend_transition(input.current_d_commitment, input.next_row.commitment.clone())
    }

    /// Fails where there is no ciphertext of the old group key.
    pub fn prove_rekey(&self, input: RekeyProofInput) -> (r: Result<ProofRequest, KeyManagerError>)
        ensures
            r is Ok <==> input.next_head_links.older_gb_key_ciphertext is Some,
            r is Ok ==> {
                &&& r->Ok_0.transition@ == rekey_steps(
                    input.old_hgk_commitment@,
                    input.next_fgk_row.commitment@,
                    input.next_head_links.older_gb_key_ciphertext->Some_0@,
                    input.next_row.commitment@,
                    input.next_head_links.d_head_ciphertext@,
                )
                &&& r->Ok_0.keys@ == rekey_keys(input.old_hgk@, input.new_hgk@, input.new_d_head@)
            },
    {
        let transition = match self.verify_rekey(
            RekeyVerifyInput {
                old_hgk_commitment: input.old_hgk_commitment,
                next_fgk_row: input.next_fgk_row,
                next_row: input.next_row,
                next_head_links: input.next_head_links,
            },
        ) {
            Ok(transition) => transition,
            Err(e) => return Err(e),
        };
        Ok(
            ProofRequest {
                transition,
                keys: build_rekey_witness(input.old_hgk, input.new_hgk, input.new_d_head),
            },
        )
    }

    /// Fails where there is no ciphertext of the old group key.
    pub fn verify_rekey(&self, input: RekeyVerifyInput) -> (r: Result<
        KeyTreeTransition,
        KeyManagerError,
    >)
        ensures
            r is Ok <==> input.next_head_links.older_gb_key_ciphertext is Some,
            r is Ok ==> r->Ok_0@ == rekey_steps(
                input.old_hgk_commitment@,
                input.next_fgk_row.commitment@,
                input.next_head_links.older_gb_key_ciphertext->Some_0@,
                input.next_row.commitment@,
                input.next_head_links.d_head_ciphertext@,
            ),
    {
        match &input.next_head_links.older_gb_key_ciphertext {
            Some(chain_ct) => Ok(
                build_rekey_transition(
                    input.old_hgk_commitment,
                    input.next_fgk_row.commitment.clone(),
                    chain_ct.clone(),
                    input.next_row.commitment.clone(),
                    input.next_head_links.d_head_ciphertext.clone(),
                ),
            ),
            None => Err(KeyManagerError),
        }
    }

    /// Fails where the inputs are not well formed. There must not be more data
    /// key heads than survivors.
    pub fn prove_delete_keys(&self, input: DeleteKeysProofInput) -> (r: Result<
        ProofRequest,
        KeyManagerError,
    >)
        requires
            delete_inputs_fit(input.survivors@, input.next_links@) ==> input.d_head_keys@.len()
                <= input.survivors@.len(),
        ensures
            r is Ok <==> delete_inputs_fit(input.survivors@, input.next_links@),
            r is Ok ==> {
                &&& r->Ok_0.transition@ == delete_input_steps(
                    input.old_hgk_commitment@,
                    input.dgk_commitment@,
                    input.survivors@,
                    input.next_links@,
                )
                &&& r->Ok_0.keys@ == delete_keys(
                    input.old_hgk@,
                    input.new_hgk@,
                    key_bytes(input.b_keys@),
                    key_bytes(input.d_head_keys@),
                    survivor_seqs(input.survivors@),
                )
            },
    {
        match delete_transition_from_inputs(
            input.old_hgk_commitment,
            input.dgk_commitment,
            input.survivors,
            input.next_links,
        ) {
            Ok((transition, seqs)) => Ok(
                ProofRequest {
                    transition,
                    keys: build_delete_witness(
                        input.old_hgk,
                        input.new_hgk,
                        input.b_keys,
                        input.d_head_keys,
                        seqs.as_slice(),
                    ),
                },
            ),
            Err(e) => Err(e),
        }
    }

    /// Fails where the inputs are not well formed.
    pub fn verify_delete_keys(&self, input: DeleteKeysVerifyInput) -> (r: Result<
        KeyTreeTransition,
        KeyManagerError,
    >)
        ensures
            r is Ok <==> delete_inputs_fit(input.survivors@, input.next_links@),
            r is Ok ==> r->Ok_0@ == delete_input_steps(
                input.old_hgk_commitment@,
                input.dgk_commitment@,
                input.survivors@,
                input.next_links@,
            ),
    {
        match delete_transition_from_inputs(
            input.old_hgk_commitment,
            input.dgk_commitment,
            input.survivors,
            input.next_links,
        ) {
            Ok((transition, _seqs)) => Ok(transition),
            Err(e) => Err(e),
        }
    }

    pub fn prove_channel_grant(&self, input: ChannelGrantProofInput) -> (r: ProofRequest)
        ensures
            r.transition@ == channel_grant_steps(
                input.channel,
                input.group_commitment@,
                input.channel_commitment@,
            ),
            r.keys@ == channel_grant_keys(input.group_key@, input.channel_key@),
    {
        let keys = build_channel_grant_witness(&input.group_key, &input.channel_key);
        ProofRequest {
            transition: build_channel_grant_transition(
                input.channel,
                input.group_commitment,
                input.channel_commitment,
            ),
            keys,
        }
    }

    pub fn verify_channel_grant(&self, input: ChannelGrantVerifyInput) -> (r: KeyTreeTransition)
        ensures
            r@ == channel_grant_steps(
                input.channel,
                input.group_commitment@,
                input.channel_commitment@,
            ),
    {
        build_channel_grant_transition(
            input.channel,
            input.group_commitment,
            input.channel_commitment,
        )
    }

    /// What a verifier answers once the proof system has checked the proof.
    pub fn proof_verdict(&self, proof_is_valid: bool) -> (r: Result<(), KeyManagerError>)
        ensures
            r is Ok <==> proof_is_valid,
    {
        if proof_is_valid {
            Ok(())
        } else {
            Err(KeyManagerError)
        }
    }
}

} // verus!
