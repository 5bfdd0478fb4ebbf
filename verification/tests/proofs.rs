use encrypted_spaces::keys::{EncryptedKeyMaterial, KeyCommitment, KeyManagerError, KeyMaterial};
use encrypted_spaces::stark_proofs::{
    build_channel_grant_transition, build_channel_grant_witness, build_delete_transition,
    build_delete_witness, build_extend_transition, build_extend_witness, build_rekey_transition,
    build_rekey_witness, delete_transition_from_inputs, ChannelGrantProofInput,
    ChannelGrantVerifyInput, DTableRow, DeleteKeysProofInput, DeleteKeysSurvivor,
    DeleteKeysVerifyInput, ExtendProofInput, ExtendVerifyInput, FGKRow, GBCiphertextPair,
    RekeyProofInput, RekeyVerifyInput, StarkProver,
};
use encrypted_spaces::transitions::{
    CanonicalPath, KeyTreeTransition, TransitionStep, TransitionTag, WitnessKeys,
};
use encrypted_spaces::tree_keys::{channel_root, Derivation};
use sha2::{Digest, Sha256};

// A stand-in for the proof system: a proof is made only where the keys satisfy
// every claim of the transition, and holds for that transition alone.

fn hash(parts: &[&[u8]]) -> Vec<u8> {
    let mut h = Sha256::new();
    for part in parts {
        h.update((part.len() as u64).to_le_bytes());
        h.update(part);
    }
    h.finalize().to_vec()
}

fn key(label: &str) -> KeyMaterial {
    KeyMaterial::new(hash(&[b"key", label.as_bytes()]))
}

fn commit(key: &KeyMaterial) -> KeyCommitment {
    KeyCommitment::new(hash(&[b"commit", key.as_bytes()]))
}

fn tag_text(tag: TransitionTag) -> String {
    tag.derivation_tag().unwrap_or_else(|| format!("{tag:?}"))
}

fn derive(parent: &KeyMaterial, tag: TransitionTag) -> KeyMaterial {
    KeyMaterial::new(hash(&[b"derive", parent.as_bytes(), tag_text(tag).as_bytes()]))
}

fn run(d: &Derivation) -> KeyMaterial {
    KeyMaterial::new(hash(&[b"derive", d.parent.as_bytes(), d.tag.as_bytes()]))
}

fn make_enc(parent: &KeyMaterial, child: &KeyMaterial, tag: TransitionTag) -> EncryptedKeyMaterial {
    let under = derive(parent, tag);
    EncryptedKeyMaterial::new(hash(&[b"encrypt", under.as_bytes(), child.as_bytes()]))
}

fn holds(step: &TransitionStep, keys: &WitnessKeys) -> bool {
    let at = |path: &CanonicalPath| keys.get(&path.text);
    match step {
        TransitionStep::Commit { node, commitment } => {
            at(node).map(|k| commit(k) == *commitment) == Some(true)
        }
        TransitionStep::Derive { parent, child, tag } => match (at(parent), at(child)) {
            (Some(p), Some(c)) => derive(p, *tag) == *c,
            _ => false,
        },
        TransitionStep::Encrypt {
            child,
            parent,
            tag,
            ciphertext,
        } => match (at(parent), at(child)) {
            (Some(p), Some(c)) => make_enc(p, c, *tag) == *ciphertext,
            _ => false,
        },
    }
}

fn prove_transition(transition: &KeyTreeTransition, keys: &WitnessKeys) -> Vec<u8> {
    for step in &transition.steps {
        assert!(holds(step, keys), "claim does not hold: {step:?}");
    }
    hash(&[format!("{transition:?}").as_bytes()])
}

fn verify_transition(transition: &KeyTreeTransition, proof: &[u8]) -> Result<(), KeyManagerError> {
    let valid = hash(&[format!("{transition:?}").as_bytes()]) == proof;
    StarkProver.proof_verdict(valid)
}

#[test]
fn delete_mismatched_gb_node_count_returns_err() {
    let dummy_ct = make_enc(&key("x"), &key("y"), TransitionTag::ChainLink);

    // 2 commitments but 0 chain links (should be 1)
    let result = build_delete_transition(
        commit(&key("1")),
        commit(&key("2")),
        &[commit(&key("3")), commit(&key("4"))],
        &[0, 1],
        &[], // wrong: should have 1 entry
        &[dummy_ct.clone(), dummy_ct],
    );
    assert!(result.is_err());
}

#[test]
fn delete_zero_gb_nodes_returns_err() {
    let result = build_delete_transition(commit(&key("1")), commit(&key("2")), &[], &[], &[], &[]);
    assert!(result.is_err());
}

#[test]
fn delete_mismatched_lists_return_err() {
    let ct = || make_enc(&key("x"), &key("y"), TransitionTag::ChainLink);
    let c = || commit(&key("1"));
    // One sequence number too many, one head ciphertext too few, one link too many.
    assert!(build_delete_transition(c(), c(), &[c()], &[0, 1], &[], &[ct()]).is_err());
    assert!(build_delete_transition(c(), c(), &[c()], &[0], &[], &[]).is_err());
    assert!(build_delete_transition(c(), c(), &[c()], &[0], &[ct()], &[ct()]).is_err());
    assert!(build_delete_transition(c(), c(), &[c()], &[0], &[], &[ct()]).is_ok());
}

#[test]
fn delete_transition_rejects_tail_older_gb_ciphertext() {
    let old_hgk = key("old_hgk");
    let dgk = derive(&old_hgk, TransitionTag::GroupDerive);
    let d_head = key("d_head");
    let d_head_ct = make_enc(&dgk, &d_head, TransitionTag::DataHeadEncrypt);
    let stray_ct = make_enc(&dgk, &key("stray"), TransitionTag::ChainLink);

    let survivors = [DeleteKeysSurvivor {
        d_head_seq: 3,
        d_head_commitment: commit(&d_head),
    }];
    // Malformed: single-node chain must have None on the tail link.
    let next_links = [GBCiphertextPair {
        older_gb_key_ciphertext: Some(stray_ct),
        d_head_ciphertext: d_head_ct,
    }];

    let result =
        delete_transition_from_inputs(commit(&old_hgk), commit(&dgk), &survivors, &next_links);
    assert!(result.is_err());
}

#[test]
fn delete_inputs_must_be_well_formed() {
    let ct = || make_enc(&key("x"), &key("y"), TransitionTag::ChainLink);
    let c = || commit(&key("1"));
    let survivor = |seq| DeleteKeysSurvivor {
        d_head_seq: seq,
        d_head_commitment: c(),
    };
    let link = |older: bool| GBCiphertextPair {
        older_gb_key_ciphertext: if older { Some(ct()) } else { None },
        d_head_ciphertext: ct(),
    };
    assert!(delete_transition_from_inputs(c(), c(), &[], &[]).is_err());
    assert!(delete_transition_from_inputs(c(), c(), &[survivor(1)], &[]).is_err());
    // A link in the middle without an older key.
    assert!(delete_transition_from_inputs(
        c(),
        c(),
        &[survivor(2), survivor(1)],
        &[link(false), link(false)]
    )
    .is_err());
    let (transition, seqs) = delete_transition_from_inputs(
        c(),
        c(),
        &[survivor(2), survivor(1)],
        &[link(true), link(false)],
    )
    .unwrap();
    assert_eq!(seqs, vec![2, 1]);
    assert_eq!(transition.len(), 8);
}

#[test]
fn extend_proof_round_trip() {
    let current_d = key("current_d");
    let next_d = derive(&current_d, TransitionTag::DataDerive);

    let transition = build_extend_transition(commit(&current_d), commit(&next_d));
    assert_eq!(transition.len(), 3);

    let keys = build_extend_witness(&current_d, &next_d);
    let proof = prove_transition(&transition, &keys);
    assert!(verify_transition(&transition, &proof).is_ok());
}

#[test]
fn rekey_proof_round_trip() {
    let old_hgk = key("old_hgk");
    let new_hgk = key("new_hgk");
    let new_d_head = key("new_d_head");

    let chain_ct = make_enc(&new_hgk, &old_hgk, TransitionTag::ChainLink);
    let d_head_ct = make_enc(&new_hgk, &new_d_head, TransitionTag::DataHeadEncrypt);

    let transition = build_rekey_transition(
        commit(&old_hgk),
        commit(&new_hgk),
        chain_ct,
        commit(&new_d_head),
        d_head_ct,
    );
    assert_eq!(transition.len(), 5);

    let keys = build_rekey_witness(&old_hgk, &new_hgk, &new_d_head);
    let proof = prove_transition(&transition, &keys);
    assert!(verify_transition(&transition, &proof).is_ok());
}

#[test]
fn delete_single_gb_node_proof_round_trip() {
    let old_hgk = key("old_hgk");
    let dgk = derive(&old_hgk, TransitionTag::GroupDerive);
    let d_head = key("d_head");

    let d_head_ct = make_enc(&dgk, &d_head, TransitionTag::DataHeadEncrypt);

    let transition = build_delete_transition(
        commit(&old_hgk),
        commit(&dgk),
        &[commit(&d_head)],
        &[3],
        &[],
        &[d_head_ct],
    )
    .expect("build transition");
    assert_eq!(transition.len(), 5);

    let keys = build_delete_witness(&old_hgk, &dgk, &[], &[d_head], &[3]);
    let proof = prove_transition(&transition, &keys);
    assert!(verify_transition(&transition, &proof).is_ok());
}

#[test]
fn delete_two_gb_nodes_proof_round_trip() {
    let old_hgk = key("old_hgk");
    let dgk = derive(&old_hgk, TransitionTag::GroupDerive);
    let b0 = key("b0");
    let d_head_0 = key("d_head_0");
    let d_head_1 = key("d_head_1");

    let chain_ct = make_enc(&dgk, &b0, TransitionTag::ChainLink);
    let d_head_ct_0 = make_enc(&dgk, &d_head_0, TransitionTag::DataHeadEncrypt);
    let d_head_ct_1 = make_enc(&b0, &d_head_1, TransitionTag::DataHeadEncrypt);

    let transition = build_delete_transition(
        commit(&old_hgk),
        commit(&dgk),
        &[commit(&d_head_0), commit(&d_head_1)],
        &[5, 2],
        &[chain_ct],
        &[d_head_ct_0, d_head_ct_1],
    )
    .expect("build transition");
    assert_eq!(transition.len(), 8);

    let keys = build_delete_witness(&old_hgk, &dgk, &[b0], &[d_head_0, d_head_1], &[5, 2]);
    let proof = prove_transition(&transition, &keys);
    assert!(verify_transition(&transition, &proof).is_ok());
}

#[test]
fn stark_prover_extend_round_trip() {
    let current_d = key("current_d");
    let next_d = derive(&current_d, TransitionTag::DataDerive);
    let next_row = DTableRow {
        seq: 1,
        commitment: commit(&next_d),
    };

    let prover = StarkProver;
    let request = prover.prove_extend(ExtendProofInput {
        current_d_commitment: commit(&current_d),
        next_row: &next_row,
        current_d_key: &current_d,
        next_d_key: &next_d,
    });
    let proof = prove_transition(&request.transition, &request.keys);

    let statement = prover.verify_extend(ExtendVerifyInput {
        current_d_commitment: commit(&current_d),
        next_row: &next_row,
    });
    verify_transition(&statement, &proof).expect("verify");
}

#[test]
fn stark_prover_rekey_round_trip() {
    let old_hgk = key("old_hgk");
    let new_hgk = key("new_hgk");
    let new_d_head = key("new_d_head");

    let chain_ct = make_enc(&new_hgk, &old_hgk, TransitionTag::ChainLink);
    let d_head_ct = make_enc(&new_hgk, &new_d_head, TransitionTag::DataHeadEncrypt);

    let next_fgk_row = FGKRow {
        d_start: 1,
        commitment: commit(&new_hgk),
    };
    let next_row = DTableRow {
        seq: 1,
        commitment: commit(&new_d_head),
    };
    let links = GBCiphertextPair {
        older_gb_key_ciphertext: Some(chain_ct),
        d_head_ciphertext: d_head_ct,
    };

    let prover = StarkProver;
    let request = prover
        .prove_rekey(RekeyProofInput {
            old_hgk_commitment: commit(&old_hgk),
            next_fgk_row: &next_fgk_row,
            next_row: &next_row,
            next_head_links: &links,
            old_hgk: &old_hgk,
            new_hgk: &new_hgk,
            new_d_head: &new_d_head,
        })
        .expect("prove");
    let proof = prove_transition(&request.transition, &request.keys);

    let statement = prover
        .verify_rekey(RekeyVerifyInput {
            old_hgk_commitment: commit(&old_hgk),
            next_fgk_row: &next_fgk_row,
            next_row: &next_row,
            next_head_links: &links,
        })
        .expect("verify");
    verify_transition(&statement, &proof).expect("verify");
}

#[test]
fn rekey_needs_the_old_group_key_ciphertext() {
    let links = GBCiphertextPair {
        older_gb_key_ciphertext: None,
        d_head_ciphertext: make_enc(&key("a"), &key("b"), TransitionTag::DataHeadEncrypt),
    };
    let row = DTableRow {
        seq: 1,
        commitment: commit(&key("d")),
    };
    let fgk = FGKRow {
        d_start: 1,
        commitment: commit(&key("g")),
    };
    let prover = StarkProver::default();
    assert!(prover
        .verify_rekey(RekeyVerifyInput {
            old_hgk_commitment: commit(&key("o")),
            next_fgk_row: &fgk,
            next_row: &row,
            next_head_links: &links,
        })
        .is_err());
    assert!(prover
        .prove_rekey(RekeyProofInput {
            old_hgk_commitment: commit(&key("o")),
            next_fgk_row: &fgk,
            next_row: &row,
            next_head_links: &links,
            old_hgk: &key("o"),
            new_hgk: &key("g"),
            new_d_head: &key("d"),
        })
        .is_err());
}

#[test]
fn stark_prover_delete_keys_round_trip_two_nodes() {
    let old_hgk = key("old_hgk");
    let dgk = derive(&old_hgk, TransitionTag::GroupDerive);
    let b0 = key("b0");
    let d_head_0 = key("d_head_0");
    let d_head_1 = key("d_head_1");

    let chain_ct = make_enc(&dgk, &b0, TransitionTag::ChainLink);
    let d_head_ct_0 = make_enc(&dgk, &d_head_0, TransitionTag::DataHeadEncrypt);
    let d_head_ct_1 = make_enc(&b0, &d_head_1, TransitionTag::DataHeadEncrypt);

    let survivors = [
        DeleteKeysSurvivor {
            d_head_seq: 5,
            d_head_commitment: commit(&d_head_0),
        },
        DeleteKeysSurvivor {
            d_head_seq: 2,
            d_head_commitment: commit(&d_head_1),
        },
    ];
    let next_links = [
        GBCiphertextPair {
            older_gb_key_ciphertext: Some(chain_ct),
            d_head_ciphertext: d_head_ct_0,
        },
        GBCiphertextPair {
            older_gb_key_ciphertext: None,
            d_head_ciphertext: d_head_ct_1,
        },
    ];

    let prover = StarkProver;
    let request = prover
        .prove_delete_keys(DeleteKeysProofInput {
            old_hgk_commitment: commit(&old_hgk),
            dgk_commitment: commit(&dgk),
            survivors: &survivors,
            next_links: &next_links,
            old_hgk: &old_hgk,
            new_hgk: &dgk,
            b_keys: &[b0],
            d_head_keys: &[d_head_0, d_head_1],
        })
        .expect("prove");
    let proof = prove_transition(&request.transition, &request.keys);

    let statement = prover
        .verify_delete_keys(DeleteKeysVerifyInput {
            old_hgk_commitment: commit(&old_hgk),
            dgk_commitment: commit(&dgk),
            survivors: &survivors,
            next_links: &next_links,
        })
        .expect("verify");
    verify_transition(&statement, &proof).expect("verify");
}

#[test]
fn extend_proof_byte_corruption_rejected() {
    let current_d = key("current_d");
    let next_d = derive(&current_d, TransitionTag::DataDerive);

    let transition = build_extend_transition(commit(&current_d), commit(&next_d));
    let keys = build_extend_witness(&current_d, &next_d);
    let proof = prove_transition(&transition, &keys);

    let mut bad_proof = proof.clone();
    if bad_proof.len() > 10 {
        bad_proof[10] ^= 0xff;
    }
    assert!(verify_transition(&transition, &bad_proof).is_err());
}

#[test]
fn extend_same_shape_commitment_mutation_rejected() {
    let current_d = key("current_d");
    let next_d = derive(&current_d, TransitionTag::DataDerive);

    let transition = build_extend_transition(commit(&current_d), commit(&next_d));
    let keys = build_extend_witness(&current_d, &next_d);
    let proof = prove_transition(&transition, &keys);

    let wrong_transition = build_extend_transition(commit(&current_d), commit(&key("other")));
    assert!(verify_transition(&wrong_transition, &proof).is_err());
}

/// The commitment that a grant of the channel attests: to the key that the
/// grant's own derivation claim asks for.
fn channel_grant_commitment(group_key: &KeyMaterial, channel: i64) -> KeyCommitment {
    let any = commit(&key("any"));
    let transition = build_channel_grant_transition(channel, any.clone(), any);
    match &transition.steps[1] {
        TransitionStep::Derive { tag, .. } => commit(&derive(group_key, *tag)),
        other => panic!("not a derivation: {other:?}"),
    }
}

#[test]
fn channel_grant_commitment_matches_manual_derivation() {
    let group_key = key("group");
    let channel = 5i64;

    let expected = commit(&run(&channel_root(&group_key, channel)));
    assert_eq!(channel_grant_commitment(&group_key, channel), expected);
}

#[test]
fn grant_tags_are_those_of_the_channel_derivation() {
    for channel in [0i64, 5, -7, i64::MAX, i64::MIN] {
        let tag = TransitionTag::ChannelGrant(channel).derivation_tag();
        assert_eq!(tag, Some(channel_root(&key("any"), channel).tag));
        assert_eq!(tag, Some(format!("es:l2:channel-root:{channel}")));
    }
    for tag in [
        TransitionTag::DataDerive,
        TransitionTag::GroupDerive,
        TransitionTag::ChainLink,
        TransitionTag::DataHeadEncrypt,
    ] {
        assert_eq!(tag.derivation_tag(), None);
    }
}

#[test]
fn grants_of_another_key_do_not_satisfy_their_claims() {
    let group_key = key("group");
    let claims = |channel_key: &KeyMaterial| {
        let transition =
            build_channel_grant_transition(5, commit(&group_key), commit(channel_key));
        let keys = build_channel_grant_witness(&group_key, channel_key);
        transition.steps.iter().all(|step| holds(step, &keys))
    };
    assert!(claims(&run(&channel_root(&group_key, 5))));
    assert!(!claims(&run(&channel_root(&group_key, 6))));
    assert!(!claims(&run(&channel_root(&key("other"), 5))));
}

#[test]
fn channel_grant_proof_roundtrips_and_rejects_wrong_commitment() {
    let group_key = key("group");
    let channel = 3i64;
    let channel_key = run(&channel_root(&group_key, channel));
    let group_commitment = commit(&group_key);
    let channel_commitment = commit(&channel_key);

    let prover = StarkProver;
    let request = prover.prove_channel_grant(ChannelGrantProofInput {
        channel,
        group_key: group_key.clone(),
        group_commitment: group_commitment.clone(),
        channel_key: channel_key.clone(),
        channel_commitment: channel_commitment.clone(),
    });
    let proof = prove_transition(&request.transition, &request.keys);

    // Correct commitments verify.
    let statement = prover.verify_channel_grant(ChannelGrantVerifyInput {
        channel,
        group_commitment: group_commitment.clone(),
        channel_commitment,
    });
    verify_transition(&statement, &proof).expect("verify ok");

    // A wrong channel_commitment (not the real derivation) is REJECTED.
    let bogus = commit(&key("bogus"));
    let statement = prover.verify_channel_grant(ChannelGrantVerifyInput {
        channel,
        group_commitment,
        channel_commitment: bogus,
    });
    assert!(
        verify_transition(&statement, &proof).is_err(),
        "a channel commitment that is not derived from the group key must be rejected"
    );
}

#[test]
fn channel_grant_proof_rejects_wrong_channel_id() {
    let group_key = key("group");
    let channel = 3i64;
    let channel_key = run(&channel_root(&group_key, channel));
    let group_commitment = commit(&group_key);
    let channel_commitment = commit(&channel_key);

    let prover = StarkProver;
    let request = prover.prove_channel_grant(ChannelGrantProofInput {
        channel,
        group_key: group_key.clone(),
        group_commitment: group_commitment.clone(),
        channel_key: channel_key.clone(),
        channel_commitment: channel_commitment.clone(),
    });
    let proof = prove_transition(&request.transition, &request.keys);

    // Same (correct) commitments, but claiming a different channel id, is
    // REJECTED: the tag in the statement is channel-specific.
    let statement = prover.verify_channel_grant(ChannelGrantVerifyInput {
        channel: channel + 1,
        group_commitment,
        channel_commitment,
    });
    assert!(
        verify_transition(&statement, &proof).is_err(),
        "a proof for one channel must not verify for a different channel id"
    );
}

#[test]
fn transitions_are_laid_out_as_claims() {
    let c = |n: u8| KeyCommitment::new(vec![n]);
    let path = |s: &str| CanonicalPath::new(s);
    let t = build_channel_grant_transition(-9, c(1), c(2));
    assert_eq!(
        t.steps,
        vec![
            TransitionStep::Commit {
                node: path("/sl2-channel-grant/group"),
                commitment: c(1)
            },
            TransitionStep::Derive {
                parent: path("/sl2-channel-grant/group"),
                child: path("/sl2-channel-grant/channel_key"),
                tag: TransitionTag::ChannelGrant(-9),
            },
            TransitionStep::Commit {
                node: path("/sl2-channel-grant/channel_key"),
                commitment: c(2)
            },
        ]
    );
    let ct = |n: u8| EncryptedKeyMaterial::new(vec![n]);
    let t = build_delete_transition(
        c(1),
        c(2),
        &[c(3), c(4), c(5)],
        &[9, 10, 0],
        &[ct(1), ct(2)],
        &[ct(3), ct(4), ct(5)],
    )
    .unwrap();
    assert_eq!(t.len(), 11);
    assert_eq!(
        t.steps[7],
        TransitionStep::Encrypt {
            child: path("/sl2-delete/b1"),
            parent: path("/sl2-delete/b0"),
            tag: TransitionTag::ChainLink,
            ciphertext: ct(2),
        }
    );
    assert_eq!(
        t.steps[8],
        TransitionStep::Encrypt {
            child: path("/sl2-delete/d9"),
            parent: path("/sl2-delete/new_hgk"),
            tag: TransitionTag::DataHeadEncrypt,
            ciphertext: ct(3),
        }
    );
    assert_eq!(
        t.steps[4],
        TransitionStep::Commit {
            node: path("/sl2-delete/d10"),
            commitment: c(4)
        }
    );
}

#[test]
fn witnesses_hold_the_keys_of_all_nodes() {
    let keys = build_channel_grant_witness(&key("g"), &key("c"));
    assert_eq!(keys.get("/sl2-channel-grant/group"), Some(&key("g")));
    assert_eq!(keys.get("/sl2-channel-grant/channel_key"), Some(&key("c")));
    assert_eq!(keys.get("/sl2-channel-grant"), None);

    let keys = build_delete_witness(
        &key("old"),
        &key("new"),
        &[key("b0")],
        &[key("d5"), key("d2")],
        &[5, 2],
    );
    for (node, label) in [
        ("/sl2-delete/old_hgk", "old"),
        ("/sl2-delete/new_hgk", "new"),
        ("/sl2-delete/b0", "b0"),
        ("/sl2-delete/d5", "d5"),
        ("/sl2-delete/d2", "d2"),
    ] {
        assert_eq!(keys.get(node), Some(&key(label)), "{node}");
    }
    assert_eq!(keys.get("/sl2-delete/b1"), None);
}
