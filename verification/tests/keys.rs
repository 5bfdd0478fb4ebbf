use encrypted_spaces::channel_grant::{
    decode_grant_value, encode_grant_value, grant_row_key, grant_value_bytes,
    parse_grant_row_key,
};
use encrypted_spaces::keys::{KeyCommitment, KeyMaterial};
use encrypted_spaces::tree_keys::{
    channel_data_key, channel_root, Derivation, TreeKeyId, ROOT_CHANNEL,
};
use encrypted_spaces::tree_space_key::{
    data_key_from_subtree, verify_channel_grant, DataKeyStep, SyncStep, TreeSpaceKey,
};
use sha2::{Digest, Sha256};

/// A key that no other call with another label gives.
fn key(label: &str) -> KeyMaterial {
    KeyMaterial::new(Sha256::digest(label.as_bytes()).to_vec())
}

/// A one-way derivation for the tests.
fn derive(d: &Derivation) -> KeyMaterial {
    let mut hash = Sha256::new();
    hash.update(d.parent.as_bytes());
    hash.update(d.tag.as_bytes());
    KeyMaterial::new(hash.finalize().to_vec())
}

/// Resolves a data key for a member of a space with a single epoch.
fn data_key(tree: &TreeSpaceKey, id: TreeKeyId) -> Option<[u8; 32]> {
    match tree.data_key_for_key_id(&id).ok()? {
        DataKeyStep::Ready(key) => Some(key),
        DataKeyStep::RootLine { seq } => {
            Some(Sha256::digest(format!("root line {seq}").as_bytes()).into())
        }
        DataKeyStep::Derive { epoch, tag } => {
            assert_eq!(epoch, id.seq);
            let parent = tree.group_ref().expect("full member").clone();
            let subtree = derive(&Derivation { parent, tag });
            data_key_from_subtree(&id, Some(&subtree)).ok()
        }
    }
}

#[test]
fn grant_row_key_and_value_roundtrip() {
    assert_eq!(grant_row_key(5, 3), "sl2/channel_grant/5/3");
    assert_eq!(parse_grant_row_key("sl2/channel_grant/5/3"), Some((5, 3)));
    assert_eq!(parse_grant_row_key("sl2/fgk/row/0"), None); // not a grant row
    let c = KeyCommitment::new(Sha256::digest(b"test").to_vec());
    assert_eq!(decode_grant_value(&encode_grant_value(&c), true), Some(c));
}

#[test]
fn grant_row_keys_at_the_edges() {
    assert_eq!(
        grant_row_key(i64::MIN, i64::MAX),
        "sl2/channel_grant/-9223372036854775808/9223372036854775807"
    );
    for (uid, channel) in [(0, 0), (-1, 7), (i64::MAX, i64::MIN), (10, 100)] {
        assert_eq!(
            parse_grant_row_key(&grant_row_key(uid, channel)),
            Some((uid, channel))
        );
    }
    assert_eq!(parse_grant_row_key("sl2/channel_grant/+1/5"), Some((1, 5)));
    assert_eq!(parse_grant_row_key("sl2/channel_grant/007/5"), Some((7, 5)));
    for key in [
        "",
        "sl2/channel_grant/",
        "sl2/channel_grant/5",
        "sl2/channel_grant/5/",
        "sl2/channel_grant//5",
        "sl2/channel_grant/5/3/1",
        "sl2/channel_grant/5/x",
        "sl2/channel_grant/ 5/3",
        "sl2/channel_grant/9223372036854775808/1",
        "sl2/channel_grant/-/1",
    ] {
        assert_eq!(parse_grant_row_key(key), None, "{key}");
    }
}

#[test]
fn grant_values_are_base64() {
    let c = KeyCommitment::new(vec![0xBB; 4]);
    assert_eq!(encode_grant_value(&c), "u7u7uw==");
    assert_eq!(grant_value_bytes("u7u7uw=="), Some(vec![0xBB; 4]));
    assert_eq!(grant_value_bytes("u7u7uw"), None);
    assert_eq!(decode_grant_value("u7u7uw==", true), Some(c));
    assert_eq!(decode_grant_value("u7u7uw", true), None);
    assert_eq!(decode_grant_value("not base64!", true), None);
}

#[test]
fn grant_values_that_are_no_commitment_are_refused() {
    for value in ["u7u7uw==", "", "not base64!"] {
        assert_eq!(decode_grant_value(value, false), None);
    }
}

#[test]
fn channel_roots_are_distinct_and_one_way() {
    let gk = key("group");
    let a1 = derive(&channel_root(&gk, 1));
    let a2 = derive(&channel_root(&gk, 1));
    let b = derive(&channel_root(&gk, 2));
    assert_eq!(a1.as_bytes(), a2.as_bytes(), "deterministic per channel");
    assert_ne!(a1.as_bytes(), b.as_bytes(), "distinct channels differ");
    assert_ne!(a1.as_bytes(), gk.as_bytes(), "differs from the group key");
    assert_eq!(channel_root(&gk, -7).tag, "es:l2:channel-root:-7");
}

#[test]
fn channel_data_keys_derive_forward() {
    let root = derive(&channel_root(&key("group"), 1));
    assert_eq!(channel_data_key(&root, 0), channel_data_key(&root, 0));
    assert_ne!(channel_data_key(&root, 0), channel_data_key(&root, 1));
}

#[test]
fn channel_data_keys_are_hkdf_sha256() {
    let root = KeyMaterial::new(vec![0x0b; 22]);
    let hkdf = hkdf::Hkdf::<Sha256>::new(None, root.as_bytes());
    let mut expected = [0u8; 32];
    hkdf.expand(b"es:l2:channel-data:18446744073709551615", &mut expected)
        .unwrap();
    assert_eq!(channel_data_key(&root, u64::MAX), expected);
    assert_ne!(&channel_data_key(&root, u64::MAX)[..22], root.as_bytes());
}

#[test]
fn root_sentinel_never_collides_with_a_channel() {
    assert!(TreeKeyId::root(0).is_root());
    assert!(!TreeKeyId::new(0, 0).is_root());
    assert!(!TreeKeyId::new(5, 0).is_root());
}

#[test]
fn key_id_labels() {
    assert_eq!(TreeKeyId::root(3).label(), "root:3");
    assert_eq!(TreeKeyId::new(5, 0).label(), "ch5:0");
    assert_eq!(TreeKeyId::new(-1, u64::MAX).label(), "ch-1:18446744073709551615");
    assert_eq!(TreeKeyId::root(3), TreeKeyId::new(ROOT_CHANNEL, 3));
}

#[test]
fn full_member_derives_and_reads_every_channel() {
    let tree = TreeSpaceKey::new(key("group"));

    // Root (global) and any channel resolve; distinct channels differ.
    let root = data_key(&tree, TreeKeyId::root(0)).unwrap();
    let c1 = data_key(&tree, TreeKeyId::new(1, 0)).unwrap();
    let c2 = data_key(&tree, TreeKeyId::new(2, 0)).unwrap();
    assert_ne!(c1, c2);
    assert_ne!(c1, root);
}

#[test]
fn scoped_member_reads_only_delivered_channels() {
    let full = TreeSpaceKey::new(key("group"));

    // Full member derives channel 1's subtree key and "delivers" it.
    let ch1_key = derive(&full.channel_subtree_key(1).unwrap());
    let scoped = TreeSpaceKey::scoped(vec![((1, 0), ch1_key)]);

    // Scoped reads channel 1 with the SAME key the full member derives...
    let full_c1 = data_key(&full, TreeKeyId::new(1, 0)).unwrap();
    let scoped_c1 = data_key(&scoped, TreeKeyId::new(1, 0)).unwrap();
    assert_eq!(full_c1, scoped_c1);

    // ...but channel 2 and the root/global line are out of scope.
    assert!(data_key(&scoped, TreeKeyId::new(2, 0)).is_none());
    assert!(data_key(&scoped, TreeKeyId::root(0)).is_none());
}

#[test]
fn dropping_a_channel_key_revokes_read() {
    let full = TreeSpaceKey::new(key("group"));
    let ch1_key = derive(&full.channel_subtree_key(1).unwrap());
    let mut scoped = TreeSpaceKey::scoped(vec![((1, 0), ch1_key)]);

    assert!(data_key(&scoped, TreeKeyId::new(1, 0)).is_some());
    scoped.drop_channel_key(1);
    assert!(data_key(&scoped, TreeKeyId::new(1, 0)).is_none());
}

#[test]
fn scoped_channel_keys_are_epoch_indexed() {
    let key_a = key("a");
    let key_b = key("b");
    let mut scoped = TreeSpaceKey::scoped(vec![((5, 1), key_a.clone()), ((5, 2), key_b.clone())]);

    // Both epochs of channel 5 are independently retrievable.
    assert_eq!(scoped.channel_key(5, 1), Some(&key_a));
    assert_eq!(scoped.channel_key(5, 2), Some(&key_b));
    // `scoped_channels` reports distinct channels, not distinct (channel, epoch) pairs.
    assert_eq!(scoped.scoped_channels(), vec![5]);

    // Dropping the channel removes ALL of its epochs, not just one.
    scoped.drop_channel_key(5);
    assert!(scoped.channel_key(5, 1).is_none());
    assert!(scoped.channel_key(5, 2).is_none());
    assert!(scoped.scoped_channels().is_empty());
}

#[test]
fn install_channel_key_retains_other_epochs() {
    let key_a = key("a");
    let key_b = key("b");
    let mut scoped = TreeSpaceKey::scoped(vec![((5, 1), key_a.clone())]);

    scoped.install_channel_key(5, 2, key_b.clone());

    assert_eq!(scoped.channel_key(5, 1), Some(&key_a));
    assert_eq!(scoped.channel_key(5, 2), Some(&key_b));
}

#[test]
fn installing_again_replaces_the_key() {
    let mut scoped = TreeSpaceKey::scoped(vec![
        ((5, 1), key("a")),
        ((3, 1), key("c")),
        ((5, 1), key("b")),
    ]);
    assert_eq!(scoped.channel_key(5, 1), Some(&key("b")));
    scoped.install_channel_key(5, 1, key("d"));
    assert_eq!(scoped.channel_key(5, 1), Some(&key("d")));
    assert_eq!(scoped.channel_key(3, 1), Some(&key("c")));
    scoped.install_channel_key(-4, 0, key("e"));
    assert_eq!(scoped.scoped_channels(), vec![-4, 3, 5]);
    scoped.drop_channel_key(5);
    assert_eq!(scoped.scoped_channels(), vec![-4, 3]);
}

#[test]
fn scoped_members_have_no_group_key() {
    let mut scoped = TreeSpaceKey::scoped(vec![((1, 0), key("a"))]);
    assert!(!scoped.is_full());
    assert!(scoped.group_ref().is_err());
    assert!(scoped.channel_subtree_key(1).is_none());
    let c = || KeyCommitment::new(vec![1]);
    assert!(scoped.prove_channel_grant(c(), 1, &key("a"), c()).is_none());
    assert!(scoped.current_key_id(Some(0)).is_err());
    assert!(scoped.extend(Some(1)).is_err());
    assert!(scoped.reduce(&TreeKeyId::root(1)).is_err());
    assert_eq!(scoped.sync_group_key(), SyncStep::AlreadyCurrent);
    assert!(scoped.apply_new_group_key(key("new"), true).is_err());
    assert!(scoped.recover_group_key_from_candidate(key("new"), true).is_err());
    assert!(!scoped.is_full());
    assert!(scoped.channel_key(1, 0).is_some());
}

#[test]
fn full_members_follow_the_group_line() {
    let mut full = TreeSpaceKey::from_group_key(key("old"));
    assert!(full.is_full());
    assert!(full.scoped_channels().is_empty());
    assert_eq!(full.current_key_id(Some(4)), Ok(TreeKeyId::root(4)));
    assert!(full.current_key_id(None).is_err());
    assert_eq!(full.extend(Some(5)), Ok(TreeKeyId::root(5)));
    assert_eq!(full.reduce(&TreeKeyId::root(3)), Ok(3));
    assert_eq!(full.sync_group_key(), SyncStep::SyncLine);

    assert!(full.apply_new_group_key(key("bad"), false).is_err());
    assert_eq!(full.group_ref(), Ok(&key("old")));
    assert!(full.apply_new_group_key(key("new"), true).is_ok());
    assert_eq!(full.group_ref(), Ok(&key("new")));
    assert!(full.recover_group_key_from_candidate(key("found"), true).is_ok());
    assert_eq!(full.group_ref(), Ok(&key("found")));
}

#[test]
fn channel_rows_are_written_in_the_current_epoch() {
    let full = TreeSpaceKey::new(key("group"));
    assert_eq!(full.current_channel_epoch(1, Some(7)), Ok(7));
    assert!(full.current_channel_epoch(1, None).is_err());

    let scoped = TreeSpaceKey::scoped(vec![
        ((1, 2), key("a")),
        ((1, 9), key("b")),
        ((1, 4), key("c")),
        ((2, 30), key("d")),
    ]);
    // The newest delivered grant counts, whatever the chain says.
    assert_eq!(scoped.current_channel_epoch(1, Some(50)), Ok(9));
    assert_eq!(scoped.current_channel_epoch(2, None), Ok(30));
    assert!(scoped.current_channel_epoch(3, Some(50)).is_err());
}

#[test]
fn channel_rows_go_by_their_own_epoch() {
    let full = TreeSpaceKey::new(key("group"));
    assert_eq!(
        full.data_key_for_key_id(&TreeKeyId::new(4, 2)),
        Ok(DataKeyStep::Derive {
            epoch: 2,
            tag: "es:l2:channel-root:4".to_string()
        })
    );
    assert_eq!(
        full.data_key_for_key_id(&TreeKeyId::root(2)),
        Ok(DataKeyStep::RootLine { seq: 2 })
    );
    assert!(data_key_from_subtree(&TreeKeyId::new(4, 2), None).is_err());
}

#[test]
fn a_key_filed_under_the_root_line_opens_nothing() {
    let scoped = TreeSpaceKey::scoped(vec![((ROOT_CHANNEL, 0), key("a"))]);
    assert!(scoped.data_key_for_key_id(&TreeKeyId::root(0)).is_err());
}

#[test]
fn channel_grants_are_proved_for_the_group_key_at_hand() {
    let full = TreeSpaceKey::new(key("group"));
    let c = |label: &str| KeyCommitment::new(label.as_bytes().to_vec());
    let channel_key = derive(&full.channel_subtree_key(3).unwrap());
    let current = full
        .prove_channel_grant(c("group"), 3, &channel_key, c("channel"))
        .unwrap();
    assert_eq!(current.transition, verify_channel_grant(3, c("group"), c("channel")));
    assert_eq!(
        current.keys.get("/sl2-channel-grant/group"),
        Some(&key("group"))
    );
    assert_eq!(
        current.keys.get("/sl2-channel-grant/channel_key"),
        Some(&channel_key)
    );
    let next =
        full.channel_grant_for_group_key(&key("next"), c("next"), 3, &channel_key, c("channel"));
    assert_eq!(next.keys.get("/sl2-channel-grant/group"), Some(&key("next")));
    assert_eq!(next.transition, verify_channel_grant(3, c("next"), c("channel")));
}

#[test]
fn snapshots_of_a_member_hold_the_same_keys() {
    let mut scoped = TreeSpaceKey::scoped(vec![((5, 1), key("a")), ((6, 2), key("b"))]);
    let snapshot = scoped.clone();
    scoped.drop_channel_key(5);
    assert_eq!(snapshot.channel_key(5, 1), Some(&key("a")));
    assert_eq!(snapshot.channel_key(6, 2), Some(&key("b")));
    assert!(!snapshot.is_full());
    let full = TreeSpaceKey::new(key("group"));
    assert_eq!(full.clone().group_ref(), Ok(&key("group")));
}

#[test]
fn members_come_back_from_what_is_stored_of_them() {
    let mut scoped = TreeSpaceKey::scoped(vec![((3, 0), key("a")), ((4, 1), key("b"))]);
    scoped.install_channel_key(3, 0, key("c"));
    scoped.install_channel_key(3, 2, key("d"));
    let mut keys = scoped.delivered_keys();
    assert_eq!(TreeSpaceKey::restored(None, scoped.delivered_keys()), scoped);
    keys.sort_by_key(|(id, _)| *id);
    assert_eq!(
        keys,
        vec![((3, 0), key("c")), ((3, 2), key("d")), ((4, 1), key("b"))]
    );
    assert!(!TreeSpaceKey::restored(None, keys).is_full());

    let mut full = TreeSpaceKey::from_group_key(key("group"));
    assert!(full.delivered_keys().is_empty());
    full.install_channel_key(1, 1, key("e"));
    let group = full.group_ref().ok().cloned();
    let restored = TreeSpaceKey::restored(group, full.delivered_keys());
    assert_eq!(restored.group_ref().ok(), Some(&key("group")));
    assert_eq!(restored, full);
}
