use encrypted_spaces::auth_challenge::auth_challenge_message;
use encrypted_spaces::persistence::{
    accepted_at_from_column, accepted_at_to_column, assemble_space, change_id_from_column,
    change_id_to_column, load_columns, proven_up_to_from_column, proven_up_to_to_column,
    ChangeColumns, ChangeStore, NullChangeStore, PersistError, PersistedChangeRow, SpaceId,
};

fn row(change_id: u32) -> PersistedChangeRow {
    PersistedChangeRow {
        change_id,
        entry_bytes: format!("entry{change_id}").into_bytes(),
        hashed_values_bytes: format!("hv{change_id}").into_bytes(),
        accepted_at: 999 + change_id as u64,
    }
}

#[test]
fn null_store_persists_nothing() {
    let store = NullChangeStore;
    let sid = SpaceId::new([1u8; 16]);
    store.append_change(sid, 1, b"x", b"y", 1).unwrap();
    store.save_ff_proof(sid, 1, b"p").unwrap();
    assert!(store.load_space(sid).unwrap().is_none());
}

#[test]
fn spaces_are_put_together_from_rows() {
    let loaded =
        assemble_space(vec![row(1), row(2)], Some((2, b"proofbytes".to_vec()))).unwrap();
    assert_eq!(loaded.changes.len(), 2);
    assert_eq!(loaded.changes[0].change_id, 1);
    assert_eq!(loaded.changes[0].entry_bytes, b"entry1");
    assert_eq!(loaded.changes[1].hashed_values_bytes, b"hv2");
    assert_eq!(loaded.changes[1].accepted_at, 1001);
    assert_eq!(loaded.proven_up_to, 2);
    assert_eq!(loaded.ff_proof.as_deref(), Some(&b"proofbytes"[..]));
    assert_eq!(loaded.clone(), loaded);

    assert!(assemble_space(vec![], None).is_none());

    let unproven = assemble_space(vec![row(1)], None).unwrap();
    assert_eq!(unproven.proven_up_to, 0);
    assert!(unproven.ff_proof.is_none());

    let only_proof = assemble_space(vec![], Some((3, vec![9]))).unwrap();
    assert!(only_proof.changes.is_empty());
    assert_eq!(only_proof.proven_up_to, 3);
}

#[test]
fn integer_columns_round_trip() {
    for n in [0u64, 1, 1000, i64::MAX as u64, i64::MAX as u64 + 1, u64::MAX] {
        assert_eq!(accepted_at_from_column(accepted_at_to_column(n)), n);
    }
    assert_eq!(accepted_at_to_column(u64::MAX), -1);
    for n in [0u32, 1, u32::MAX] {
        assert_eq!(change_id_from_column(change_id_to_column(n)), n);
    }
    assert_eq!(change_id_from_column(1 << 32), 0);
    for n in [0usize, 1, usize::MAX] {
        assert_eq!(proven_up_to_from_column(proven_up_to_to_column(n)), n);
    }
}

#[test]
fn store_failures_have_a_message() {
    let e = PersistError("disk full".to_string());
    assert_eq!(e.message(), "persistence error: disk full");
}

#[test]
fn challenge_message_is_domain_separated_and_stable() {
    let sid = SpaceId::new([7u8; 16]);
    let m = auth_challenge_message(sid, 42, &[1, 2, 3]);
    assert!(m.starts_with(b"halyard-auth-challenge-v1"));
    // deterministic for same inputs
    assert_eq!(m, auth_challenge_message(sid, 42, &[1, 2, 3]));
    // changes with uid / nonce / space
    assert_ne!(m, auth_challenge_message(sid, 43, &[1, 2, 3]));
    assert_ne!(m, auth_challenge_message(sid, 42, &[1, 2, 4]));
    // changes with different space_id
    let sid2 = SpaceId::new([8u8; 16]);
    assert_ne!(m, auth_challenge_message(sid2, 42, &[1, 2, 3]));
}

#[test]
fn challenge_message_layout() {
    let m = auth_challenge_message(SpaceId::new([7u8; 16]), -2, &[1, 2, 3]);
    let mut expected = b"halyard-auth-challenge-v1".to_vec();
    expected.extend_from_slice(&[7u8; 16]);
    expected.extend_from_slice(&(-2i64).to_le_bytes());
    expected.extend_from_slice(&[1, 2, 3]);
    assert_eq!(m, expected);
}

#[test]
fn spaces_come_back_from_integer_columns_of_a_database() {
    let conn = rusqlite::Connection::open_in_memory().unwrap();
    conn.execute_batch(
        "CREATE TABLE changes (change_id INTEGER, entry BLOB, hashed_values BLOB, accepted_at INTEGER);
         CREATE TABLE ff_proof (proven_up_to INTEGER, proof BLOB);",
    )
    .unwrap();
    let mut stored = vec![row(2), row(1), row(u32::MAX)];
    stored[0].accepted_at = u64::MAX;
    for r in &stored {
        let columns = ChangeColumns::new(
            r.change_id,
            &r.entry_bytes,
            &r.hashed_values_bytes,
            r.accepted_at,
        );
        conn.execute(
            "INSERT INTO changes VALUES (?1, ?2, ?3, ?4)",
            (columns.change_id, columns.entry, columns.hashed_values, columns.accepted_at),
        )
        .unwrap();
    }
    conn.execute(
        "INSERT INTO ff_proof VALUES (?1, ?2)",
        (proven_up_to_to_column(2), b"proofbytes".to_vec()),
    )
    .unwrap();

    let mut stmt = conn
        .prepare("SELECT change_id, entry, hashed_values, accepted_at FROM changes ORDER BY change_id")
        .unwrap();
    let rows: Vec<ChangeColumns> = stmt
        .query_map((), |r| {
            Ok(ChangeColumns {
                change_id: r.get(0)?,
                entry: r.get(1)?,
                hashed_values: r.get(2)?,
                accepted_at: r.get(3)?,
            })
        })
        .unwrap()
        .map(|r| r.unwrap())
        .collect();
    let checkpoint: (i64, Vec<u8>) = conn
        .query_row("SELECT proven_up_to, proof FROM ff_proof", (), |r| {
            Ok((r.get(0)?, r.get(1)?))
        })
        .unwrap();
    let loaded = load_columns(rows, Some(checkpoint)).unwrap();
    stored.swap(0, 1);
    assert_eq!(loaded.changes, stored);
    assert_eq!(loaded.proven_up_to, 2);
    assert_eq!(loaded.ff_proof.unwrap(), b"proofbytes");
}

#[test]
fn spaces_without_rows_or_checkpoint_do_not_exist() {
    assert!(load_columns(vec![], None).is_none());
    let only_proof = load_columns(vec![], Some((-1, vec![9]))).unwrap();
    assert!(only_proof.changes.is_empty());
    assert_eq!(only_proof.proven_up_to, usize::MAX);
    let columns = ChangeColumns::new(7, b"e", b"h", u64::MAX);
    assert_eq!((columns.change_id, columns.accepted_at), (7, -1));
    let unproven = load_columns(vec![columns], None).unwrap();
    assert_eq!(unproven.changes[0].change_id, 7);
    assert_eq!(unproven.changes[0].accepted_at, u64::MAX);
    assert_eq!(unproven.proven_up_to, 0);
}

#[test]
fn the_checkpoint_saved_last_wins() {
    let conn = rusqlite::Connection::open_in_memory().unwrap();
    conn.execute_batch(
        "CREATE TABLE ff_proof (space_id BLOB PRIMARY KEY, proven_up_to INTEGER, proof BLOB);",
    )
    .unwrap();
    let save = |space: &[u8], n: usize, bytes: &[u8]| {
        conn.execute(
            "INSERT INTO ff_proof VALUES (?1, ?2, ?3)
             ON CONFLICT(space_id) DO UPDATE SET proven_up_to = ?2, proof = ?3",
            (space, proven_up_to_to_column(n), bytes),
        )
        .unwrap();
    };
    let load = |space: &[u8]| {
        let checkpoint = conn
            .query_row(
                "SELECT proven_up_to, proof FROM ff_proof WHERE space_id = ?1",
                (space,),
                |r| Ok((r.get(0)?, r.get(1)?)),
            )
            .ok();
        load_columns(vec![], checkpoint).map(|s| (s.proven_up_to, s.ff_proof.unwrap()))
    };
    save(b"one", 5, b"p1");
    save(b"two", 7, b"q");
    save(b"one", 3, b"p2");
    assert_eq!(load(b"one"), Some((3, b"p2".to_vec())));
    assert_eq!(load(b"two"), Some((7, b"q".to_vec())));
    assert_eq!(load(b"three"), None);
}
