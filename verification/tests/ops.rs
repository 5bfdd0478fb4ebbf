use encrypted_spaces::changelog::{
    column_key, BatchOp, ChangelogEntry, ChangelogError, ColumnKey, ColumnSet, ErrorKind, KvData,
    OpType, ProvenRead, ReadOp, ReadValue, StoredValue, Table,
};
use encrypted_spaces::ops::batch_order::{is_before, order_batch, sort_batch, KeyedOp};
use encrypted_spaces::ops::create_space_op::CreateSpaceOp;
use encrypted_spaces::ops::invite_user_op::InviteUserOp;
use encrypted_spaces::ops::reader::VerifierReader;
use encrypted_spaces::ops::rekey_op::RekeyOp;
use encrypted_spaces::ops::{OpVerifier, OpVerifyResult, TraceStep};

fn stored_i64(v: i64) -> StoredValue {
    StoredValue::Integer(v)
}

fn stored_str(s: &str) -> StoredValue {
    StoredValue::Text(s.to_string())
}

fn opaque(byte: u8) -> StoredValue {
    StoredValue::Opaque(vec![byte; 32])
}

fn entry(uid: u32, kvs: Vec<(ColumnKey, StoredValue)>) -> ChangelogEntry {
    ChangelogEntry {
        uid,
        entries: kvs
            .into_iter()
            .map(|(key, value)| KvData { key, value })
            .collect(),
    }
}

fn columns(names: &[&str]) -> ColumnSet {
    let mut set = ColumnSet::new();
    for name in names {
        set = set.insert(name);
    }
    set
}

fn user_columns() -> ColumnSet {
    columns(&["auth_key", "status", "update_key"])
}

fn retention_columns() -> ColumnSet {
    columns(&["key", "value"])
}

fn read(op: ReadOp, value: ReadValue) -> ProvenRead {
    ProvenRead {
        op,
        results: vec![value],
    }
}

fn status_read(uid: i64, status: i64) -> ProvenRead {
    read(
        ReadOp::UserStatus(uid),
        ReadValue::Stored(StoredValue::Integer(status)),
    )
}

fn no_users_read() -> ProvenRead {
    ProvenRead {
        op: ReadOp::Rows(Table::Users),
        results: vec![],
    }
}

fn user_schema_read() -> ProvenRead {
    read(
        ReadOp::SchemaColumns(Table::Users),
        ReadValue::Columns(user_columns()),
    )
}

fn next_id_read(table: Table, next_id: i64) -> ProvenRead {
    read(ReadOp::SchemaNextId(table), ReadValue::Counter(next_id))
}

fn retention_tail_reads(next_id: i64) -> Vec<ProvenRead> {
    vec![
        read(
            ReadOp::SchemaColumns(Table::Retention),
            ReadValue::Columns(retention_columns()),
        ),
        next_id_read(Table::Retention, next_id),
        read(
            ReadOp::SchemaIndexes(Table::Retention),
            ReadValue::Columns(columns(&["key"])),
        ),
    ]
}

/// Inviter status, schema and next id of the members, then the retention reads.
fn invite_grant_reads(inviter: u32, next_user_id: i64) -> Vec<ProvenRead> {
    let mut reads = vec![
        status_read(inviter as i64, 1),
        user_schema_read(),
        next_id_read(Table::Users, next_user_id),
    ];
    reads.extend(retention_tail_reads(1));
    reads
}

fn user_kvs(row_id: i64, status: StoredValue) -> Vec<(ColumnKey, StoredValue)> {
    vec![
        (column_key("_users", row_id, "auth_key"), opaque(0xAA)),
        (column_key("_users", row_id, "status"), status),
        (column_key("_users", row_id, "update_key"), opaque(0xAA)),
    ]
}

fn grant_kvs(key: &str) -> Vec<(ColumnKey, StoredValue)> {
    vec![
        (column_key("_retention", 0, "key"), stored_str(key)),
        (column_key("_retention", 0, "value"), opaque(0xBB)),
    ]
}

fn invite_entry(uid: u32, status: i64, grant: &str) -> ChangelogEntry {
    let mut kvs = user_kvs(0, stored_i64(status));
    kvs.extend(grant_kvs(grant));
    entry(uid, kvs)
}

/// Gives all writes one key, so that they stay in the order of derivation.
fn same_key(_op: &BatchOp) -> Vec<u8> {
    Vec::new()
}

fn writes(result: OpVerifyResult) -> Vec<BatchOp> {
    let mut steps = result.write_steps;
    assert_eq!(steps.len(), 1);
    match steps.remove(0) {
        TraceStep::Write(step) => step.into_iter().map(|keyed| keyed.op).collect(),
    }
}

fn kind(e: &ChangelogError) -> ErrorKind {
    e.kind
}

#[test]
fn test_channel_grant_row_rejected_for_create_space() {
    let creator = 0u32;
    // A full _users insert (placeholder row id) and a forged grant row.
    let mut kvs = user_kvs(0, opaque(0xAA));
    kvs.extend(grant_kvs("sl2/channel_grant/1/7"));
    let entry = entry(creator, kvs);

    let reads = vec![];
    let mut reader = VerifierReader::new(&reads);
    let result = CreateSpaceOp::extract_and_validate(&entry, &mut reader, same_key);
    assert!(
        result.is_err(),
        "channel_grant _retention row must be rejected by CreateSpace"
    );
    let msg = result.unwrap_err().message();
    assert!(
        msg.contains("channel_grant"),
        "expected a channel_grant rejection, got: {msg}"
    );
}

#[test]
fn test_channel_grant_bound_to_invitee_accepted() {
    let inviter = 7u32;
    let invitee_uid = 1i64; // next_id(_users) == 1
    let entry = invite_entry(inviter, 3, &format!("sl2/channel_grant/{invitee_uid}/5"));
    let reads = invite_grant_reads(inviter, invitee_uid);
    let mut reader = VerifierReader::new(&reads);
    let result = InviteUserOp::extract_and_validate(&entry, &mut reader, same_key);
    assert!(result.is_ok(), "expected ok, got: {:?}", result.err());
}

#[test]
fn test_channel_grant_wrong_uid_rejected_for_invite() {
    let inviter = 7u32;
    let invitee_uid = 1i64;
    // Grant bound to uid=2, but the invitee will be uid=1.
    let entry = invite_entry(inviter, 3, "sl2/channel_grant/2/5");
    let reads = invite_grant_reads(inviter, invitee_uid);
    let mut reader = VerifierReader::new(&reads);
    let result = InviteUserOp::extract_and_validate(&entry, &mut reader, same_key);
    assert!(result.is_err(), "grant for a non-invitee uid must be rejected");
    let msg = result.unwrap_err().message();
    assert!(
        msg.contains("must bind to the invited user") && msg.contains("uid=2"),
        "expected an invitee-binding rejection, got: {msg}"
    );
}

#[test]
fn test_channel_grant_noncanonical_rejected_for_invite() {
    let inviter = 7u32;
    let invitee_uid = 1i64;
    // "+1" parses to 1 (== invitee) but is NOT canonical.
    let entry = invite_entry(inviter, 3, "sl2/channel_grant/+1/5");
    let reads = invite_grant_reads(inviter, invitee_uid);
    let mut reader = VerifierReader::new(&reads);
    let result = InviteUserOp::extract_and_validate(&entry, &mut reader, same_key);
    assert!(
        result.is_err(),
        "a non-canonical (+signed) grant key must be rejected"
    );
    let msg = result.unwrap_err().message();
    assert!(
        msg.contains("non-canonical channel_grant key"),
        "expected a non-canonical rejection, got: {msg}"
    );
}

#[test]
fn test_scoped_signer_invite_with_grant_rejected() {
    let inviter = 7u32;
    let invitee_uid = 1i64;
    let entry = invite_entry(inviter, 3, &format!("sl2/channel_grant/{invitee_uid}/5"));
    let mut reads = invite_grant_reads(inviter, invitee_uid);
    // The signer is Scoped(2), not Full.
    reads[0].results = vec![ReadValue::Stored(stored_i64(2))];
    let mut reader = VerifierReader::new(&reads);
    let result = InviteUserOp::extract_and_validate(&entry, &mut reader, same_key);
    assert!(
        result.is_err(),
        "a Scoped signer's grant-carrying invite must be rejected, got Ok"
    );
    let msg = result.unwrap_err().message();
    assert!(
        msg.contains("full member"),
        "expected the full-member signer rejection, got: {msg}"
    );
}

#[test]
fn test_full_invite_with_grant_rejected() {
    let inviter = 7u32;
    let invitee_uid = 1i64;
    // Full invite: inserted status = Provisional(0), not 3.
    let entry = invite_entry(inviter, 0, &format!("sl2/channel_grant/{invitee_uid}/5"));
    let reads = invite_grant_reads(inviter, invitee_uid);
    let mut reader = VerifierReader::new(&reads);
    let result = InviteUserOp::extract_and_validate(&entry, &mut reader, same_key);
    assert!(
        result.is_err(),
        "grant rows on a full (non-scoped) invite must be rejected, got Ok"
    );
    let msg = result.unwrap_err().message();
    assert!(
        msg.contains("scoped invite"),
        "expected the scoped-invite-only rejection, got: {msg}"
    );
}

#[test]
fn test_provisional_user_rejected_for_invite_user() {
    let uid = 1u32;
    let user_row_id = 5i64;
    let mut kvs = user_kvs(user_row_id, opaque(0xAA));
    kvs.push((column_key("_retention", 0, "key"), opaque(0xAA)));
    kvs.push((column_key("_retention", 0, "value"), opaque(0xAA)));
    let entry = entry(uid, kvs);
    let reads = vec![
        status_read(uid as i64, 0),
        user_schema_read(),
        read(
            ReadOp::SchemaColumns(Table::Retention),
            ReadValue::Columns(retention_columns()),
        ),
    ];
    let mut reader = VerifierReader::new(&reads);
    let err = InviteUserOp::extract_and_validate(&entry, &mut reader, same_key);
    assert!(err.is_err());
    let msg = err.unwrap_err().message();
    assert!(msg.contains("provisional user"), "unexpected error: {msg}");
}

#[test]
fn test_invited_user_must_be_provisional() {
    let uid = 1u32;
    let user_row_id = 5i64;
    let mut kvs = user_kvs(user_row_id, stored_i64(1));
    kvs.push((column_key("_retention", 0, "key"), opaque(0xAA)));
    kvs.push((column_key("_retention", 0, "value"), opaque(0xAA)));
    let entry = entry(uid, kvs);
    let reads = vec![
        status_read(uid as i64, 1),
        user_schema_read(),
        read(
            ReadOp::SchemaColumns(Table::Retention),
            ReadValue::Columns(retention_columns()),
        ),
    ];
    let mut reader = VerifierReader::new(&reads);
    let err = InviteUserOp::extract_and_validate(&entry, &mut reader, same_key);
    assert!(err.is_err());
    let msg = err.unwrap_err().message();
    assert!(
        msg.contains("inserted _users.status must be provisional"),
        "unexpected error: {msg}"
    );
}

#[test]
fn test_invited_scoped_provisional_status_accepted() {
    let uid = 1u32;
    let entry = entry(uid, user_kvs(0, stored_i64(3)));
    let reads = vec![
        status_read(uid as i64, 1),
        user_schema_read(),
        next_id_read(Table::Users, 1),
    ];
    let mut reader = VerifierReader::new(&reads);
    let result = InviteUserOp::extract_and_validate(&entry, &mut reader, same_key);
    assert!(result.is_ok(), "expected ok, got: {:?}", result.err());
}

fn grant_row_kvs(grant_uid: i64, channel: i64) -> Vec<(ColumnKey, StoredValue)> {
    grant_kvs(&format!("sl2/channel_grant/{grant_uid}/{channel}"))
}

#[test]
fn test_channel_grant_scoped_uid_accepted_for_rekey() {
    let signer = 1u32;
    let grant_uid = 5i64;
    let entry = entry(signer, grant_row_kvs(grant_uid, 7));
    let mut reads = vec![status_read(1, 1), status_read(grant_uid, 2)];
    reads.extend(retention_tail_reads(1));
    let mut reader = VerifierReader::new(&reads);
    let result = RekeyOp::extract_and_validate(&entry, &mut reader, same_key);
    assert!(result.is_ok(), "expected ok, got: {:?}", result.err());
}

#[test]
fn test_channel_grant_scoped_provisional_uid_accepted_for_rekey() {
    let signer = 1u32;
    let grant_uid = 5i64;
    let entry = entry(signer, grant_row_kvs(grant_uid, 7));
    let mut reads = vec![status_read(1, 1), status_read(grant_uid, 3)];
    reads.extend(retention_tail_reads(1));
    let mut reader = VerifierReader::new(&reads);
    let result = RekeyOp::extract_and_validate(&entry, &mut reader, same_key);
    assert!(result.is_ok(), "expected ok, got: {:?}", result.err());
}

#[test]
fn test_channel_grant_full_uid_rejected_for_rekey() {
    let signer = 1u32;
    let grant_uid = 5i64;
    let entry = entry(signer, grant_row_kvs(grant_uid, 7));
    let reads = vec![status_read(1, 1), status_read(grant_uid, 1)];
    let mut reader = VerifierReader::new(&reads);
    let result = RekeyOp::extract_and_validate(&entry, &mut reader, same_key);
    assert!(result.is_err(), "grant to a Full member must be rejected");
    let msg = result.unwrap_err().message();
    assert!(
        msg.contains("must bind to an existing") && msg.contains("uid=5"),
        "expected a scoped-binding rejection, got: {msg}"
    );
}

#[test]
fn test_channel_grant_decoy_multi_row_rejected_for_rekey() {
    let signer = 1u32;
    let scoped_uid = 5i64;
    let full_uid = 6i64;
    let mut kvs = grant_row_kvs(scoped_uid, 7);
    kvs.push((
        column_key("_retention", 0, "key"),
        stored_str(&format!("sl2/channel_grant/{full_uid}/7")),
    ));
    kvs.push((column_key("_retention", 0, "value"), opaque(0xCC)));
    let entry = entry(signer, kvs);
    let reads = vec![
        status_read(1, 1),
        status_read(scoped_uid, 2),
        status_read(full_uid, 1),
    ];
    let mut reader = VerifierReader::new(&reads);
    let result = RekeyOp::extract_and_validate(&entry, &mut reader, same_key);
    assert!(
        result.is_err(),
        "a forged grant smuggled behind a legit scoped grant must be rejected"
    );
    let msg = result.unwrap_err().message();
    assert!(
        msg.contains("must bind to an existing") && msg.contains("uid=6"),
        "expected rejection naming the smuggled uid, got: {msg}"
    );
}

#[test]
fn test_scoped_signer_rekey_self_grant_rejected() {
    let signer = 5u32;
    // The grant names the signer, for a channel the signer never held.
    let entry = entry(signer, grant_row_kvs(signer as i64, 9));
    let mut reads = vec![status_read(5, 2), status_read(5, 2)];
    reads.extend(retention_tail_reads(1));
    let mut reader = VerifierReader::new(&reads);
    let result = RekeyOp::extract_and_validate(&entry, &mut reader, same_key);
    assert!(
        result.is_err(),
        "a Scoped signer's Rekey must be rejected, got Ok"
    );
    let msg = result.unwrap_err().message();
    assert!(
        msg.contains("full member"),
        "expected the full-member signer rejection, got: {msg}"
    );
}

#[test]
fn test_channel_grant_noncanonical_rejected_for_rekey() {
    let signer = 1u32;
    let entry = entry(signer, grant_kvs("sl2/channel_grant/-5/7"));
    let reads = vec![status_read(1, 1)];
    let mut reader = VerifierReader::new(&reads);
    let result = RekeyOp::extract_and_validate(&entry, &mut reader, same_key);
    assert!(
        result.is_err(),
        "a non-canonical (negative-uid) grant key must be rejected"
    );
    let msg = result.unwrap_err().message();
    assert!(
        msg.contains("non-canonical channel_grant key"),
        "expected a non-canonical rejection, got: {msg}"
    );
}

fn plain_retention_kvs(table: &str) -> Vec<(ColumnKey, StoredValue)> {
    vec![
        (column_key(table, 0, "key"), opaque(0xAA)),
        (column_key(table, 0, "value"), opaque(0xAA)),
    ]
}

#[test]
fn test_provisional_user_rejected_for_rekey() {
    let uid = 1u32;
    let entry = entry(uid, plain_retention_kvs("_retention"));
    let reads = vec![
        status_read(1, 0),
        read(
            ReadOp::SchemaColumns(Table::Retention),
            ReadValue::Columns(retention_columns()),
        ),
    ];
    let mut reader = VerifierReader::new(&reads);
    let err = RekeyOp::extract_and_validate(&entry, &mut reader, same_key);
    assert!(err.is_err());
    let msg = err.unwrap_err().message();
    assert!(msg.contains("provisional user"), "unexpected error: {msg}");
}

#[test]
fn test_wrong_table_rejected_for_rekey() {
    let uid = 1u32;
    let entry = entry(uid, plain_retention_kvs("_users"));
    let reads = vec![];
    let mut reader = VerifierReader::new(&reads);
    let err = RekeyOp::extract_and_validate(&entry, &mut reader, same_key);
    assert!(err.is_err());
    let msg = err.unwrap_err().message();
    assert!(
        msg.contains("retention columns target table"),
        "unexpected error: {msg}"
    );
    assert_eq!(
        msg,
        "rekey: retention columns target table '_users', expected '_retention'"
    );
}

#[test]
fn create_space_writes_the_first_member_and_its_rows() {
    let mut kvs = user_kvs(0, stored_i64(1));
    kvs.extend(plain_retention_kvs("_retention"));
    kvs.push((column_key("_retention", 0, "key"), stored_str("sl2/fgk/row/0")));
    kvs.push((column_key("_retention", 0, "value"), opaque(0xCC)));
    let entry = entry(0, kvs);
    let mut reads = vec![no_users_read(), user_schema_read(), next_id_read(Table::Users, 1)];
    reads.extend(retention_tail_reads(10));
    let mut reader = VerifierReader::new(&reads);
    let ops = writes(CreateSpaceOp::extract_and_validate(&entry, &mut reader, same_key).expect("accepted"));
    assert_eq!(reader.pos, 6);
    let put = |table, row_id, column: &str, value| BatchOp::PutColumn {
        table,
        row_id,
        column: column.to_string(),
        value,
    };
    let index = |value, row_id| BatchOp::PutIndex {
        table: Table::Retention,
        column: "key".to_string(),
        value,
        row_id,
    };
    assert_eq!(
        ops,
        vec![
            put(Table::Users, 1, "auth_key", opaque(0xAA)),
            put(Table::Users, 1, "status", stored_i64(1)),
            put(Table::Users, 1, "update_key", opaque(0xAA)),
            BatchOp::PutNextId {
                table: Table::Users,
                next_id: 2
            },
            put(Table::Retention, 10, "key", opaque(0xAA)),
            put(Table::Retention, 10, "value", opaque(0xAA)),
            put(Table::Retention, 11, "key", stored_str("sl2/fgk/row/0")),
            put(Table::Retention, 11, "value", opaque(0xCC)),
            index(opaque(0xAA), 10),
            index(stored_str("sl2/fgk/row/0"), 11),
            BatchOp::PutNextId {
                table: Table::Retention,
                next_id: 12
            },
        ]
    );
}

#[test]
fn invited_members_get_ids_in_sequence() {
    for next_id in [1i64, 2, 41] {
        let entry = entry(1, user_kvs(0, stored_i64(0)));
        let reads = vec![
            status_read(1, 1),
            user_schema_read(),
            next_id_read(Table::Users, next_id),
        ];
        let mut reader = VerifierReader::new(&reads);
        let ops = writes(InviteUserOp::extract_and_validate(&entry, &mut reader, same_key).expect("accepted"));
        assert_eq!(ops.len(), 4);
        for op in &ops[..3] {
            match op {
                BatchOp::PutColumn { table, row_id, .. } => {
                    assert_eq!((*table, *row_id), (Table::Users, next_id));
                }
                other => panic!("unexpected write: {other:?}"),
            }
        }
        assert_eq!(
            ops[3],
            BatchOp::PutNextId {
                table: Table::Users,
                next_id: next_id + 1
            }
        );
    }
}

fn create_error(kvs: Vec<(ColumnKey, StoredValue)>, reads: Vec<ProvenRead>) -> ChangelogError {
    let entry = entry(0, kvs);
    let mut reader = VerifierReader::new(&reads);
    CreateSpaceOp::extract_and_validate(&entry, &mut reader, same_key).expect_err("refused")
}

#[test]
fn create_space_refusals() {
    let users = || user_kvs(0, stored_i64(1));
    let start = || vec![no_users_read(), user_schema_read(), next_id_read(Table::Users, 1)];

    let e = create_error(vec![(column_key("notes", 0, "id"), stored_i64(1))], vec![]);
    assert_eq!(kind(&e), ErrorKind::UnknownTable);
    assert_eq!(e.message(), "create_space: unexpected table 'notes'");

    let mut kvs = users();
    kvs.push((column_key("_key_history", 0, "key"), stored_i64(1)));
    let e = create_error(kvs, vec![]);
    assert_eq!(e.message(), "create_space: unexpected _key_history entries");

    let e = create_error(plain_retention_kvs("_retention"), vec![]);
    assert_eq!(e.message(), "create_space: _users entries must not be empty");

    let e = create_error(
        users(),
        vec![read(ReadOp::Rows(Table::Users), ReadValue::Counter(1))],
    );
    assert_eq!(kind(&e), ErrorKind::UsersNotEmpty);
    assert!(e.message().starts_with("create_space: users table is not empty"));

    let e = create_error(users()[..1].iter().map(|(k, v)| (copy_key(k), v.clone())).collect(), start());
    assert_eq!(kind(&e), ErrorKind::ColumnsDiffer(Table::Users));
    assert_eq!(
        e.message(),
        "create_space: _users insert missing columns [\"status\", \"update_key\"]"
    );

    // An extra column is refused too, though none is missing.
    let mut kvs = users();
    kvs.push((column_key("_users", 0, "nickname"), stored_str("x")));
    let e = create_error(kvs, start());
    assert_eq!(e.message(), "create_space: _users insert missing columns []");

    let e = create_error(users(), vec![no_users_read(), user_schema_read()]);
    assert_eq!(kind(&e), ErrorKind::ReadsExhausted);

    let e = create_error(users(), vec![user_schema_read()]);
    assert_eq!(kind(&e), ErrorKind::ReadMismatch);

    let mut reads = start();
    reads[1].results = vec![];
    let e = create_error(users(), reads);
    assert_eq!(kind(&e), ErrorKind::SchemaMissing(Table::Users));

    let mut reads = start();
    reads[2].results = vec![];
    let e = create_error(users(), reads);
    assert_eq!(kind(&e), ErrorKind::NextIdMissing(Table::Users));

    let mut reads = start();
    reads[2] = next_id_read(Table::Users, i64::MAX);
    let e = create_error(users(), reads);
    assert_eq!(kind(&e), ErrorKind::NextIdOverflow(Table::Users));
    assert_eq!(e.message(), "create_space: _users next_id overflow");

    let e = create_error(user_kvs(4, stored_i64(1)), start());
    assert_eq!(kind(&e), ErrorKind::NotAPlaceholder { row_id: 4 });
}

fn copy_key(key: &ColumnKey) -> ColumnKey {
    column_key(&key.table, key.row_id, &key.column)
}

#[test]
fn retention_row_refusals() {
    let users = || user_kvs(0, stored_i64(1));
    let start = || vec![no_users_read(), user_schema_read(), next_id_read(Table::Users, 1)];
    let with = |kvs: Vec<(ColumnKey, StoredValue)>| {
        let mut all = users();
        all.extend(kvs);
        all
    };

    let mut reads = start();
    reads.extend(retention_tail_reads(1));
    let e = create_error(
        with(vec![(column_key("_retention", 0, "key"), opaque(1))]),
        reads,
    );
    assert_eq!(
        e.message(),
        "create_space: _retention missing columns [\"value\"]"
    );

    let mut reads = start();
    reads.extend(retention_tail_reads(1));
    let mut kvs = plain_retention_kvs("_retention");
    kvs.push((column_key("_retention", 0, "key"), opaque(1)));
    let e = create_error(with(kvs), reads);
    assert_eq!(kind(&e), ErrorKind::RaggedRows { entries: 3, columns: 2 });
    assert_eq!(
        e.message(),
        "create_space: _retention entry count 3 is not a multiple of col_count=2"
    );

    // The last row still fits below the counter's limit, the counter does not.
    let mut reads = start();
    reads.extend(retention_tail_reads(i64::MAX));
    let e = create_error(with(plain_retention_kvs("_retention")), reads);
    assert_eq!(kind(&e), ErrorKind::NextIdOverflow(Table::Retention));

    let mut reads = start();
    reads.extend(retention_tail_reads(1));
    let e = create_error(
        with(vec![
            (column_key("_retention", 0, "key"), opaque(1)),
            (column_key("_retention", 3, "value"), opaque(1)),
        ]),
        reads,
    );
    assert_eq!(kind(&e), ErrorKind::NotAPlaceholder { row_id: 3 });
}

#[test]
fn retention_rows_without_an_index_are_accepted() {
    let mut reads = vec![status_read(1, 1)];
    reads.extend(retention_tail_reads(1));
    reads[3].results = vec![];
    let entry = entry(1, plain_retention_kvs("_retention"));
    let mut reader = VerifierReader::new(&reads);
    let ops = writes(RekeyOp::extract_and_validate(&entry, &mut reader, same_key).expect("accepted"));
    assert_eq!(ops.len(), 3);
    assert_eq!(reader.pos, 4);
}

#[test]
fn invite_refusals() {
    let run = |uid: u32, kvs: Vec<(ColumnKey, StoredValue)>, reads: Vec<ProvenRead>| {
        let entry = entry(uid, kvs);
        let mut reader = VerifierReader::new(&reads);
        InviteUserOp::extract_and_validate(&entry, &mut reader, same_key).expect_err("refused")
    };
    let e = run(
        9,
        user_kvs(0, stored_i64(0)),
        vec![ProvenRead {
            op: ReadOp::UserStatus(9),
            results: vec![],
        }],
    );
    assert_eq!(kind(&e), ErrorKind::UnknownUser(9));
    assert_eq!(e.message(), "invite_user: no user uid=9");

    let e = run(
        9,
        user_kvs(0, stored_i64(0)),
        vec![read(
            ReadOp::UserStatus(9),
            ReadValue::Stored(stored_str("full")),
        )],
    );
    assert_eq!(kind(&e), ErrorKind::MalformedStatus(9));

    let e = run(
        9,
        user_kvs(0, stored_str("0")),
        vec![status_read(9, 1), user_schema_read()],
    );
    assert_eq!(kind(&e), ErrorKind::StatusNotInserted);
}

#[test]
fn scoped_member_may_invite_without_grants() {
    let entry = entry(7, user_kvs(0, stored_i64(0)));
    let reads = vec![
        status_read(7, 2),
        user_schema_read(),
        next_id_read(Table::Users, 3),
    ];
    let mut reader = VerifierReader::new(&reads);
    assert!(InviteUserOp::extract_and_validate(&entry, &mut reader, same_key).is_ok());
}

#[test]
fn rekey_refusals() {
    let run = |kvs: Vec<(ColumnKey, StoredValue)>, reads: Vec<ProvenRead>| {
        let entry = entry(1, kvs);
        let mut reader = VerifierReader::new(&reads);
        RekeyOp::extract_and_validate(&entry, &mut reader, same_key).expect_err("refused")
    };
    assert_eq!(run(vec![], vec![]).message(), "rekey: no retention columns");

    let mut kvs = plain_retention_kvs("_retention");
    kvs.push((column_key("_users", 0, "status"), stored_i64(1)));
    assert_eq!(kind(&run(kvs, vec![])), ErrorKind::MixedTables);

    let e = run(
        grant_row_kvs(8, 2),
        vec![
            status_read(1, 1),
            ProvenRead {
                op: ReadOp::UserStatus(8),
                results: vec![],
            },
        ],
    );
    assert_eq!(kind(&e), ErrorKind::GrantNotScoped { uid: 8 });

    let mut reads = vec![status_read(1, 1)];
    reads.extend(retention_tail_reads(1));
    reads[1].results = vec![ReadValue::Columns(ColumnSet::new())];
    let e = run(plain_retention_kvs("_retention"), reads);
    assert_eq!(kind(&e), ErrorKind::ColumnsDiffer(Table::Retention));

    let mut reads = vec![status_read(1, 1)];
    reads.extend(retention_tail_reads(1));
    let mut kvs = plain_retention_kvs("_retention");
    kvs.push((column_key("_retention", 0, "value"), opaque(1)));
    let e = run(kvs, reads);
    assert_eq!(
        e.message(),
        "rekey: entry count 3 is not a multiple of _retention col_count=2"
    );
}

#[test]
fn column_sets_hold_each_name_once() {
    let set = columns(&["b", "a", "b"]);
    assert_eq!(set.len(), 2);
    assert_eq!(set.get(0), "a");
    assert_eq!(set.get(1), "b");
    assert!(set.contains("a"));
    assert!(!set.contains("c"));
}

#[test]
fn column_sets_ascend_as_texts_do() {
    let names = ["ab", "é", "", "Z", "a", "\u{10000}", "\u{ffff}", "a\0", "b"];
    let set = columns(&names);
    let mut sorted: Vec<String> = names.iter().map(|n| n.to_string()).collect();
    sorted.sort();
    let held: Vec<String> = (0..set.len()).map(|i| set.get(i).clone()).collect();
    assert_eq!(held, sorted);
}

#[test]
fn missing_columns_are_listed_ascending_and_escaped() {
    let schema = ["zeta", "say \"hi\"", "back\\slash", "auth_key", "tab\t", "line\n", "\u{1}é\u{301}'\u{200b}\u{7f}\0\r"];
    let reads = vec![
        no_users_read(),
        read(
            ReadOp::SchemaColumns(Table::Users),
            ReadValue::Columns(columns(&schema)),
        ),
    ];
    let e = create_error(vec![(column_key("_users", 0, "auth_key"), opaque(1))], reads);
    assert_eq!(kind(&e), ErrorKind::ColumnsDiffer(Table::Users));
    let mut missing: Vec<&str> = schema.iter().copied().filter(|n| *n != "auth_key").collect();
    missing.sort();
    assert_eq!(
        e.message(),
        format!("create_space: _users insert missing columns {missing:?}")
    );

    let reads = vec![
        no_users_read(),
        read(
            ReadOp::SchemaColumns(Table::Users),
            ReadValue::Columns(columns(&["q\"b\\", "a", "k"])),
        ),
    ];
    let e = create_error(vec![(column_key("_users", 0, "k"), opaque(1))], reads);
    assert_eq!(
        e.message(),
        "create_space: _users insert missing columns [\"a\", \"q\\\"b\\\\\"]"
    );
}

#[test]
fn messages_name_operation_and_reason() {
    let e = ChangelogError::new(
        OpType::InviteUser,
        ErrorKind::NotFullMember { uid: 7, status: 2 },
    );
    assert_eq!(
        e.message(),
        "invite_user: the signer must be a full member, uid=7 has status 2"
    );
    let e = ChangelogError::naming(OpType::Rekey, ErrorKind::NonCanonicalGrant, "sl2/x");
    assert_eq!(e.message(), "rekey: non-canonical channel_grant key 'sl2/x'");
    let e = ChangelogError::new(OpType::Rekey, ErrorKind::GrantNotAllowed);
    assert_eq!(e.message(), "rekey: channel_grant rows are not allowed");
    let e = ChangelogError::new(OpType::Rekey, ErrorKind::NoSchemaColumns(Table::Retention));
    assert_eq!(e.message(), "rekey: _retention has no schema columns");
}

fn keyed(key: &[u8], next_id: i64) -> KeyedOp {
    KeyedOp {
        key: key.to_vec(),
        op: BatchOp::PutNextId {
            table: Table::Users,
            next_id,
        },
    }
}

#[test]
fn batches_are_ordered_by_key_and_stable() {
    let sorted = sort_batch(vec![
        keyed(b"b", 1),
        keyed(b"a", 2),
        keyed(b"b", 3),
        keyed(b"", 4),
        keyed(b"ab", 5),
        keyed(b"a", 6),
    ]);
    assert_eq!(
        sorted,
        vec![
            keyed(b"", 4),
            keyed(b"a", 2),
            keyed(b"a", 6),
            keyed(b"ab", 5),
            keyed(b"b", 1),
            keyed(b"b", 3),
        ]
    );
    assert!(is_before(b"a", b"ab"));
    assert!(!is_before(b"ab", b"a"));
    assert!(!is_before(b"a", b"a"));
    assert!(is_before(&[1], &[255]));
}

#[test]
fn batches_are_ordered_by_their_encoded_keys() {
    let op = |next_id| BatchOp::PutNextId {
        table: Table::Retention,
        next_id,
    };
    let key_of = |op: &BatchOp| match op {
        BatchOp::PutNextId { next_id: 1, .. } => b"z".to_vec(),
        BatchOp::PutNextId { next_id: 2, .. } => b"a".to_vec(),
        _ => b"m".to_vec(),
    };
    let ordered = order_batch(vec![op(1), op(2), op(3)], key_of);
    let ids: Vec<(Vec<u8>, BatchOp)> = ordered.into_iter().map(|k| (k.key, k.op)).collect();
    assert_eq!(
        ids,
        vec![
            (b"a".to_vec(), op(2)),
            (b"m".to_vec(), op(3)),
            (b"z".to_vec(), op(1)),
        ]
    );
}

#[test]
fn accepted_writes_are_ordered_by_their_encoded_keys() {
    // Counters before columns, columns by descending name.
    let key_of = |op: &BatchOp| match op {
        BatchOp::PutColumn { column, .. } => {
            let mut key = vec![1];
            key.extend(column.bytes().map(|b| 255 - b));
            key
        }
        _ => vec![0],
    };
    let entry = entry(1, user_kvs(0, stored_i64(0)));
    let reads = vec![
        status_read(1, 1),
        user_schema_read(),
        next_id_read(Table::Users, 5),
    ];
    let mut reader = VerifierReader::new(&reads);
    let result = InviteUserOp::extract_and_validate(&entry, &mut reader, key_of);
    let ops = writes(result.expect("accepted"));
    assert_eq!(
        ops[0],
        BatchOp::PutNextId {
            table: Table::Users,
            next_id: 6
        }
    );
    let names: Vec<&str> = ops[1..]
        .iter()
        .map(|op| match op {
            BatchOp::PutColumn { column, .. } => column.as_str(),
            other => panic!("unexpected write: {other:?}"),
        })
        .collect();
    assert_eq!(names, vec!["update_key", "status", "auth_key"]);
}
