use base64::engine::general_purpose::STANDARD;
use base64::Engine;
use encrypted_spaces::crypto::{
    current_key_id_on, data_key_on, encrypted_columns_from_schema, keep_readable_rows,
    plan_query_encryption, plan_row_decryption, prepare_row, query_channel_id,
    query_param_to_value, table_key, write_back, EncryptedColumn, EncryptionPlan, FieldType,
    KeyRoute, RowOutcome,
};
use encrypted_spaces::keys::KeyMaterial;
use encrypted_spaces::query::{
    Column, ColumnType, Query, QueryOperation, QueryParam, RowValue, Schema, SdkError,
};
use encrypted_spaces::text_map::TextMap;
use encrypted_spaces::tree_keys::{channel_root, Derivation, TreeKeyId};
use encrypted_spaces::tree_space_key::{data_key_from_subtree, DataKeyStep, TreeSpaceKey};
use sha2::{Digest, Sha256};

// A stand-in for the cipher, the key derivation and the group chain: a
// ciphertext is the key id, a fingerprint of the key and the plaintext.

type Fields = Vec<(String, QueryParam)>;

fn column(name: &str, column_type: ColumnType, plaintext: bool) -> Column {
    Column {
        name: name.to_string(),
        column_type,
        plaintext,
    }
}

fn notes_schema() -> Schema {
    Schema {
        name: "notes".to_string(),
        columns: vec![
            column("id", ColumnType::Integer, true),
            column("title", ColumnType::String, false),
            column("body", ColumnType::String, false),
        ],
    }
}

/// Plaintext `channel_id` (the routing key) and an encrypted `body`.
fn msgs_schema() -> Schema {
    Schema {
        name: "msgs".to_string(),
        columns: vec![
            column("id", ColumnType::Integer, true),
            column("channel_id", ColumnType::Integer, true),
            column("body", ColumnType::String, false),
        ],
    }
}

fn field(name: &str, param: QueryParam) -> (String, QueryParam) {
    (name.to_string(), param)
}

fn text(s: &str) -> QueryParam {
    QueryParam::Text(s.to_string())
}

fn insert_query(table: &str, fields: Fields) -> Query {
    Query::new(table.to_string(), QueryOperation::Insert(fields))
}

fn derive(parent: &KeyMaterial, tag: &str) -> KeyMaterial {
    let mut hash = Sha256::new();
    hash.update(parent.as_bytes());
    hash.update(tag.as_bytes());
    KeyMaterial::new(hash.finalize().to_vec())
}

fn encrypt(id: TreeKeyId, key: &[u8; 32], plain: &str) -> String {
    let mut raw = id.channel.to_be_bytes().to_vec();
    raw.extend_from_slice(&id.seq.to_be_bytes());
    raw.extend_from_slice(&Sha256::digest(key));
    raw.extend_from_slice(plain.as_bytes());
    STANDARD.encode(raw)
}

fn ciphertext_key_id(raw: &[u8]) -> Option<TreeKeyId> {
    if raw.len() < 48 {
        return None;
    }
    Some(TreeKeyId::new(
        i64::from_be_bytes(raw[..8].try_into().ok()?),
        u64::from_be_bytes(raw[8..16].try_into().ok()?),
    ))
}

fn encrypt_row(
    row: TextMap<RowValue>,
    columns: &[EncryptedColumn],
    id: TreeKeyId,
    key: &[u8; 32],
) -> TextMap<RowValue> {
    let mut out = TextMap::new();
    for (name, value) in row.into_entries() {
        let value = if columns.iter().any(|c| c.name == name) {
            match value {
                RowValue::Text(s) => RowValue::Text(encrypt(id, key, &s)),
                other => panic!("unexpected value type: {other:?}"),
            }
        } else {
            value
        };
        out.insert(name, value);
    }
    out
}

/// A space: the group keys by epoch, the stored rows and one table.
struct World {
    epochs: Vec<KeyMaterial>,
    schema: Schema,
    rows: Vec<Fields>,
}

impl World {
    fn new(schema: Schema) -> Self {
        World {
            epochs: vec![KeyMaterial::new(b"group key of epoch 0".to_vec())],
            schema,
            rows: vec![],
        }
    }

    fn epoch(&self) -> u64 {
        self.epochs.len() as u64 - 1
    }

    fn rekey(&mut self) {
        let n = self.epochs.len();
        self.epochs
            .push(KeyMaterial::new(format!("group key of epoch {n}").into_bytes()));
    }

    fn full_member(&self) -> TreeSpaceKey {
        TreeSpaceKey::from_group_key(self.epochs.last().unwrap().clone())
    }

    fn subtree(&self, channel: i64) -> KeyMaterial {
        let d = self.full_member().channel_subtree_key(channel).unwrap();
        derive(&d.parent, &d.tag)
    }

    fn scoped_member(&self, channels: &[i64]) -> TreeSpaceKey {
        TreeSpaceKey::scoped(
            channels
                .iter()
                .map(|c| ((*c, self.epoch()), self.subtree(*c)))
                .collect(),
        )
    }

    /// Delivers the current epoch's keys of the channels that a member holds.
    fn refresh(&self, member: &mut TreeSpaceKey) {
        for channel in member.scoped_channels() {
            member.install_channel_key(channel, self.epoch(), self.subtree(channel));
        }
    }

    fn data_key(&self, member: &TreeSpaceKey, id: TreeKeyId) -> Option<[u8; 32]> {
        match member.data_key_for_key_id(&id).ok()? {
            DataKeyStep::Ready(key) => Some(key),
            DataKeyStep::RootLine { seq } => {
                let group = self.epochs.get(seq as usize)?;
                Some(Sha256::digest(group.as_bytes()).into())
            }
            DataKeyStep::Derive { epoch, tag } => {
                let subtree = self.epochs.get(epoch as usize).map(|g| derive(g, &tag));
                data_key_from_subtree(&id, subtree.as_ref()).ok()
            }
        }
    }

    fn encrypt_query_fields(
        &self,
        query: &mut Query,
        member: &TreeSpaceKey,
    ) -> Result<(), SdkError> {
        let known = query.table == self.schema.name;
        let schema = if known { Some(&self.schema) } else { None };
        let route = match plan_query_encryption(query, schema) {
            EncryptionPlan::Unchanged => return Ok(()),
            EncryptionPlan::Encrypt(route) => route,
        };
        let seq = match route {
            KeyRoute::Root => member
                .current_key_id(Some(self.epoch()))
                .ok()
                .map(|id| id.seq),
            KeyRoute::Channel(channel) => member
                .current_channel_epoch(channel, Some(self.epoch()))
                .ok(),
        };
        let id = current_key_id_on(route, seq)?;
        let key = data_key_on(route, self.data_key(member, id))?;
        let row = prepare_row(query, &self.schema)?;
        let columns = encrypted_columns_from_schema(&self.schema);
        let encrypted = encrypt_row(row, &columns, id, &key);
        write_back(query, &self.schema, &encrypted);
        Ok(())
    }

    fn insert(&mut self, member: &TreeSpaceKey, fields: Fields) -> Result<(), SdkError> {
        let mut query = insert_query(&self.schema.name.clone(), fields);
        self.encrypt_query_fields(&mut query, member)?;
        if let QueryOperation::Insert(fields) = query.operation {
            self.rows.push(fields);
        }
        Ok(())
    }

    fn post(&mut self, member: &TreeSpaceKey, channel: i64, body: &str) {
        self.insert(
            member,
            vec![
                field("id", QueryParam::Null),
                field("channel_id", QueryParam::Integer(channel)),
                field("body", text(body)),
            ],
        )
        .expect("post");
    }

    fn decrypt_row(
        &self,
        member: &TreeSpaceKey,
        columns: &[EncryptedColumn],
        row: &Fields,
    ) -> RowOutcome<Fields> {
        let mut out = vec![];
        for (name, param) in row {
            let value = match param {
                QueryParam::Text(s) if columns.iter().any(|c| &c.name == name) => {
                    let raw = STANDARD.decode(s).expect("valid base64");
                    let id = ciphertext_key_id(&raw).expect("key id");
                    match self.data_key(member, id) {
                        Some(key) if raw[16..48] == Sha256::digest(key)[..] => {
                            text(std::str::from_utf8(&raw[48..]).unwrap())
                        }
                        _ => return RowOutcome::Failed,
                    }
                }
                other => other.clone(),
            };
            out.push((name.clone(), value));
        }
        RowOutcome::Decrypted(out)
    }

    fn select(&self, member: &TreeSpaceKey, table_name: &str) -> Vec<Fields> {
        let mut schemas = TextMap::new();
        schemas.insert(self.schema.name.clone(), copy_schema(&self.schema));
        self.select_with(member, table_name, &schemas)
    }

    fn select_with(
        &self,
        member: &TreeSpaceKey,
        table_name: &str,
        schemas: &TextMap<Schema>,
    ) -> Vec<Fields> {
        let copy = |row: &Fields| row.iter().map(|(n, p)| (n.clone(), p.clone())).collect();
        match plan_row_decryption(table_name, schemas) {
            None => self.rows.iter().map(copy).collect(),
            Some(columns) => keep_readable_rows(
                self.rows
                    .iter()
                    .map(|row| self.decrypt_row(member, &columns, row))
                    .collect(),
            ),
        }
    }

    fn bodies(&self, member: &TreeSpaceKey) -> Vec<(i64, String)> {
        self.select(member, &self.schema.name)
            .into_iter()
            .map(|row| {
                let mut channel = -1;
                let mut body = String::new();
                for (name, param) in row {
                    match (name.as_str(), param) {
                        ("channel_id", QueryParam::Integer(c)) => channel = c,
                        ("body", QueryParam::Text(s)) => body = s,
                        _ => {}
                    }
                }
                (channel, body)
            })
            .collect()
    }
}

fn copy_schema(schema: &Schema) -> Schema {
    Schema {
        name: schema.name.clone(),
        columns: schema
            .columns
            .iter()
            .map(|c| column(&c.name, c.column_type, c.plaintext))
            .collect(),
    }
}

fn reads(rows: &[(i64, String)], body: &str) -> bool {
    rows.iter().any(|(_, b)| b == body)
}

fn body_key_id(query: &Query, name: &str) -> Option<TreeKeyId> {
    let fields = match &query.operation {
        QueryOperation::Insert(f) => f,
        _ => return None,
    };
    let (_, param) = fields.iter().find(|(n, _)| n == name)?;
    match param {
        QueryParam::Text(s) => ciphertext_key_id(&STANDARD.decode(s).ok()?),
        _ => None,
    }
}

fn msg(id: i64, channel: i64, body: &str) -> Query {
    insert_query(
        "msgs",
        vec![
            field("id", QueryParam::Integer(id)),
            field("channel_id", QueryParam::Integer(channel)),
            field("body", text(body)),
        ],
    )
}

#[test]
fn channel_rows_encrypt_under_derived_channel_keys() {
    let mut world = World::new(msgs_schema());
    let full = world.full_member();

    // A row for channel 1 encrypts under channel 1's derived key...
    let mut q1 = msg(1, 1, "secret in ch1");
    world.encrypt_query_fields(&mut q1, &full).unwrap();
    assert_eq!(
        body_key_id(&q1, "body"),
        Some(TreeKeyId::new(1, 0)),
        "channel-1 row must be tagged with channel 1's key id"
    );

    // ...and a channel-2 row under channel 2's line.
    let mut q2 = msg(2, 2, "secret in ch2");
    world.encrypt_query_fields(&mut q2, &full).unwrap();
    assert_eq!(
        body_key_id(&q2, "body"),
        Some(TreeKeyId::new(2, 0)),
        "channel-2 row must be tagged with channel 2's key id"
    );

    // The full member round-trips the channel-1 row.
    if let QueryOperation::Insert(fields) = q1.operation {
        world.rows.push(fields);
    }
    let rows = world.select(&full, "msgs");
    assert_eq!(rows[0][2], field("body", text("secret in ch1")));
}

#[test]
fn any_channel_derives_without_setup() {
    let world = World::new(msgs_schema());
    let mut q = msg(1, 5, "secret in ch5");
    world
        .encrypt_query_fields(&mut q, &world.full_member())
        .unwrap();
    assert_eq!(body_key_id(&q, "body"), Some(TreeKeyId::new(5, 0)));
}

#[test]
fn scoped_agent_reads_only_its_channels() {
    let mut world = World::new(msgs_schema());
    let alice = world.full_member();
    world.post(&alice, 1, "secret in ch1");
    world.post(&alice, 2, "secret in ch2");

    let agent = world.scoped_member(&[1]);
    let rows = world.bodies(&agent);
    assert_eq!(rows.len(), 1, "scoped agent must see only its channel");
    assert_eq!(rows[0], (1, "secret in ch1".to_string()));
}

#[test]
fn scoped_member_writes_and_full_member_reads() {
    let mut world = World::new(msgs_schema());
    let alice = world.full_member();
    let agent = world.scoped_member(&[2]);
    world.post(&agent, 2, "reply from scoped agent");

    let seen_by_agent = world.bodies(&agent);
    assert_eq!(seen_by_agent.len(), 1, "scoped writer must read its own post");
    assert_eq!(seen_by_agent[0].1, "reply from scoped agent");

    let seen_by_alice = world.bodies(&alice);
    assert_eq!(seen_by_alice.len(), 1, "full member must read scoped member's post");
    assert_eq!(seen_by_alice[0], (2, "reply from scoped agent".to_string()));

    // A channel that it was not granted is closed for writing, too.
    let err = world
        .insert(
            &agent,
            vec![
                field("id", QueryParam::Null),
                field("channel_id", QueryParam::Integer(3)),
                field("body", text("x")),
            ],
        )
        .unwrap_err();
    assert_eq!(
        err,
        SdkError::DecryptionError("current channel epoch failed".to_string())
    );
}

#[test]
fn full_member_voice_root_matches_derived_channel_key() {
    let world = World::new(msgs_schema());
    let full = world.full_member();
    let group = full.group_ref().unwrap();
    let expected_ch1 = channel_root(group, 1);
    let root1 = full.channel_subtree_key(1);
    assert_eq!(root1, Some(expected_ch1));
    let root2 = full.channel_subtree_key(2);
    assert_ne!(root1, root2, "different channels must derive different roots");
}

#[test]
fn scoped_member_voice_root_is_none_even_for_a_delivered_channel() {
    let world = World::new(msgs_schema());
    let agent = world.scoped_member(&[1]);
    assert_eq!(
        agent.channel_subtree_key(1),
        None,
        "a scoped member cannot derive — only a full member can"
    );
    assert_eq!(agent.channel_subtree_key(2), None);
}

#[test]
fn encrypt_query_fields_encrypts_non_plaintext_columns() {
    let world = World::new(notes_schema());
    let mut query = insert_query(
        "notes",
        vec![
            field("id", QueryParam::Null),
            field("title", text("secret title")),
            field("body", text("secret body")),
        ],
    );
    world
        .encrypt_query_fields(&mut query, &world.full_member())
        .unwrap();
    let fields = match &query.operation {
        QueryOperation::Insert(f) => f,
        _ => panic!("expected Insert"),
    };
    // `id` is plaintext — should remain Null.
    assert_eq!(fields[0], field("id", QueryParam::Null));
    for col_name in ["title", "body"] {
        assert_eq!(
            body_key_id(&query, col_name),
            Some(TreeKeyId::root(0)),
            "{col_name} ciphertext should be tagged with key_id 0"
        );
    }
}

#[test]
fn encrypt_query_fields_is_noop_for_select() {
    let world = World::new(notes_schema());
    let select = || QueryOperation::Select(vec!["*".to_string()]);
    let mut query = Query::new("notes".to_string(), select());
    world
        .encrypt_query_fields(&mut query, &world.full_member())
        .unwrap();
    // Should still be a Select — unchanged.
    assert_eq!(query.operation, select());

    // Also for a member without the group key.
    let agent = world.scoped_member(&[1]);
    world.encrypt_query_fields(&mut query, &agent).unwrap();
    assert_eq!(query.operation, select());
    let mut query = Query::new("notes".to_string(), QueryOperation::Delete);
    world.encrypt_query_fields(&mut query, &agent).unwrap();
    assert_eq!(query.operation, QueryOperation::Delete);
}

#[test]
fn decrypt_table_rows_roundtrips_with_encrypt() {
    let mut world = World::new(notes_schema());
    let full = world.full_member();
    world
        .insert(
            &full,
            vec![
                field("id", QueryParam::Integer(1)),
                field("title", text("roundtrip")),
                field("body", text("test body")),
            ],
        )
        .unwrap();
    let rows = world.select(&full, "notes");
    assert_eq!(
        rows[0],
        vec![
            field("id", QueryParam::Integer(1)),
            field("title", text("roundtrip")),
            field("body", text("test body")),
        ]
    );
    // The alias of a joined table does not hide its schema.
    assert_eq!(world.select(&full, "notes as n"), rows);
}

#[test]
fn decrypt_table_rows_skips_table_without_schema() {
    let mut world = World::new(notes_schema());
    let full = world.full_member();
    world.rows = vec![vec![field("x", text("hello"))]];
    let empty_schemas: TextMap<Schema> = TextMap::new();
    // Should be a no-op — no error, rows unchanged.
    let rows = world.select_with(&full, "nonexistent", &empty_schemas);
    assert_eq!(rows, vec![vec![field("x", text("hello"))]]);
}

#[test]
fn full_member_reads_pre_rekey_channel_row_after_rekey() {
    let mut world = World::new(msgs_schema());
    world.post(&world.full_member(), 1, "pre-rekey secret");
    world.rekey();
    assert!(reads(&world.bodies(&world.full_member()), "pre-rekey secret"));
}

#[test]
fn full_member_reads_pre_rekey_channel_row_after_two_rekeys() {
    let mut world = World::new(msgs_schema());
    world.post(&world.full_member(), 1, "e1 secret");
    world.rekey();
    world.rekey();
    assert!(reads(&world.bodies(&world.full_member()), "e1 secret"));
}

#[test]
fn full_member_reads_pre_rekey_channel_row_after_three_rekeys() {
    let mut world = World::new(msgs_schema());
    world.post(&world.full_member(), 1, "e1 secret depth3");
    world.rekey();
    world.rekey();
    world.rekey();
    assert!(reads(&world.bodies(&world.full_member()), "e1 secret depth3"));
}

#[test]
fn scoped_member_reads_new_message_after_rekey() {
    let mut world = World::new(msgs_schema());
    let mut agent = world.scoped_member(&[1]);
    world.rekey();
    world.post(&world.full_member(), 1, "post-rekey ch1");
    assert!(!reads(&world.bodies(&agent), "post-rekey ch1"));
    world.refresh(&mut agent);
    assert!(
        reads(&world.bodies(&agent), "post-rekey ch1"),
        "scoped agent must read a NEW ch1 message after a rekey"
    );
}

#[test]
fn scoped_member_retains_pre_rekey_channel_row_after_rekey() {
    let mut world = World::new(msgs_schema());
    world.post(&world.full_member(), 1, "e1-general-secret");
    let mut charlie = world.scoped_member(&[1]);
    let mut dave = world.scoped_member(&[2]);
    assert!(
        reads(&world.bodies(&charlie), "e1-general-secret"),
        "Charlie must read the E1 channel-1 row before any rekey"
    );
    assert!(
        world.bodies(&dave).is_empty(),
        "Dave (scoped to channel 2 only) must never see channel 1"
    );
    world.rekey();
    world.refresh(&mut charlie);
    world.refresh(&mut dave);
    assert!(reads(&world.bodies(&charlie), "e1-general-secret"));
    assert!(world.bodies(&dave).is_empty());
}

#[test]
fn scoped_member_retains_pre_rekey_channel_row_after_skipped_multi_rekey() {
    let mut world = World::new(msgs_schema());
    world.post(&world.full_member(), 1, "e1-general-secret");
    let mut charlie = world.scoped_member(&[1]);
    world.rekey();
    world.rekey();
    world.post(&world.full_member(), 1, "e3-general-secret");
    world.refresh(&mut charlie);
    let rows = world.bodies(&charlie);
    assert!(
        reads(&rows, "e1-general-secret"),
        "Charlie must retain the E1 row across TWO skipped rekeys"
    );
    assert!(
        reads(&rows, "e3-general-secret"),
        "Charlie must read the NEW E3 row after the single catch-up refresh"
    );
}

#[test]
fn multi_channel_and_multi_member() {
    let mut world = World::new(msgs_schema());
    let mut agent_a = world.scoped_member(&[1, 3]);
    let mut agent_b = world.scoped_member(&[2]);
    let alice = world.full_member();
    for (ch, body) in [(1i64, "a-pre-1"), (2, "b-pre-2"), (3, "a-pre-3")] {
        world.post(&alice, ch, body);
    }
    let a_before = world.bodies(&agent_a);
    assert!(a_before.iter().all(|m| m.0 == 1 || m.0 == 3));
    assert!(a_before.iter().any(|m| m.0 == 1) && a_before.iter().any(|m| m.0 == 3));
    let b_before = world.bodies(&agent_b);
    assert!(b_before.iter().all(|m| m.0 == 2));
    assert!(reads(&b_before, "b-pre-2"));

    world.rekey();
    let alice = world.full_member();
    for (ch, body) in [(1i64, "a-post-1"), (2, "b-post-2"), (3, "a-post-3")] {
        world.post(&alice, ch, body);
    }
    world.refresh(&mut agent_a);
    let a_after = world.bodies(&agent_a);
    assert!(reads(&a_after, "a-post-1"));
    assert!(reads(&a_after, "a-post-3"));
    assert!(a_after.iter().all(|m| m.0 == 1 || m.0 == 3));
    assert!(!reads(&a_after, "b-post-2"));
    world.refresh(&mut agent_b);
    let b_after = world.bodies(&agent_b);
    assert!(reads(&b_after, "b-post-2"));
    assert!(b_after.iter().all(|m| m.0 == 2));
}

#[test]
fn removed_scoped_member_gets_no_new_epoch_channel_key() {
    let mut world = World::new(msgs_schema());
    world.rekey();
    let charlie = world.scoped_member(&[1]);
    let mut dave = world.scoped_member(&[1]);
    world.post(&world.full_member(), 1, "e1-secret");
    assert!(reads(&world.bodies(&charlie), "e1-secret"));
    assert!(reads(&world.bodies(&dave), "e1-secret"));

    // Charlie is removed: the rekey delivers to Dave only.
    world.rekey();
    world.post(&world.full_member(), 1, "e2-secret");
    world.refresh(&mut dave);
    assert!(reads(&world.bodies(&dave), "e2-secret"));
    assert!(!reads(&world.bodies(&charlie), "e2-secret"));
}

#[test]
fn root_line_row_survives_rekey() {
    let mut world = World::new(notes_schema());
    let alice = world.full_member();
    world
        .insert(
            &alice,
            vec![
                field("id", QueryParam::Null),
                field("title", text("pre-rekey")),
                field("body", text("root line secret")),
            ],
        )
        .unwrap();
    world.rekey();
    assert!(reads(&world.bodies(&world.full_member()), "root line secret"));
    // The root line is closed to scoped members, for reading and writing.
    let agent = world.scoped_member(&[1]);
    assert!(world.bodies(&agent).is_empty());
    let err = world
        .insert(&agent, vec![field("title", text("x")), field("body", text("y"))])
        .unwrap_err();
    assert_eq!(
        err,
        SdkError::DecryptionError("current key id failed".to_string())
    );
}

#[test]
fn encrypted_columns_are_those_that_are_not_plaintext() {
    let schema = Schema {
        name: "t".to_string(),
        columns: vec![
            column("a", ColumnType::Integer, false),
            column("b", ColumnType::Real, false),
            column("c", ColumnType::String, false),
            column("p", ColumnType::String, true),
            column("d", ColumnType::Text, false),
            column("e", ColumnType::Blob, false),
            column("f", ColumnType::FileRef, false),
            column("g", ColumnType::List, false),
        ],
    };
    let columns: Vec<(String, FieldType)> = encrypted_columns_from_schema(&schema)
        .into_iter()
        .map(|c| (c.name, c.field_type))
        .collect();
    let expected = [
        ("a", FieldType::Integer),
        ("b", FieldType::Real),
        ("c", FieldType::Text),
        ("d", FieldType::Text),
        ("e", FieldType::Blob),
        ("f", FieldType::FileRef),
        ("g", FieldType::List),
    ];
    assert_eq!(columns.len(), expected.len());
    for (got, want) in columns.iter().zip(expected) {
        assert_eq!((got.0.as_str(), got.1), want);
    }
}

#[test]
fn rows_are_routed_by_a_plaintext_channel_id() {
    let schema = msgs_schema();
    let op = |fields| QueryOperation::Update(fields);
    assert_eq!(
        query_channel_id(&op(vec![field("channel_id", QueryParam::Integer(4))]), &schema),
        Some(4)
    );
    // The first integer counts; other values are passed over.
    assert_eq!(
        query_channel_id(
            &op(vec![
                field("channel_id", text("9")),
                field("channel_id", QueryParam::Integer(6)),
                field("channel_id", QueryParam::Integer(7)),
            ]),
            &schema
        ),
        Some(6)
    );
    assert_eq!(query_channel_id(&op(vec![field("body", text("x"))]), &schema), None);
    assert_eq!(query_channel_id(&QueryOperation::Delete, &schema), None);
    assert_eq!(
        query_channel_id(
            &op(vec![field("channel_id", QueryParam::Integer(4))]),
            &notes_schema()
        ),
        None
    );
    let mut encrypted_channel = msgs_schema();
    encrypted_channel.columns[1].plaintext = false;
    assert_eq!(
        query_channel_id(
            &op(vec![field("channel_id", QueryParam::Integer(4))]),
            &encrypted_channel
        ),
        None
    );
}

#[test]
fn tables_without_encrypted_columns_are_left_alone() {
    let mut schema = notes_schema();
    for c in &mut schema.columns {
        c.plaintext = true;
    }
    let query = insert_query("notes", vec![field("nonsense", QueryParam::Null)]);
    assert_eq!(
        plan_query_encryption(&query, Some(&schema)),
        EncryptionPlan::Unchanged
    );
    assert_eq!(plan_query_encryption(&query, None), EncryptionPlan::Unchanged);
    assert_eq!(
        plan_query_encryption(&query, Some(&notes_schema())),
        EncryptionPlan::Encrypt(KeyRoute::Root)
    );
    let mut schemas = TextMap::new();
    schemas.insert("notes".to_string(), schema);
    assert!(plan_row_decryption("notes", &schemas).is_none());
}

#[test]
fn fields_are_checked_against_the_table() {
    let schema = notes_schema();
    let err = prepare_row(
        &insert_query("notes", vec![field("nope", QueryParam::Null)]),
        &schema,
    )
    .unwrap_err();
    assert_eq!(
        err,
        SdkError::InvalidQuery(
            "Query field 'nope' not found in schema for table 'notes'".to_string()
        )
    );
    let err = prepare_row(
        &insert_query("notes", vec![field("title", text("t"))]),
        &schema,
    )
    .unwrap_err();
    assert_eq!(
        err,
        SdkError::InvalidQuery(
            "Encrypted column 'body' missing from query for table 'notes'".to_string()
        )
    );
    // An update need not give every column.
    let row = prepare_row(
        &Query::new(
            "notes".to_string(),
            QueryOperation::Update(vec![field("title", text("a")), field("title", text("b"))]),
        ),
        &schema,
    )
    .unwrap();
    assert_eq!(row.get("title"), Some(&RowValue::Text("b".to_string())));
    assert_eq!(row.get("body"), None);
}

#[test]
fn missing_keys_are_reported_by_line() {
    assert_eq!(current_key_id_on(KeyRoute::Root, Some(3)), Ok(TreeKeyId::root(3)));
    assert_eq!(
        current_key_id_on(KeyRoute::Channel(2), Some(3)),
        Ok(TreeKeyId::new(2, 3))
    );
    assert_eq!(data_key_on(KeyRoute::Root, Some([1; 32])), Ok([1; 32]));
    assert_eq!(
        data_key_on(KeyRoute::Root, None),
        Err(SdkError::DecryptionError(
            "missing key for current key_id".to_string()
        ))
    );
    assert_eq!(
        data_key_on(KeyRoute::Channel(2), None),
        Err(SdkError::DecryptionError(
            "channel key derivation failed".to_string()
        ))
    );
}

#[test]
fn write_back_touches_encrypted_texts_only() {
    let schema = notes_schema();
    let mut query = insert_query(
        "notes",
        vec![
            field("id", text("kept")),
            field("title", text("plain")),
            field("body", QueryParam::Integer(1)),
        ],
    );
    let mut row = TextMap::new();
    row.insert("id".to_string(), RowValue::Text("ignored".to_string()));
    row.insert("title".to_string(), RowValue::Text("cipher".to_string()));
    row.insert("body".to_string(), RowValue::Integer(2));
    write_back(&mut query, &schema, &row);
    assert_eq!(
        query.operation,
        QueryOperation::Insert(vec![
            field("id", text("kept")),
            field("title", text("cipher")),
            field("body", QueryParam::Integer(1)),
        ])
    );
    assert_eq!(query.table, "notes");
}

#[test]
fn query_values_become_row_values() {
    assert_eq!(query_param_to_value(&QueryParam::Null), RowValue::Null);
    assert_eq!(query_param_to_value(&QueryParam::Integer(-3)), RowValue::Integer(-3));
    assert_eq!(query_param_to_value(&QueryParam::Boolean(true)), RowValue::Boolean(true));
    assert_eq!(query_param_to_value(&text("x")), RowValue::Text("x".to_string()));
    assert_eq!(
        query_param_to_value(&QueryParam::Blob(vec![1, 2, 3, 255])),
        RowValue::Text("AQID/w==".to_string())
    );
    for real in [0.0f64, -0.0, 1.5, f64::MIN, f64::MAX, f64::MIN_POSITIVE] {
        assert_eq!(
            query_param_to_value(&QueryParam::Real(real.to_bits())),
            RowValue::Real(real.to_bits())
        );
    }
    for real in [f64::NAN, f64::INFINITY, f64::NEG_INFINITY] {
        assert_eq!(
            query_param_to_value(&QueryParam::Real(real.to_bits())),
            RowValue::Null
        );
    }
}

#[test]
fn table_names_lose_their_alias() {
    for (name, key) in [
        ("notes", "notes"),
        ("notes as n", "notes"),
        ("notes as n as m", "notes"),
        ("notes as", "notes as"),
        ("as as b", "as"),
        (" as x", ""),
        ("", ""),
        ("tête as t", "tête"),
    ] {
        assert_eq!(table_key(name), key, "{name}");
    }
}

#[test]
fn only_failed_rows_are_dropped() {
    assert_eq!(
        keep_readable_rows(vec![
            RowOutcome::Decrypted(1),
            RowOutcome::Failed,
            RowOutcome::Untouched(2),
            RowOutcome::Failed,
            RowOutcome::Decrypted(3),
        ]),
        vec![1, 2, 3]
    );
    assert_eq!(
        keep_readable_rows(vec![RowOutcome::<u8>::Failed]),
        Vec::<u8>::new()
    );
}

#[test]
fn text_maps_replace_in_place() {
    let mut map = TextMap::new();
    map.insert("b".to_string(), RowValue::Integer(1));
    map.insert("a".to_string(), RowValue::Integer(2));
    map.insert("b".to_string(), RowValue::Integer(3));
    assert_eq!(map.get("b"), Some(&RowValue::Integer(3)));
    assert_eq!(map.get("c"), None);
    assert_eq!(
        map.into_entries(),
        vec![
            ("b".to_string(), RowValue::Integer(3)),
            ("a".to_string(), RowValue::Integer(2)),
        ]
    );
}

#[test]
fn derivations_carry_the_group_key() {
    let group = KeyMaterial::new(vec![1, 2, 3]);
    assert_eq!(
        channel_root(&group, 12),
        Derivation {
            parent: group.clone(),
            tag: "es:l2:channel-root:12".to_string()
        }
    );
}
