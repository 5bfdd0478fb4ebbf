//! What holds of query encryption and row decryption.

use crate::crypto;
use crate::crypto::{
    EncryptedColumnView, EncryptionPlan, FieldType, KeyRoute, RowOutcome, CHANNEL_ID_COLUMN,
};
use crate::encoding;
use crate::query::{
    ColumnType, ColumnView, OperationView, ParamView, RowValueView, SchemaView, SdkErrorView,
};
use crate::tree_keys::TreeKeyId;
use vstd::prelude::*;
use vstd::string::*;

verus! {

/// A row that names a channel is encrypted under a key id of exactly that
/// channel, never of the root line: a member without that channel's key cannot
/// read it.
pub proof fn law_channel_rows_use_their_channel(
    operation: OperationView,
    schema: SchemaView,
    channel: i64,
    seq: u64,
)
    requires
        channel >= 0,
        crypto::encrypted_columns(schema.columns).len() > 0,
        crypto::channel_of(operation, schema.columns) == Some(channel),
    ensures
        crypto::encryption_plan(operation, Some(schema)) == EncryptionPlan::Encrypt(
            KeyRoute::Channel(channel),
        ),
        crypto::stamped_key_id(KeyRoute::Channel(channel), Some(seq)) is Ok,
        crypto::stamped_key_id(KeyRoute::Channel(channel), Some(seq))->Ok_0 == (TreeKeyId {
            channel,
            seq,
        }),
        !crypto::stamped_key_id(KeyRoute::Channel(channel), Some(seq))->Ok_0.on_root_line(),
{
}

/// A table without a plaintext channel id column lies on the root line.
pub proof fn law_tables_without_channels_use_the_root_line(
    operation: OperationView,
    schema: SchemaView,
)
    requires
        !crypto::has_channel_column(schema.columns),
    ensures
        crypto::encryption_plan(operation, Some(schema)) == EncryptionPlan::Unchanged
            || crypto::encryption_plan(operation, Some(schema)) == EncryptionPlan::Encrypt(
            KeyRoute::Root,
        ),
{
}

/// Reads and deletions are never encrypted, and writing back leaves them alone.
pub proof fn law_reads_are_left_alone(
    operation: OperationView,
    schema: Option<SchemaView>,
    columns: Seq<EncryptedColumnView>,
    row: Map<Seq<char>, RowValueView>,
)
    requires
        operation is Select || operation is Delete,
    ensures
        crypto::encryption_plan(operation, schema) == EncryptionPlan::Unchanged,
        crypto::operation_after(operation, columns, row) == operation,
{
}

/// Encryption keeps the kind of the operation, the names and their order, and
/// every field that is not of an encrypted column.
pub proof fn law_plaintext_fields_are_kept(
    operation: OperationView,
    columns: Seq<EncryptedColumnView>,
    row: Map<Seq<char>, RowValueView>,
)
    ensures
        ({
            let after = crypto::operation_after(operation, columns, row);
            &&& after is Insert <==> operation is Insert
            &&& after is Update <==> operation is Update
            &&& after.fields().len() == operation.fields().len()
            &&& forall|i: int|
                0 <= i < operation.fields().len() ==> (#[trigger] after.fields()[i]).0
                    == operation.fields()[i].0
            &&& forall|i: int|
                0 <= i < operation.fields().len() && !crypto::is_encrypted(
                    columns,
                    operation.fields()[i].0,
                ) ==> #[trigger] after.fields()[i] == operation.fields()[i]
        }),
{
}

/// Where the cipher gave a text for every encrypted column of the query, no
/// field of an encrypted column keeps its value.
pub proof fn law_encrypted_fields_are_replaced(
    operation: OperationView,
    columns: Seq<EncryptedColumnView>,
    row: Map<Seq<char>, RowValueView>,
)
    requires
        forall|i: int|
            #![trigger operation.fields()[i]]
            0 <= i < operation.fields().len() && crypto::is_encrypted(
                columns,
                operation.fields()[i].0,
            ) ==> row.dom().contains(operation.fields()[i].0) && row[operation.fields()[i].0]
                is Text,
    ensures
        ({
            let after = crypto::operation_after(operation, columns, row);
            forall|i: int|
                0 <= i < operation.fields().len() && crypto::is_encrypted(
                    columns,
                    operation.fields()[i].0,
                ) ==> (#[trigger] after.fields()[i]).1 == ParamView::Text(
                    row[operation.fields()[i].0]->Text_0,
                )
        }),
{
    let after = crypto::operation_after(operation, columns, row);
    assert forall|i: int|
        0 <= i < operation.fields().len() && crypto::is_encrypted(
            columns,
            operation.fields()[i].0,
        ) implies (#[trigger] after.fields()[i]).1 == ParamView::Text(
        row[operation.fields()[i].0]->Text_0,
    ) by {
        assert(after.fields()[i] == crypto::field_after(operation.fields()[i], columns, row));
    }
}

proof fn lemma_row_has_field(fields: Seq<(Seq<char>, ParamView)>, i: int)
    requires
        0 <= i < fields.len(),
    ensures
        crypto::row_of(fields).dom().contains(fields[i].0),
    decreases fields.len(),
{
    if i < fields.len() - 1 {
        lemma_row_has_field(fields.drop_last(), i);
        assert(fields.drop_last()[i] == fields[i]);
    }
}

proof fn lemma_no_absent_column(
    fields: Seq<(Seq<char>, ParamView)>,
    columns: Seq<EncryptedColumnView>,
    i: int,
)
    requires
        crypto::absent_column(fields, columns) is None,
        0 <= i < columns.len(),
    ensures
        crypto::has_field(fields, columns[i].name),
    decreases columns.len(),
{
    if i > 0 {
        assert(columns.skip(1)[i - 1] == columns[i]);
        lemma_no_absent_column(fields, columns.skip(1), i - 1);
    }
}

proof fn lemma_no_unknown_field(
    fields: Seq<(Seq<char>, ParamView)>,
    columns: Seq<ColumnView>,
    i: int,
)
    requires
        crypto::unknown_field(fields, columns) is None,
        0 <= i < fields.len(),
    ensures
        crypto::has_column(columns, fields[i].0),
    decreases fields.len(),
{
    if i > 0 {
        assert(fields.skip(1)[i - 1] == fields[i]);
        lemma_no_unknown_field(fields.skip(1), columns, i - 1);
    }
}

/// An accepted insert or update writes columns of the table only, and the row
/// that an accepted insert hands to the cipher holds every encrypted column.
pub proof fn law_accepted_rows_are_complete(operation: OperationView, schema: SchemaView)
    requires
        crypto::fields_error(operation, schema) is None,
    ensures
        forall|i: int|
            0 <= i < operation.fields().len() ==> crypto::has_column(
                schema.columns,
                (#[trigger] operation.fields()[i]).0,
            ),
        operation is Insert ==> forall|i: int|
            0 <= i < crypto::encrypted_columns(schema.columns).len() ==> crypto::row_of(
                operation.fields(),
            ).dom().contains((#[trigger] crypto::encrypted_columns(schema.columns)[i]).name),
{
    let fields = operation.fields();
    let columns = crypto::encrypted_columns(schema.columns);
    assert forall|i: int| 0 <= i < fields.len() implies crypto::has_column(
        schema.columns,
        (#[trigger] fields[i]).0,
    ) by {
        lemma_no_unknown_field(fields, schema.columns, i);
    }
    if operation is Insert {
        assert forall|i: int| 0 <= i < columns.len() implies crypto::row_of(fields).dom().contains(
            (#[trigger] columns[i]).name,
        ) by {
            lemma_no_absent_column(fields, columns, i);
            let j = choose|j: int| 0 <= j < fields.len() && (#[trigger] fields[j]).0
                == columns[i].name;
            lemma_row_has_field(fields, j);
        }
    }
}

/// A row with its encrypted columns replaced by what the cipher makes of them.
pub open spec fn encrypted_row(
    row: Map<Seq<char>, RowValueView>,
    columns: Seq<EncryptedColumnView>,
    encrypt: spec_fn(RowValueView) -> Seq<char>,
) -> Map<Seq<char>, RowValueView> {
    Map::new(
        |name: Seq<char>| row.dom().contains(name),
        |name: Seq<char>|
            if crypto::is_encrypted(columns, name) {
                RowValueView::Text(encrypt(row[name]))
            } else {
                row[name]
            },
    )
}

/// A row with its encrypted columns read by the cipher.
pub open spec fn decrypted_row(
    row: Map<Seq<char>, RowValueView>,
    columns: Seq<EncryptedColumnView>,
    decrypt: spec_fn(Seq<char>) -> RowValueView,
) -> Map<Seq<char>, RowValueView> {
    Map::new(
        |name: Seq<char>| row.dom().contains(name),
        |name: Seq<char>|
            if crypto::is_encrypted(columns, name) && row[name] is Text {
                decrypt(row[name]->Text_0)
            } else {
                row[name]
            },
    )
}

proof fn lemma_row_after(
    fields: Seq<(Seq<char>, ParamView)>,
    columns: Seq<EncryptedColumnView>,
    row: Map<Seq<char>, RowValueView>,
)
    requires
        forall|i: int|
            0 <= i < fields.len() && crypto::is_encrypted(columns, (#[trigger] fields[i]).0)
                ==> row.dom().contains(fields[i].0) && row[fields[i].0] is Text,
    ensures
        ({
            let before = crypto::row_of(fields);
            let after = crypto::row_of(crypto::fields_after(fields, columns, row));
            &&& after.dom() == before.dom()
            &&& forall|name: Seq<char>| #[trigger]
                before.dom().contains(name) ==> after[name] == (if crypto::is_encrypted(
                    columns,
                    name,
                ) {
                    row[name]
                } else {
                    before[name]
                })
        }),
    decreases fields.len(),
{
    let all_after = crypto::fields_after(fields, columns, row);
    if fields.len() > 0 {
        let rest = fields.drop_last();
        assert forall|i: int|
            0 <= i < rest.len() && crypto::is_encrypted(columns, (#[trigger] rest[i]).0) implies
            row.dom().contains(rest[i].0) && row[rest[i].0] is Text by {
            assert(rest[i] == fields[i]);
        }
        lemma_row_after(rest, columns, row);
        assert(all_after.drop_last() =~= crypto::fields_after(rest, columns, row));
        assert(all_after.last() == crypto::field_after(fields.last(), columns, row));
        assert(fields.last() == fields[fields.len() - 1]);
        assert(crypto::row_of(all_after).dom() =~= crypto::row_of(fields).dom());
    }
}

/// After encryption a query lays out exactly the row that the cipher returned,
/// where the cipher gave a text for each encrypted column and left the others.
pub proof fn law_query_lays_out_the_encrypted_row(
    operation: OperationView,
    columns: Seq<EncryptedColumnView>,
    row: Map<Seq<char>, RowValueView>,
)
    requires
        row.dom() == crypto::row_of(operation.fields()).dom(),
        forall|name: Seq<char>| #[trigger]
            row.dom().contains(name) ==> if crypto::is_encrypted(columns, name) {
                row[name] is Text
            } else {
                row[name] == crypto::row_of(operation.fields())[name]
            },
    ensures
        crypto::row_of(crypto::operation_after(operation, columns, row).fields()) == row,
{
    let fields = operation.fields();
    assert forall|i: int|
        0 <= i < fields.len() && crypto::is_encrypted(columns, (#[trigger] fields[i]).0) implies
        row.dom().contains(fields[i].0) && row[fields[i].0] is Text by {
        lemma_row_has_field(fields, i);
    }
    lemma_row_after(fields, columns, row);
    let after = crypto::operation_after(operation, columns, row);
    assert(after.fields() =~= crypto::fields_after(fields, columns, row));
    assert(crypto::row_of(after.fields()) =~= row);
}

/// What is written can be read back: with any cipher that reads what it wrote,
/// decrypting the row that an encrypted query lays out gives the row that was
/// handed to the cipher.
pub proof fn law_encrypted_rows_read_back(
    operation: OperationView,
    columns: Seq<EncryptedColumnView>,
    encrypt: spec_fn(RowValueView) -> Seq<char>,
    decrypt: spec_fn(Seq<char>) -> RowValueView,
)
    requires
        forall|value: RowValueView| decrypt(#[trigger] encrypt(value)) == value,
    ensures
        ({
            let row = crypto::row_of(operation.fields());
            let stored = crypto::operation_after(
                operation,
                columns,
                encrypted_row(row, columns, encrypt),
            );
            decrypted_row(crypto::row_of(stored.fields()), columns, decrypt) == row
        }),
{
    let row = crypto::row_of(operation.fields());
    let cipher_row = encrypted_row(row, columns, encrypt);
    assert(cipher_row.dom() =~= row.dom());
    law_query_lays_out_the_encrypted_row(operation, columns, cipher_row);
    assert(decrypted_row(cipher_row, columns, decrypt) =~= row);
}

/// The row that an outcome leaves in the result.
pub open spec fn row_in<T>(outcome: RowOutcome<T>) -> Option<T> {
    match outcome {
        RowOutcome::Decrypted(row) => Some(row),
        RowOutcome::Untouched(row) => Some(row),
        RowOutcome::Failed => None,
    }
}

/// Each row of a result is kept or dropped on its own, and those kept stay in
/// order.
pub proof fn law_rows_are_kept_in_order<T>(a: Seq<RowOutcome<T>>, b: Seq<RowOutcome<T>>)
    ensures
        crypto::kept_rows(a + b) == crypto::kept_rows(a) + crypto::kept_rows(b),
    decreases b.len(),
{
    if b.len() == 0 {
        assert(a + b =~= a);
        assert(crypto::kept_rows(a) + crypto::kept_rows(b) =~= crypto::kept_rows(a));
    } else {
        assert((a + b).drop_last() =~= a + b.drop_last());
        law_rows_are_kept_in_order(a, b.drop_last());
        assert(crypto::kept_rows(a + b) =~= crypto::kept_rows(a) + crypto::kept_rows(b));
    }
}

/// Where no row failed, the result keeps every row in its place; where every
/// row failed, it is empty.
pub proof fn law_only_failed_rows_are_dropped<T>(outcomes: Seq<RowOutcome<T>>)
    ensures
        (forall|i: int| 0 <= i < outcomes.len() ==> !((#[trigger] outcomes[i]) is Failed)) ==> {
            &&& crypto::kept_rows(outcomes).len() == outcomes.len()
            &&& forall|i: int|
                0 <= i < outcomes.len() ==> row_in(outcomes[i]) == Some(
                    #[trigger] crypto::kept_rows(outcomes)[i],
                )
        },
        (forall|i: int| 0 <= i < outcomes.len() ==> (#[trigger] outcomes[i]) is Failed)
            ==> crypto::kept_rows(outcomes).len() == 0,
    decreases outcomes.len(),
{
    if outcomes.len() > 0 {
        let rest = outcomes.drop_last();
        law_only_failed_rows_are_dropped(rest);
        assert forall|i: int| 0 <= i < rest.len() implies #[trigger] rest[i] == outcomes[i] by {}
        let last = outcomes[outcomes.len() - 1];
        assert(outcomes.last() == last);
        if forall|i: int| 0 <= i < outcomes.len() ==> !((#[trigger] outcomes[i]) is Failed) {
            assert forall|i: int| 0 <= i < rest.len() implies !((
            #[trigger] rest[i]) is Failed) by {
                assert(!(outcomes[i] is Failed));
            }
        }
        if forall|i: int| 0 <= i < outcomes.len() ==> (#[trigger] outcomes[i]) is Failed {
            assert forall|i: int| 0 <= i < rest.len() implies (#[trigger] rest[i]) is Failed by {
                assert(outcomes[i] is Failed);
            }
        }
    }
}

/// Whether a field gives an integer for the channel id.
pub open spec fn gives_channel(field: (Seq<char>, ParamView)) -> bool {
    field.0 == CHANNEL_ID_COLUMN@ && field.1 is Integer
}

/// The routed channel is the integer of the first field that gives one for the
/// channel id, wherever it stands among the others; without such a field there
/// is none.
pub proof fn law_channel_is_the_first_given(fields: Seq<(Seq<char>, ParamView)>)
    ensures
        match crypto::channel_field(fields) {
            Some(channel) => exists|i: int|
                {
                    &&& 0 <= i < fields.len()
                    &&& #[trigger] fields[i] == (CHANNEL_ID_COLUMN@, ParamView::Integer(channel))
                    &&& forall|j: int| 0 <= j < i ==> !gives_channel(#[trigger] fields[j])
                },
            None => forall|j: int| 0 <= j < fields.len() ==> !gives_channel(#[trigger] fields[j]),
        },
    decreases fields.len(),
{
    if fields.len() > 0 {
        let rest = fields.skip(1);
        law_channel_is_the_first_given(rest);
        if gives_channel(fields[0]) {
            assert(fields[0] == (CHANNEL_ID_COLUMN@, fields[0].1));
        } else {
            match crypto::channel_field(rest) {
                Some(channel) => {
                    let i = choose|i: int|
                        {
                            &&& 0 <= i < rest.len()
                            &&& #[trigger] rest[i] == (
                                CHANNEL_ID_COLUMN@,
                                ParamView::Integer(channel),
                            )
                            &&& forall|j: int| 0 <= j < i ==> !gives_channel(#[trigger] rest[j])
                        };
                    assert(fields[i + 1] == rest[i]);
                    assert forall|j: int| 0 <= j < i + 1 implies !gives_channel(
                        #[trigger] fields[j],
                    ) by {
                        if j > 0 {
                            assert(fields[j] == rest[j - 1]);
                        }
                    }
                },
                None => {
                    assert forall|j: int| 0 <= j < fields.len() implies !gives_channel(
                        #[trigger] fields[j],
                    ) by {
                        if j > 0 {
                            assert(fields[j] == rest[j - 1]);
                        }
                    }
                },
            }
        }
    }
}

/// Whether some column of a table is encrypted.
pub open spec fn has_encrypted_column(schema: SchemaView) -> bool {
    exists|i: int| 0 <= i < schema.columns.len() && !(#[trigger] schema.columns[i]).plaintext
}

/// Whether rows of a table are routed by a channel id that is stored as it is.
pub open spec fn is_routed(schema: SchemaView) -> bool {
    exists|i: int|
        {
            &&& 0 <= i < schema.columns.len()
            &&& (#[trigger] schema.columns[i]).name == CHANNEL_ID_COLUMN@
            &&& schema.columns[i].plaintext
        }
}

/// The encrypted columns of a table are those that are not plaintext, in the
/// table's order, each under its own name and by its own type.
pub proof fn law_encrypted_columns_are_those_not_plaintext(columns: Seq<ColumnView>)
    ensures
        ({
            let kept = columns.filter(|column: ColumnView| !column.plaintext);
            let encrypted = crypto::encrypted_columns(columns);
            &&& encrypted.len() == kept.len()
            &&& forall|i: int|
                0 <= i < kept.len() ==> {
                    &&& (#[trigger] encrypted[i]).name == kept[i].name
                    &&& match kept[i].column_type {
                        ColumnType::Integer => encrypted[i].field_type == FieldType::Integer,
                        ColumnType::Real => encrypted[i].field_type == FieldType::Real,
                        ColumnType::String => encrypted[i].field_type == FieldType::Text,
                        ColumnType::Text => encrypted[i].field_type == FieldType::Text,
                        ColumnType::Blob => encrypted[i].field_type == FieldType::Blob,
                        ColumnType::FileRef => encrypted[i].field_type == FieldType::FileRef,
                        ColumnType::List => encrypted[i].field_type == FieldType::List,
                    }
                }
        }),
    decreases columns.len(),
{
    reveal(Seq::filter);
    if columns.len() > 0 {
        law_encrypted_columns_are_those_not_plaintext(columns.drop_last());
    }
}

/// Whether some column of this name is not stored as it is.
pub open spec fn is_secret(columns: Seq<ColumnView>, name: Seq<char>) -> bool {
    exists|i: int|
        0 <= i < columns.len() && (#[trigger] columns[i]).name == name && !columns[i].plaintext
}

proof fn lemma_encrypted_names(columns: Seq<ColumnView>)
    ensures
        crypto::encrypted_columns(columns).len() == 0 <==> forall|i: int|
            0 <= i < columns.len() ==> (#[trigger] columns[i]).plaintext,
        forall|name: Seq<char>| #[trigger]
            crypto::is_encrypted(crypto::encrypted_columns(columns), name) <==> is_secret(
                columns,
                name,
            ),
    decreases columns.len(),
{
    let encrypted = crypto::encrypted_columns(columns);
    if columns.len() > 0 {
        let rest = columns.drop_last();
        let before = crypto::encrypted_columns(rest);
        let last = columns.len() - 1;
        lemma_encrypted_names(rest);
        assert(columns[last] == columns.last());
        assert forall|i: int| 0 <= i < rest.len() implies #[trigger] rest[i] == columns[i] by {}
        if encrypted.len() == 0 {
            assert forall|i: int| 0 <= i < columns.len() implies (
            #[trigger] columns[i]).plaintext by {
                if i < last {
                    assert(rest[i].plaintext);
                }
            }
        }
        assert forall|name: Seq<char>| #[trigger] crypto::is_encrypted(encrypted, name)
            <==> is_secret(columns, name) by {
            if crypto::is_encrypted(encrypted, name) {
                let k = choose|k: int|
                    0 <= k < encrypted.len() && (#[trigger] encrypted[k]).name == name;
                if k < before.len() {
                    assert(before[k].name == name);
                    assert(crypto::is_encrypted(before, name));
                    let i = choose|i: int|
                        0 <= i < rest.len() && (#[trigger] rest[i]).name == name
                            && !rest[i].plaintext;
                    assert(columns[i].name == name && !columns[i].plaintext);
                } else {
                    assert(columns[last].name == name && !columns[last].plaintext);
                }
            }
            if is_secret(columns, name) {
                let i = choose|i: int|
                    0 <= i < columns.len() && (#[trigger] columns[i]).name == name
                        && !columns[i].plaintext;
                if i < last {
                    assert(rest[i].name == name && !rest[i].plaintext);
                    assert(crypto::is_encrypted(before, name));
                    let k = choose|k: int|
                        0 <= k < before.len() && (#[trigger] before[k]).name == name;
                    assert(encrypted[k].name == name);
                } else {
                    assert(encrypted[before.len() as int].name == name);
                }
            }
        }
    }
}

/// A query is sent as it is exactly where its table is not known or has
/// plaintext columns only, or where it writes nothing.
pub proof fn law_only_writes_of_secrets_are_encrypted(
    operation: OperationView,
    schema: Option<SchemaView>,
)
    ensures
        crypto::encryption_plan(operation, schema) != EncryptionPlan::Unchanged <==> {
            &&& schema is Some
            &&& has_encrypted_column(schema->Some_0)
            &&& operation is Insert || operation is Update
        },
{
    if let Some(schema) = schema {
        lemma_encrypted_names(schema.columns);
    }
}

/// A row that gives one channel id, an integer, for a table that is routed by
/// it, is encrypted under that channel, wherever the field stands.
pub proof fn law_given_channel_is_the_route(
    operation: OperationView,
    schema: SchemaView,
    fields: Seq<(Seq<char>, ParamView)>,
    at: int,
    channel: i64,
)
    requires
        operation == OperationView::Insert(fields) || operation == OperationView::Update(fields),
        has_encrypted_column(schema),
        is_routed(schema),
        0 <= at < fields.len(),
        fields[at] == (CHANNEL_ID_COLUMN@, ParamView::Integer(channel)),
        forall|j: int|
            0 <= j < fields.len() && j != at ==> (#[trigger] fields[j]).0 != CHANNEL_ID_COLUMN@,
    ensures
        crypto::encryption_plan(operation, Some(schema)) == EncryptionPlan::Encrypt(
            KeyRoute::Channel(channel),
        ),
{
    lemma_encrypted_names(schema.columns);
    law_channel_is_the_first_given(fields);
    assert(gives_channel(fields[at]));
}

/// Where several fields give a channel id, the first integer counts.
pub proof fn law_first_given_channel_is_the_route(
    operation: OperationView,
    schema: SchemaView,
    fields: Seq<(Seq<char>, ParamView)>,
    at: int,
    channel: i64,
)
    requires
        operation == OperationView::Insert(fields) || operation == OperationView::Update(fields),
        has_encrypted_column(schema),
        is_routed(schema),
        0 <= at < fields.len(),
        fields[at] == (CHANNEL_ID_COLUMN@, ParamView::Integer(channel)),
        forall|j: int|
            0 <= j < at ==> (#[trigger] fields[j]).0 != CHANNEL_ID_COLUMN@ || !(fields[j].1
                is Integer),
    ensures
        crypto::encryption_plan(operation, Some(schema)) == EncryptionPlan::Encrypt(
            KeyRoute::Channel(channel),
        ),
{
    lemma_encrypted_names(schema.columns);
    law_channel_is_the_first_given(fields);
    assert(gives_channel(fields[at]));
}

/// A row that gives no integer for the channel id, or whose table is not routed
/// by it, is encrypted on the root line.
pub proof fn law_rows_without_channel_use_the_root_line(
    operation: OperationView,
    schema: SchemaView,
    fields: Seq<(Seq<char>, ParamView)>,
)
    requires
        operation == OperationView::Insert(fields) || operation == OperationView::Update(fields),
        has_encrypted_column(schema),
        !is_routed(schema) || forall|j: int|
            0 <= j < fields.len() ==> (#[trigger] fields[j]).0 != CHANNEL_ID_COLUMN@ || !(
            fields[j].1 is Integer),
    ensures
        crypto::encryption_plan(operation, Some(schema)) == EncryptionPlan::Encrypt(
            KeyRoute::Root,
        ),
{
    lemma_encrypted_names(schema.columns);
    law_channel_is_the_first_given(fields);
}

/// Whether the alias keyword stands at `i`.
pub open spec fn has_alias_at(name: Seq<char>, i: int) -> bool {
    0 <= i && i + 4 <= name.len() && name.subrange(i, i + 4) == " as "@
}

proof fn lemma_alias_at(name: Seq<char>, i: int)
    ensures
        crypto::alias_at(name, i) == has_alias_at(name, i),
{
    reveal_strlit(" as ");
    if 0 <= i && i + 4 <= name.len() {
        let part = name.subrange(i, i + 4);
        if crypto::alias_at(name, i) {
            assert(part =~= " as "@);
        }
        if part == " as "@ {
            assert(name[i] == part[0]);
            assert(name[i + 1] == part[1]);
            assert(name[i + 2] == part[2]);
            assert(name[i + 3] == part[3]);
        }
    }
}

proof fn lemma_alias_position(name: Seq<char>, from: int)
    requires
        0 <= from <= name.len(),
    ensures
        ({
            let at = crypto::alias_position(name, from);
            &&& from <= at <= name.len()
            &&& at < name.len() ==> has_alias_at(name, at)
            &&& forall|i: int| from <= i < at ==> !#[trigger] has_alias_at(name, i)
        }),
    decreases name.len() - from,
{
    lemma_alias_at(name, from);
    if from < name.len() && !crypto::alias_at(name, from) {
        lemma_alias_position(name, from + 1);
    }
}

/// A table's name is cut where the alias keyword first stands, and nowhere else:
/// what is left is the beginning of the name, holds no alias keyword, and is
/// followed by one or by nothing.
pub proof fn law_alias_is_cut_off(name: Seq<char>)
    ensures
        ({
            let base = crypto::base_table(name);
            &&& base.len() <= name.len()
            &&& base == name.subrange(0, base.len() as int)
            &&& base.len() < name.len() ==> has_alias_at(name, base.len() as int)
            &&& forall|i: int| 0 <= i < base.len() ==> !#[trigger] has_alias_at(name, i)
        }),
{
    lemma_alias_position(name, 0);
    let at = crypto::alias_position(name, 0);
    assert(name.take(at) =~= name.subrange(0, at));
}

/// Rows are left as they are exactly where the table is not known or has
/// plaintext columns only. Otherwise the columns to decrypt are those that are
/// not plaintext, in order, each by its own type. A table is found by its name
/// without alias.
pub proof fn law_every_secret_column_is_decrypted(
    table_name: Seq<char>,
    schemas: Map<Seq<char>, SchemaView>,
)
    ensures
        ({
            let table = crypto::base_table(table_name);
            let plan = crypto::columns_to_decrypt(table_name, schemas);
            &&& plan is Some <==> schemas.dom().contains(table) && has_encrypted_column(
                schemas[table],
            )
            &&& plan is Some ==> {
                let kept = schemas[table].columns.filter(|column: ColumnView| !column.plaintext);
                &&& plan->Some_0.len() == kept.len()
                &&& forall|i: int|
                    0 <= i < kept.len() ==> {
                        &&& (#[trigger] plan->Some_0[i]).name == kept[i].name
                        &&& plan->Some_0[i].field_type == crypto::field_type_of(
                            kept[i].column_type,
                        )
                    }
            }
        }),
{
    let table = crypto::base_table(table_name);
    if schemas.dom().contains(table) {
        lemma_encrypted_names(schemas[table].columns);
        law_encrypted_columns_are_those_not_plaintext(schemas[table].columns);
    }
}

/// What encryption replaces, decryption reads: for a known table, named without
/// alias, rows are decrypted exactly where its inserts are encrypted, and a
/// field is replaced by the cipher's text exactly where its column is one of
/// those to decrypt.
pub proof fn law_decryption_covers_encryption(
    table: Seq<char>,
    schemas: Map<Seq<char>, SchemaView>,
    fields: Seq<(Seq<char>, ParamView)>,
    row: Map<Seq<char>, RowValueView>,
)
    requires
        schemas.dom().contains(table),
        forall|i: int| !#[trigger] has_alias_at(table, i),
    ensures
        ({
            let schema = schemas[table];
            let operation = OperationView::Insert(fields);
            let plan = crypto::columns_to_decrypt(table, schemas);
            let after = crypto::operation_after(
                operation,
                crypto::encrypted_columns(schema.columns),
                row,
            );
            &&& plan is Some <==> crypto::encryption_plan(operation, Some(schema))
                != EncryptionPlan::Unchanged
            &&& plan is None <==> forall|i: int|
                0 <= i < schema.columns.len() ==> (#[trigger] schema.columns[i]).plaintext
            &&& after is Insert
            &&& after->Insert_0.len() == fields.len()
            &&& forall|i: int|
                0 <= i < fields.len() && row.dom().contains(fields[i].0) && row[fields[i].0]
                    is Text ==> #[trigger] after->Insert_0[i] == (if plan is Some && exists|k: int|
                    0 <= k < plan->Some_0.len() && (#[trigger] plan->Some_0[k]).name
                        == fields[i].0 {
                    (fields[i].0, ParamView::Text(row[fields[i].0]->Text_0))
                } else {
                    fields[i]
                })
        }),
{
    let schema = schemas[table];
    law_alias_is_cut_off(table);
    assert(crypto::base_table(table) =~= table);
    law_every_secret_column_is_decrypted(table, schemas);
    law_only_writes_of_secrets_are_encrypted(OperationView::Insert(fields), Some(schema));
    lemma_encrypted_names(schema.columns);
}

/// Writing an encrypted row back replaces the values of the encrypted columns by
/// the row's texts and nothing else: neither names, nor order, nor the values
/// of plaintext columns, nor anything where the row holds no text.
pub proof fn law_write_back_replaces_secrets_only(
    operation: OperationView,
    schema: SchemaView,
    row: Map<Seq<char>, RowValueView>,
)
    ensures
        ({
            let after = crypto::operation_after(
                operation,
                crypto::encrypted_columns(schema.columns),
                row,
            );
            match (operation, after) {
                (OperationView::Insert(a), OperationView::Insert(b)) => replaces_secrets(
                    schema,
                    row,
                    a,
                    b,
                ),
                (OperationView::Update(a), OperationView::Update(b)) => replaces_secrets(
                    schema,
                    row,
                    a,
                    b,
                ),
                _ => (operation is Select || operation is Delete) && after == operation,
            }
        }),
{
    lemma_encrypted_names(schema.columns);
}

/// Whether `after` are the fields `before` with exactly the values of encrypted
/// columns replaced for which the row holds a text.
pub open spec fn replaces_secrets(
    schema: SchemaView,
    row: Map<Seq<char>, RowValueView>,
    before: Seq<(Seq<char>, ParamView)>,
    after: Seq<(Seq<char>, ParamView)>,
) -> bool {
    &&& after.len() == before.len()
    &&& forall|i: int|
        0 <= i < before.len() ==> {
            let secret = is_secret(schema.columns, before[i].0);
            &&& (#[trigger] after[i]).0 == before[i].0
            &&& after[i].1 == (if secret && row.dom().contains(before[i].0)
                && row[before[i].0] is Text {
                ParamView::Text(row[before[i].0]->Text_0)
            } else {
                before[i].1
            })
        }
}

/// A row holds a value for each name among the fields and for no other; of
/// several fields of one name it holds the last one's.
pub proof fn law_row_holds_the_last_of_each_name(fields: Seq<(Seq<char>, ParamView)>)
    ensures
        forall|name: Seq<char>| #[trigger]
            crypto::row_of(fields).dom().contains(name) <==> exists|i: int|
                0 <= i < fields.len() && (#[trigger] fields[i]).0 == name,
        forall|i: int|
            0 <= i < fields.len() && (forall|j: int|
                i < j < fields.len() ==> (#[trigger] fields[j]).0 != fields[i].0)
                ==> crypto::row_of(fields)[(#[trigger] fields[i]).0] == crypto::value_of(
                fields[i].1,
            ),
    decreases fields.len(),
{
    if fields.len() > 0 {
        let rest = fields.drop_last();
        let last = fields.len() - 1;
        law_row_holds_the_last_of_each_name(rest);
        assert(fields[last] == fields.last());
        assert forall|i: int| 0 <= i < rest.len() implies #[trigger] rest[i] == fields[i] by {}
        assert forall|name: Seq<char>| #[trigger]
            crypto::row_of(fields).dom().contains(name) <==> exists|i: int|
                0 <= i < fields.len() && (#[trigger] fields[i]).0 == name by {
            if crypto::row_of(rest).dom().contains(name) {
                let i = choose|i: int| 0 <= i < rest.len() && (#[trigger] rest[i]).0 == name;
                assert(fields[i].0 == name);
            }
            if exists|i: int| 0 <= i < fields.len() && (#[trigger] fields[i]).0 == name {
                let i = choose|i: int| 0 <= i < fields.len() && (#[trigger] fields[i]).0 == name;
                if i < last {
                    assert(rest[i].0 == name);
                }
            }
        }
        assert forall|i: int|
            0 <= i < fields.len() && (forall|j: int|
                i < j < fields.len() ==> (#[trigger] fields[j]).0 != fields[i].0) implies
            crypto::row_of(fields)[(#[trigger] fields[i]).0] == crypto::value_of(fields[i].1) by {
            if i < last {
                assert(fields[last].0 != fields[i].0);
                assert forall|j: int| i < j < rest.len() implies (#[trigger] rest[j]).0
                    != rest[i].0 by {
                    assert(fields[j].0 != fields[i].0);
                }
                assert(rest[i] == fields[i]);
            }
        }
    }
}

/// Values pass into a row as they are, but for blobs, which become their base64
/// text, and for numbers that are not finite, which become null: those whose
/// eleven exponent bits are all set.
pub proof fn law_values_pass_into_the_row(param: ParamView)
    ensures
        match param {
            ParamView::Null => crypto::value_of(param) == RowValueView::Null,
            ParamView::Integer(n) => crypto::value_of(param) == RowValueView::Integer(n),
            ParamView::Text(s) => crypto::value_of(param) == RowValueView::Text(s),
            ParamView::Boolean(b) => crypto::value_of(param) == RowValueView::Boolean(b),
            ParamView::Blob(b) => crypto::value_of(param) == RowValueView::Text(
                encoding::base64_text(b),
            ),
            ParamView::Real(bits) => if (bits >> 52) & 0x7ff == 0x7ff {
                crypto::value_of(param) == RowValueView::Null
            } else {
                crypto::value_of(param) == RowValueView::Real(bits)
            },
        },
{
    if let ParamView::Real(bits) = param {
        assert((bits / 0x10_0000_0000_0000) % 2048 == (bits >> 52) & 0x7ff) by (bit_vector);
    }
}

/// A text with the names of a field and a table in their places.
pub open spec fn field_not_found(name: Seq<char>, table: Seq<char>) -> Seq<char> {
    "Query field '"@ + name + "' not found in schema for table '"@ + table + "'"@
}

/// A text with the names of a column and a table in their places.
pub open spec fn column_not_given(name: Seq<char>, table: Seq<char>) -> Seq<char> {
    "Encrypted column '"@ + name + "' missing from query for table '"@ + table + "'"@
}

/// Whether a table has a column of this name.
pub open spec fn names_column(schema: SchemaView, name: Seq<char>) -> bool {
    exists|k: int| 0 <= k < schema.columns.len() && (#[trigger] schema.columns[k]).name == name
}

proof fn lemma_unknown_field(fields: Seq<(Seq<char>, ParamView)>, schema: SchemaView)
    ensures
        match crypto::unknown_field(fields, schema.columns) {
            Some(name) => exists|i: int|
                {
                    &&& 0 <= i < fields.len()
                    &&& (#[trigger] fields[i]).0 == name
                    &&& !names_column(schema, name)
                    &&& forall|j: int|
                        0 <= j < i ==> names_column(schema, (#[trigger] fields[j]).0)
                },
            None => forall|j: int|
                0 <= j < fields.len() ==> names_column(schema, (#[trigger] fields[j]).0),
        },
    decreases fields.len(),
{
    if fields.len() > 0 {
        let rest = fields.skip(1);
        lemma_unknown_field(rest, schema);
        if !crypto::has_column(schema.columns, fields[0].0) {
            assert(!names_column(schema, fields[0].0));
        } else {
            assert(names_column(schema, fields[0].0));
            match crypto::unknown_field(rest, schema.columns) {
                Some(name) => {
                    let i = choose|i: int|
                        {
                            &&& 0 <= i < rest.len()
                            &&& (#[trigger] rest[i]).0 == name
                            &&& !names_column(schema, name)
                            &&& forall|j: int|
                                0 <= j < i ==> names_column(schema, (#[trigger] rest[j]).0)
                        };
                    assert(fields[i + 1] == rest[i]);
                    assert forall|j: int| 0 <= j < i + 1 implies names_column(
                        schema,
                        (#[trigger] fields[j]).0,
                    ) by {
                        if j > 0 {
                            assert(fields[j] == rest[j - 1]);
                        }
                    }
                },
                None => {
                    assert forall|j: int| 0 <= j < fields.len() implies names_column(
                        schema,
                        (#[trigger] fields[j]).0,
                    ) by {
                        if j > 0 {
                            assert(fields[j] == rest[j - 1]);
                        }
                    }
                },
            }
        }
    }
}

/// Whether some field has this name.
pub open spec fn gives(fields: Seq<(Seq<char>, ParamView)>, name: Seq<char>) -> bool {
    exists|j: int| 0 <= j < fields.len() && (#[trigger] fields[j]).0 == name
}

proof fn lemma_absent_column(
    fields: Seq<(Seq<char>, ParamView)>,
    columns: Seq<EncryptedColumnView>,
)
    ensures
        match crypto::absent_column(fields, columns) {
            Some(name) => exists|i: int|
                {
                    &&& 0 <= i < columns.len()
                    &&& (#[trigger] columns[i]).name == name
                    &&& !gives(fields, name)
                    &&& forall|j: int| 0 <= j < i ==> gives(fields, (#[trigger] columns[j]).name)
                },
            None => forall|j: int|
                0 <= j < columns.len() ==> gives(fields, (#[trigger] columns[j]).name),
        },
    decreases columns.len(),
{
    if columns.len() > 0 {
        let rest = columns.skip(1);
        lemma_absent_column(fields, rest);
        if !crypto::has_field(fields, columns[0].name) {
            assert(!gives(fields, columns[0].name));
        } else {
            assert(gives(fields, columns[0].name));
            match crypto::absent_column(fields, rest) {
                Some(name) => {
                    let i = choose|i: int|
                        {
                            &&& 0 <= i < rest.len()
                            &&& (#[trigger] rest[i]).name == name
                            &&& !gives(fields, name)
                            &&& forall|j: int|
                                0 <= j < i ==> gives(fields, (#[trigger] rest[j]).name)
                        };
                    assert(columns[i + 1] == rest[i]);
                    assert forall|j: int| 0 <= j < i + 1 implies gives(
                        fields,
                        (#[trigger] columns[j]).name,
                    ) by {
                        if j > 0 {
                            assert(columns[j] == rest[j - 1]);
                        }
                    }
                },
                None => {
                    assert forall|j: int| 0 <= j < columns.len() implies gives(
                        fields,
                        (#[trigger] columns[j]).name,
                    ) by {
                        if j > 0 {
                            assert(columns[j] == rest[j - 1]);
                        }
                    }
                },
            }
        }
    }
}

/// A write is refused exactly where it gives a field that is no column of the
/// table, or where it inserts and leaves out an encrypted column. The refusal
/// names the first such field, or else the first such column.
pub proof fn law_fields_are_refused_for_a_reason(operation: OperationView, schema: SchemaView)
    ensures
        ({
            let fields = operation.fields();
            let refused = crypto::fields_error(operation, schema);
            let encrypted = schema.columns.filter(|column: ColumnView| !column.plaintext);
            let known = forall|j: int|
                0 <= j < fields.len() ==> names_column(schema, (#[trigger] fields[j]).0);
            &&& refused is None <==> known && (operation is Insert ==> forall|k: int|
                0 <= k < schema.columns.len() && !schema.columns[k].plaintext ==> gives(
                    fields,
                    (#[trigger] schema.columns[k]).name,
                ))
            &&& !known ==> exists|i: int|
                {
                    &&& 0 <= i < fields.len()
                    &&& refused == Some(
                        SdkErrorView::InvalidQuery(
                            field_not_found((#[trigger] fields[i]).0, schema.name),
                        ),
                    )
                    &&& !names_column(schema, fields[i].0)
                    &&& forall|j: int|
                        0 <= j < i ==> names_column(schema, (#[trigger] fields[j]).0)
                }
            &&& known && refused is Some ==> exists|i: int|
                {
                    &&& 0 <= i < encrypted.len()
                    &&& refused == Some(
                        SdkErrorView::InvalidQuery(
                            column_not_given((#[trigger] encrypted[i]).name, schema.name),
                        ),
                    )
                    &&& !gives(fields, encrypted[i].name)
                    &&& forall|j: int| 0 <= j < i ==> gives(fields, (#[trigger] encrypted[j]).name)
                }
        }),
{
    let fields = operation.fields();
    let columns = crypto::encrypted_columns(schema.columns);
    let encrypted = schema.columns.filter(|column: ColumnView| !column.plaintext);
    lemma_unknown_field(fields, schema);
    lemma_absent_column(fields, columns);
    lemma_encrypted_names(schema.columns);
    law_encrypted_columns_are_those_not_plaintext(schema.columns);
    if crypto::unknown_field(fields, schema.columns) is None && operation is Insert {
        match crypto::absent_column(fields, columns) {
            Some(name) => {
                let i = choose|i: int|
                    {
                        &&& 0 <= i < columns.len()
                        &&& (#[trigger] columns[i]).name == name
                        &&& !gives(fields, name)
                        &&& forall|j: int|
                            0 <= j < i ==> gives(fields, (#[trigger] columns[j]).name)
                    };
                assert(encrypted[i].name == name);
                assert forall|j: int| 0 <= j < i implies gives(
                    fields,
                    (#[trigger] encrypted[j]).name,
                ) by {
                    assert(gives(fields, columns[j].name));
                }
                assert(crypto::is_encrypted(columns, name));
                let k = choose|k: int|
                    0 <= k < schema.columns.len() && (#[trigger] schema.columns[k]).name == name
                        && !schema.columns[k].plaintext;
                assert(!gives(fields, schema.columns[k].name));
            },
            None => {
                assert forall|k: int|
                    0 <= k < schema.columns.len() && !schema.columns[k].plaintext implies gives(
                    fields,
                    (#[trigger] schema.columns[k]).name,
                ) by {
                    let name = schema.columns[k].name;
                    assert(is_secret(schema.columns, name));
                    assert(crypto::is_encrypted(columns, name));
                    let m = choose|m: int|
                        0 <= m < columns.len() && (#[trigger] columns[m]).name == name;
                    assert(gives(fields, columns[m].name));
                }
            },
        }
    }
}

/// A result keeps its rows but for those that failed, in order.
pub proof fn law_kept_rows_are_those_not_failed<T>(outcomes: Seq<RowOutcome<T>>)
    ensures
        crypto::kept_rows(outcomes) == outcomes.filter(
            |outcome: RowOutcome<T>| !(outcome is Failed),
        ).map_values(
            |outcome: RowOutcome<T>|
                match outcome {
                    RowOutcome::Decrypted(row) => row,
                    RowOutcome::Untouched(row) => row,
                    RowOutcome::Failed => arbitrary(),
                },
        ),
    decreases outcomes.len(),
{
    reveal(Seq::filter);
    let pred = |outcome: RowOutcome<T>| !(outcome is Failed);
    let row = |outcome: RowOutcome<T>|
        match outcome {
            RowOutcome::Decrypted(row) => row,
            RowOutcome::Untouched(row) => row,
            RowOutcome::Failed => arbitrary(),
        };
    if outcomes.len() > 0 {
        law_kept_rows_are_those_not_failed(outcomes.drop_last());
        let kept = outcomes.drop_last().filter(pred);
        if !(outcomes.last() is Failed) {
            assert(outcomes.filter(pred) == kept.push(outcomes.last()));
            assert(kept.push(outcomes.last()).map_values(row) =~= kept.map_values(row).push(
                row(outcomes.last()),
            ));
        }
    } else {
        assert(outcomes.filter(pred).map_values(row) =~= crypto::kept_rows(outcomes));
    }
}

/// A new row is stamped with the line that it is routed to and with that line's
/// current sequence number; without one there is no key id, and the refusal
/// says which line it was.
pub proof fn law_new_rows_are_stamped_with_their_line(route: KeyRoute, seq: Option<u64>)
    ensures
        match crypto::stamped_key_id(route, seq) {
            Ok(id) => {
                &&& seq == Some(id.seq)
                &&& route is Root ==> id.channel == i64::MIN
                &&& route is Channel ==> route == KeyRoute::Channel(id.channel)
            },
            Err(e) => {
                &&& seq is None
                &&& e is DecryptionError
                &&& route is Root ==> e->DecryptionError_0 == "current key id failed"@
                &&& route is Channel ==> e->DecryptionError_0 == "current channel epoch failed"@
            },
        },
{
}

/// A query's row belongs to a channel exactly where its table is routed by the
/// channel id and the query gives an integer for it, and then to the first one
/// given; queries that write nothing belong to none.
pub proof fn law_row_belongs_to_the_channel_given(
    operation: OperationView,
    schema: SchemaView,
    fields: Seq<(Seq<char>, ParamView)>,
)
    requires
        operation == OperationView::Insert(fields) || operation == OperationView::Update(fields)
            || (!(operation is Insert) && !(operation is Update) && fields.len() == 0),
    ensures
        match crypto::channel_of(operation, schema.columns) {
            Some(channel) => is_routed(schema) && exists|i: int|
                {
                    &&& 0 <= i < fields.len()
                    &&& #[trigger] fields[i] == (CHANNEL_ID_COLUMN@, ParamView::Integer(channel))
                    &&& forall|j: int| 0 <= j < i ==> !gives_channel(#[trigger] fields[j])
                },
            None => !is_routed(schema) || forall|j: int|
                0 <= j < fields.len() ==> !gives_channel(#[trigger] fields[j]),
        },
{
    assert(operation.fields() =~= fields);
    law_channel_is_the_first_given(fields);
    assert(crypto::has_channel_column(schema.columns) == is_routed(schema));
}

} // verus!
