//! Which fields of a query are encrypted, under which key, and which rows of a
//! result survive decryption.
//!
//! The cipher itself and the resolution of keys are outside. Encryption of a
//! query goes in steps: decide whether anything is to be encrypted and on which
//! line the key lies, check the fields and lay them out as a row, and write the
//! encrypted row back into the query.

use crate::encoding;
use crate::encoding::base64_encode;
use crate::query;
use crate::query::{
    ColumnType, ColumnView, OperationView, ParamView, Query, QueryOperation, QueryParam,
    RowValue, RowValueView, Schema, SchemaView, SdkError, SdkErrorView,
};
use crate::text::{chars_of, text_eq};
use crate::text_map::TextMap;
use crate::tree_keys::{TreeKeyId, ROOT_CHANNEL};
use vstd::prelude::*;
use vstd::string::*;

verus! {

/// How the cipher reads and writes a column's values.
#[derive(Clone, Copy, Debug, PartialEq, Eq, Structural)]
pub enum FieldType {
    Integer,
    Real,
    Text,
    Blob,
    FileRef,
    List,
}

/// A column whose values are encrypted.
#[derive(Debug, PartialEq, Eq)]
pub struct EncryptedColumn {
    pub name: String,
    pub field_type: FieldType,
}

#[verifier::ext_equal]
pub struct EncryptedColumnView {
    pub name: Seq<char>,
    pub field_type: FieldType,
}

impl View for EncryptedColumn {
    type V = EncryptedColumnView;

    open spec fn view(&self) -> EncryptedColumnView {
        EncryptedColumnView { name: self.name@, field_type: self.field_type }
    }
}

/// The name of the column that routes a row to its channel.
pub const CHANNEL_ID_COLUMN: &'static str = "channel_id";

/// How values of a declared column type are encrypted.
pub open spec fn field_type_of(column_type: ColumnType) -> FieldType {
    match column_type {
        ColumnType::Integer => FieldType::Integer,
        ColumnType::Real => FieldType::Real,
        ColumnType::String => FieldType::Text,
        ColumnType::Text => FieldType::Text,
        ColumnType::Blob => FieldType::Blob,
        ColumnType::FileRef => FieldType::FileRef,
        ColumnType::List => FieldType::List,
    }
}

/// The columns that are not plaintext, in order.
pub open spec fn encrypted_columns(columns: Seq<ColumnView>) -> Seq<EncryptedColumnView>
    decreases columns.len(),
{
    if columns.len() == 0 {
        Seq::empty()
    } else {
        let before = encrypted_columns(columns.drop_last());
        if columns.last().plaintext {
            before
        } else {
            before.push(
                EncryptedColumnView {
                    name: columns.last().name,
                    field_type: field_type_of(columns.last().column_type),
                },
            )
        }
    }
}

pub open spec fn column_views(columns: Seq<EncryptedColumn>) -> Seq<EncryptedColumnView> {
    columns.map_values(|column: EncryptedColumn| column@)
}

/// Convert a schema to a list of encrypted columns (those that are not
/// plaintext).
pub fn encrypted_columns_from_schema(schema: &Schema) -> (r: Vec<EncryptedColumn>)
    ensures
        column_views(r@) == encrypted_columns(schema@.columns),
{
    let ghost columns = schema@.columns;
    let mut out: Vec<EncryptedColumn> = Vec::new();
    let mut i: usize = 0;
    assert(column_views(out@) =~= Seq::<EncryptedColumnView>::empty());
    while i < schema.columns.len()
        invariant
            columns == schema@.columns,
            i <= schema.columns@.len(),
            column_views(out@) == encrypted_columns(columns.take(i as int)),
        decreases schema.columns@.len() - i,
    {
        let column = &schema.columns[i];
        let ghost before = out@;
        proof {
            assert(columns.take(i + 1).drop_last() =~= columns.take(i as int));
            assert(columns.take(i + 1).last() == column@);
        }
        if !column.plaintext {
            let field_type = match column.column_type {
                ColumnType::Integer => FieldType::Integer,
                ColumnType::Real => FieldType::Real,
                ColumnType::String => FieldType::Text,
                ColumnType::Text => FieldType::Text,
                ColumnType::Blob => FieldType::Blob,
                ColumnType::FileRef => FieldType::FileRef,
                ColumnType::List => FieldType::List,
            };
            out.push(EncryptedColumn { name: column.name.clone(), field_type });
            assert(column_views(out@) =~= column_views(before).push(out@.last()@));
        }
        i = i + 1;
    }
    assert(columns.take(i as int) =~= columns);
    out
}

/// Whether there is a plaintext channel id column.
pub open spec fn has_channel_column(columns: Seq<ColumnView>) -> bool {
    exists|i: int|
        0 <= i < columns.len() && (#[trigger] columns[i]).name == CHANNEL_ID_COLUMN@
            && columns[i].plaintext
}

/// The first integer that the fields give for the channel id.
pub open spec fn channel_field(fields: Seq<(Seq<char>, ParamView)>) -> Option<i64>
    decreases fields.len(),
{
    if fields.len() == 0 {
        None
    } else if fields[0].0 == CHANNEL_ID_COLUMN@ && fields[0].1 is Integer {
        Some(fields[0].1->Integer_0)
    } else {
        channel_field(fields.skip(1))
    }
}

/// The channel that a query's row belongs to.
pub open spec fn channel_of(operation: OperationView, columns: Seq<ColumnView>) -> Option<i64> {
    if has_channel_column(columns) {
        channel_field(operation.fields())
    } else {
        None
    }
}

fn schema_has_channel_column(schema: &Schema) -> (r: bool)
    ensures
        r == has_channel_column(schema@.columns),
{
    let ghost columns = schema@.columns;
    let mut i: usize = 0;
    while i < schema.columns.len()
        invariant
            columns == schema@.columns,
            i <= schema.columns@.len(),
            forall|j: int|
                0 <= j < i ==> !((#[trigger] columns[j]).name == CHANNEL_ID_COLUMN@
                    && columns[j].plaintext),
        decreases schema.columns@.len() - i,
    {
        let column = &schema.columns[i];
        assert(columns[i as int] == column@);
        if column.plaintext && text_eq(column.name.as_str(), CHANNEL_ID_COLUMN) {
            return true;
        }
        i = i + 1;
    }
    false
}

fn find_channel_field(fields: &Vec<(String, QueryParam)>) -> (r: Option<i64>)
    ensures
        r == channel_field(query::field_views(fields@)),
{
    let ghost views = query::field_views(fields@);
    let mut i: usize = 0;
    assert(views.skip(0) =~= views);
    while i < fields.len()
        invariant
            views == query::field_views(fields@),
            i <= fields@.len(),
            channel_field(views) == channel_field(views.skip(i as int)),
        decreases fields@.len() - i,
    {
        assert(views.skip(i as int)[0] == (fields@[i as int].0@, fields@[i as int].1@));
        assert(views.skip(i as int).skip(1) =~= views.skip(i + 1));
        if text_eq(fields[i].0.as_str(), CHANNEL_ID_COLUMN) {
            if let QueryParam::Integer(channel) = &fields[i].1 {
                return Some(*channel);
            }
        }
        i = i + 1;
    }
    None
}

/// Extract the row's channel id from an insert or update, if the table has a
/// plaintext channel id column: the routing key for read scoping. `None` stands
/// for the root line.
pub fn query_channel_id(operation: &QueryOperation, schema: &Schema) -> (r: Option<i64>)
    ensures
        r == channel_of(operation@, schema@.columns),
{
    if !schema_has_channel_column(schema) {
        return None;
    }
    match operation {
        QueryOperation::Insert(fields) => find_channel_field(fields),
        QueryOperation::Update(fields) => find_channel_field(fields),
        QueryOperation::Select(_) => None,
        QueryOperation::Delete => None,
    }
}

/// The line that a row's key lies on.
#[derive(Clone, Copy, Debug, PartialEq, Eq, Structural)]
pub enum KeyRoute {
    Root,
    Channel(i64),
}

/// What has to be done to a query before it is sent.
#[derive(Clone, Copy, Debug, PartialEq, Eq, Structural)]
pub enum EncryptionPlan {
    Unchanged,
    Encrypt(KeyRoute),
}

/// Queries that write to a table with encrypted columns are encrypted, under
/// the line of the row's channel; all others are left alone.
pub open spec fn encryption_plan(
    operation: OperationView,
    schema: Option<SchemaView>,
) -> EncryptionPlan {
    match schema {
        None => EncryptionPlan::Unchanged,
        Some(schema) => {
            if encrypted_columns(schema.columns).len() == 0 || operation is Select
                || operation is Delete {
                EncryptionPlan::Unchanged
            } else {
                match channel_of(operation, schema.columns) {
                    Some(channel) => EncryptionPlan::Encrypt(KeyRoute::Channel(channel)),
                    None => EncryptionPlan::Encrypt(KeyRoute::Root),
                }
            }
        },
    }
}

/// Decides whether a query is to be encrypted, and on which line its key lies.
pub fn plan_query_encryption(query: &Query, schema: Option<&Schema>) -> (r: EncryptionPlan)
    ensures
        r == encryption_plan(
            query.operation@,
            match schema {
                Some(schema) => Some(schema@),
                None => None,
            },
        ),
{
    let schema = match schema {
        Some(schema) => schema,
        None => return EncryptionPlan::Unchanged,
    };
    let columns = encrypted_columns_from_schema(schema);
    assert(column_views(columns@).len() == columns@.len());
    if columns.len() == 0 {
        return EncryptionPlan::Unchanged;
    }
    match &query.operation {
        QueryOperation::Select(_) => return EncryptionPlan::Unchanged,
        QueryOperation::Delete => return EncryptionPlan::Unchanged,
        _ => {},
    }
    match query_channel_id(&query.operation, schema) {
        Some(channel) => EncryptionPlan::Encrypt(KeyRoute::Channel(channel)),
        None => EncryptionPlan::Encrypt(KeyRoute::Root),
    }
}

/// The key id that a new row is stamped with, given the current sequence number
/// of its line, or that it could not be had.
pub open spec fn stamped_key_id(route: KeyRoute, seq: Option<u64>) -> Result<
    TreeKeyId,
    SdkErrorView,
> {
    match (route, seq) {
        (KeyRoute::Root, Some(seq)) => Ok(TreeKeyId { channel: ROOT_CHANNEL, seq }),
        (KeyRoute::Channel(channel), Some(seq)) => Ok(TreeKeyId { channel, seq }),
        (KeyRoute::Root, None) => Err(SdkErrorView::DecryptionError("current key id failed"@)),
        (KeyRoute::Channel(_), None) => Err(
            SdkErrorView::DecryptionError("current channel epoch failed"@),
        ),
    }
}

/// The key id for a new row on `route`, once the line's current sequence number
/// has been looked up.
pub fn current_key_id_on(route: KeyRoute, seq: Option<u64>) -> (r: Result<TreeKeyId, SdkError>)
    ensures
        (match r {
            Ok(key_id) => Ok(key_id),
            Err(e) => Err(e@),
        }) == stamped_key_id(route, seq),
{
    match route {
        KeyRoute::Root => match seq {
            Some(seq) => Ok(TreeKeyId::root(seq)),
            None => Err(SdkError::DecryptionError("current key id failed".to_owned())),
        },
        KeyRoute::Channel(channel) => match seq {
            Some(seq) => Ok(TreeKeyId::new(channel, seq)),
            None => Err(SdkError::DecryptionError("current channel epoch failed".to_owned())),
        },
    }
}

/// The data key for a new row on `route`, or why there is none.
pub fn data_key_on(route: KeyRoute, key: Option<[u8; 32]>) -> (r: Result<[u8; 32], SdkError>)
    ensures
        match (key, route) {
            (Some(key), _) => r == Ok::<[u8; 32], SdkError>(key),
            (None, KeyRoute::Root) => r is Err && r->Err_0@ == SdkErrorView::DecryptionError(
                "missing key for current key_id"@,
            ),
            (None, KeyRoute::Channel(_)) => r is Err && r->Err_0@
                == SdkErrorView::DecryptionError("channel key derivation failed"@),
        },
{
    match key {
        Some(key) => Ok(key),
        None => match route {
            KeyRoute::Root => Err(
                SdkError::DecryptionError("missing key for current key_id".to_owned()),
            ),
            KeyRoute::Channel(_) => Err(
                SdkError::DecryptionError("channel key derivation failed".to_owned()),
            ),
        },
    }
}

/// Whether the bits are those of a floating-point number that is neither
/// infinite nor NaN: the eleven exponent bits are not all set.
pub open spec fn is_finite_real(bits: u64) -> bool {
    (bits / 0x10_0000_0000_0000) % 2048 != 2047
}

/// A query value as a row value. Blobs become base64; numbers that are not
/// finite become null.
pub open spec fn value_of(param: ParamView) -> RowValueView {
    match param {
        ParamView::Null => RowValueView::Null,
        ParamView::Integer(n) => RowValueView::Integer(n),
        ParamView::Real(bits) => if is_finite_real(bits) {
            RowValueView::Real(bits)
        } else {
            RowValueView::Null
        },
        ParamView::Text(s) => RowValueView::Text(s),
        ParamView::Blob(b) => RowValueView::Text(encoding::base64_text(b)),
        ParamView::Boolean(b) => RowValueView::Boolean(b),
    }
}

/// Whether the base64 form of a value, where it has one, fits in memory.
pub open spec fn param_fits(param: ParamView) -> bool {
    param is Blob ==> encoding::base64_fits(param->Blob_0.len())
}

/// A query value as a row value.
pub fn query_param_to_value(param: &QueryParam) -> (r: RowValue)
    requires
        param_fits(param@),
    ensures
        r@ == value_of(param@),
{
    match param {
        QueryParam::Null => RowValue::Null,
        QueryParam::Integer(n) => RowValue::Integer(*n),
        QueryParam::Real(bits) => {
            if (*bits / 0x10_0000_0000_0000) % 2048 != 2047 {
                RowValue::Real(*bits)
            } else {
                RowValue::Null
            }
        },
        QueryParam::Text(s) => RowValue::Text(s.clone()),
        QueryParam::Blob(b) => RowValue::Text(base64_encode(b.as_slice())),
        QueryParam::Boolean(b) => RowValue::Boolean(*b),
    }
}

/// The row that the fields lay out; of two fields of one name the later counts.
pub open spec fn row_of(fields: Seq<(Seq<char>, ParamView)>) -> Map<Seq<char>, RowValueView>
    decreases fields.len(),
{
    if fields.len() == 0 {
        Map::empty()
    } else {
        row_of(fields.drop_last()).insert(fields.last().0, value_of(fields.last().1))
    }
}

/// Whether some column has this name.
pub open spec fn has_column(columns: Seq<ColumnView>, name: Seq<char>) -> bool {
    exists|i: int| 0 <= i < columns.len() && (#[trigger] columns[i]).name == name
}

/// Whether some encrypted column has this name.
pub open spec fn is_encrypted(columns: Seq<EncryptedColumnView>, name: Seq<char>) -> bool {
    exists|i: int| 0 <= i < columns.len() && (#[trigger] columns[i]).name == name
}

/// Whether some field has this name.
pub open spec fn has_field(fields: Seq<(Seq<char>, ParamView)>, name: Seq<char>) -> bool {
    exists|i: int| 0 <= i < fields.len() && (#[trigger] fields[i]).0 == name
}

/// The first field, in order, that is no column of the table.
pub open spec fn unknown_field(
    fields: Seq<(Seq<char>, ParamView)>,
    columns: Seq<ColumnView>,
) -> Option<Seq<char>>
    decreases fields.len(),
{
    if fields.len() == 0 {
        None
    } else if !has_column(columns, fields[0].0) {
        Some(fields[0].0)
    } else {
        unknown_field(fields.skip(1), columns)
    }
}

/// The first encrypted column, in order, that no field gives.
pub open spec fn absent_column(
    fields: Seq<(Seq<char>, ParamView)>,
    columns: Seq<EncryptedColumnView>,
) -> Option<Seq<char>>
    decreases columns.len(),
{
    if columns.len() == 0 {
        None
    } else if !has_field(fields, columns[0].name) {
        Some(columns[0].name)
    } else {
        absent_column(fields, columns.skip(1))
    }
}

/// Why the fields of a query are refused, if they are: every field must be a
/// column of the table, and an insert must give every encrypted column.
pub open spec fn fields_error(operation: OperationView, schema: SchemaView) -> Option<
    SdkErrorView,
> {
    if let Some(name) = unknown_field(operation.fields(), schema.columns) {
        Some(
            SdkErrorView::InvalidQuery(
                "Query field '"@ + name + "' not found in schema for table '"@ + schema.name
                    + "'"@,
            ),
        )
    } else if operation is Insert {
        match absent_column(operation.fields(), encrypted_columns(schema.columns)) {
            Some(name) => Some(
                SdkErrorView::InvalidQuery(
                    "Encrypted column '"@ + name + "' missing from query for table '"@
                        + schema.name + "'"@,
                ),
            ),
            None => None,
        }
    } else {
        None
    }
}

fn schema_has_column(schema: &Schema, name: &str) -> (r: bool)
    ensures
        r == has_column(schema@.columns, name@),
{
    let ghost columns = schema@.columns;
    let mut i: usize = 0;
    while i < schema.columns.len()
        invariant
            columns == schema@.columns,
            i <= schema.columns@.len(),
            forall|j: int| 0 <= j < i ==> (#[trigger] columns[j]).name != name@,
        decreases schema.columns@.len() - i,
    {
        assert(columns[i as int] == schema.columns@[i as int]@);
        if text_eq(schema.columns[i].name.as_str(), name) {
            return true;
        }
        i = i + 1;
    }
    false
}

fn columns_have(columns: &Vec<EncryptedColumn>, name: &str) -> (r: bool)
    ensures
        r == is_encrypted(column_views(columns@), name@),
{
    let ghost views = column_views(columns@);
    let mut i: usize = 0;
    while i < columns.len()
        invariant
            views == column_views(columns@),
            i <= columns@.len(),
            forall|j: int| 0 <= j < i ==> (#[trigger] views[j]).name != name@,
        decreases columns@.len() - i,
    {
        assert(views[i as int] == columns@[i as int]@);
        if text_eq(columns[i].name.as_str(), name) {
            return true;
        }
        i = i + 1;
    }
    false
}

fn fields_have(fields: &Vec<(String, QueryParam)>, name: &str) -> (r: bool)
    ensures
        r == has_field(query::field_views(fields@), name@),
{
    let ghost views = query::field_views(fields@);
    let mut i: usize = 0;
    while i < fields.len()
        invariant
            views == query::field_views(fields@),
            i <= fields@.len(),
            forall|j: int| 0 <= j < i ==> (#[trigger] views[j]).0 != name@,
        decreases fields@.len() - i,
    {
        assert(views[i as int].0 == fields@[i as int].0@);
        if text_eq(fields[i].0.as_str(), name) {
            return true;
        }
        i = i + 1;
    }
    false
}

/// Every field must be a column of the table.
fn require_known_fields(fields: &Vec<(String, QueryParam)>, schema: &Schema) -> (r: Result<
    (),
    SdkError,
>)
    ensures
        match unknown_field(query::field_views(fields@), schema@.columns) {
            Some(name) => r is Err && r->Err_0@ == SdkErrorView::InvalidQuery(
                "Query field '"@ + name + "' not found in schema for table '"@ + schema@.name
                    + "'"@,
            ),
            None => r is Ok,
        },
{
    let ghost views = query::field_views(fields@);
    let mut i: usize = 0;
    assert(views.skip(0) =~= views);
    while i < fields.len()
        invariant
            views == query::field_views(fields@),
            i <= fields@.len(),
            unknown_field(views, schema@.columns) == unknown_field(
                views.skip(i as int),
                schema@.columns,
            ),
        decreases fields@.len() - i,
    {
        assert(views.skip(i as int)[0].0 == fields@[i as int].0@);
        assert(views.skip(i as int).skip(1) =~= views.skip(i + 1));
        if !schema_has_column(schema, fields[i].0.as_str()) {
            let mut text = "Query field '".to_owned();
            text.append(fields[i].0.as_str());
            text.append("' not found in schema for table '");
            text.append(schema.name.as_str());
            text.append("'");
            return Err(SdkError::InvalidQuery(text));
        }
        i = i + 1;
    }
    Ok(())
}

/// Every encrypted column must be among the fields.
fn require_encrypted_columns(
    fields: &Vec<(String, QueryParam)>,
    columns: &Vec<EncryptedColumn>,
    schema: &Schema,
) -> (r: Result<(), SdkError>)
    ensures
        match absent_column(query::field_views(fields@), column_views(columns@)) {
            Some(name) => r is Err && r->Err_0@ == SdkErrorView::InvalidQuery(
                "Encrypted column '"@ + name + "' missing from query for table '"@ + schema@.name
                    + "'"@,
            ),
            None => r is Ok,
        },
{
    let ghost fviews = query::field_views(fields@);
    let ghost views = column_views(columns@);
    let mut i: usize = 0;
    assert(views.skip(0) =~= views);
    while i < columns.len()
        invariant
            fviews == query::field_views(fields@),
            views == column_views(columns@),
            i <= columns@.len(),
            absent_column(fviews, views) == absent_column(fviews, views.skip(i as int)),
        decreases columns@.len() - i,
    {
        assert(views.skip(i as int)[0] == columns@[i as int]@);
        assert(views.skip(i as int).skip(1) =~= views.skip(i + 1));
        if !fields_have(fields, columns[i].name.as_str()) {
            let mut text = "Encrypted column '".to_owned();
            text.append(columns[i].name.as_str());
            text.append("' missing from query for table '");
            text.append(schema.name.as_str());
            text.append("'");
            return Err(SdkError::InvalidQuery(text));
        }
        i = i + 1;
    }
    Ok(())
}

/// Lays the fields out as a row.
fn fields_to_row(fields: &Vec<(String, QueryParam)>) -> (r: TextMap<RowValue>)
    requires
        forall|i: int| 0 <= i < fields@.len() ==> param_fits((#[trigger] fields@[i]).1@),
    ensures
        r@ == row_of(query::field_views(fields@)),
{
    let ghost views = query::field_views(fields@);
    let mut row: TextMap<RowValue> = TextMap::new();
    let mut i: usize = 0;
    assert(views.take(0) =~= Seq::<(Seq<char>, ParamView)>::empty());
    while i < fields.len()
        invariant
            forall|i: int| 0 <= i < fields@.len() ==> param_fits((#[trigger] fields@[i]).1@),
            views == query::field_views(fields@),
            i <= fields@.len(),
            row@ == row_of(views.take(i as int)),
        decreases fields@.len() - i,
    {
        proof {
            assert(views.take(i + 1).drop_last() =~= views.take(i as int));
            assert(views.take(i + 1).last() == (fields@[i as int].0@, fields@[i as int].1@));
        }
        row.insert(fields[i].0.clone(), query_param_to_value(&fields[i].1));
        i = i + 1;
    }
    assert(views.take(i as int) =~= views);
    row
}

/// Checks the fields of a query against the table and lays them out as a row
/// for the cipher.
pub fn prepare_row(query: &Query, schema: &Schema) -> (r: Result<TextMap<RowValue>, SdkError>)
    requires
        forall|i: int|
            0 <= i < query.operation@.fields().len() ==> param_fits(
                (#[trigger] query.operation@.fields()[i]).1,
            ),
    ensures
        match fields_error(query.operation@, schema@) {
            Some(error) => r is Err && r->Err_0@ == error,
            None => r is Ok && r->Ok_0@ == row_of(query.operation@.fields()),
        },
{
    let ghost views = query.operation@.fields();
    let fields = match &query.operation {
        QueryOperation::Insert(fields) => fields,
        QueryOperation::Update(fields) => fields,
        _ => return Ok(TextMap::new()),
    };
    proof {
        assert(views == query::field_views(fields@));
        assert forall|i: int| 0 <= i < fields@.len() implies param_fits(
            (#[trigger] fields@[i]).1@,
        ) by {
            assert(views[i].1 == fields@[i].1@);
        }
    }
    match require_known_fields(fields, schema) {
        Ok(()) => {},
        Err(e) => return Err(e),
    }
    if let QueryOperation::Insert(_) = &query.operation {
        let columns = encrypted_columns_from_schema(schema);
        match require_encrypted_columns(fields, &columns, schema) {
            Ok(()) => {},
            Err(e) => return Err(e),
        }
    }
    Ok(fields_to_row(fields))
}

/// A field after encryption: of an encrypted column for which the encrypted row
/// holds a text, that text; otherwise as it was.
pub open spec fn field_after(
    field: (Seq<char>, ParamView),
    columns: Seq<EncryptedColumnView>,
    row: Map<Seq<char>, RowValueView>,
) -> (Seq<char>, ParamView) {
    if is_encrypted(columns, field.0) && row.dom().contains(field.0) && row[field.0] is Text {
        (field.0, ParamView::Text(row[field.0]->Text_0))
    } else {
        field
    }
}

/// The fields of a query after encryption.
pub open spec fn fields_after(
    fields: Seq<(Seq<char>, ParamView)>,
    columns: Seq<EncryptedColumnView>,
    row: Map<Seq<char>, RowValueView>,
) -> Seq<(Seq<char>, ParamView)> {
    Seq::new(fields.len(), |i: int| field_after(fields[i], columns, row))
}

/// A query's operation after encryption.
pub open spec fn operation_after(
    operation: OperationView,
    columns: Seq<EncryptedColumnView>,
    row: Map<Seq<char>, RowValueView>,
) -> OperationView {
    match operation {
        OperationView::Insert(fields) => OperationView::Insert(fields_after(fields, columns, row)),
        OperationView::Update(fields) => OperationView::Update(fields_after(fields, columns, row)),
        _ => operation,
    }
}

fn encrypted_fields(
    fields: &Vec<(String, QueryParam)>,
    columns: &Vec<EncryptedColumn>,
    row: &TextMap<RowValue>,
) -> (r: Vec<(String, QueryParam)>)
    ensures
        query::field_views(r@) == fields_after(
            query::field_views(fields@),
            column_views(columns@),
            row@,
        ),
{
    let ghost views = query::field_views(fields@);
    let ghost after = fields_after(views, column_views(columns@), row@);
    let mut out: Vec<(String, QueryParam)> = Vec::new();
    let mut i: usize = 0;
    while i < fields.len()
        invariant
            views == query::field_views(fields@),
            after == fields_after(views, column_views(columns@), row@),
            i <= fields@.len(),
            out@.len() == i,
            forall|j: int|
                0 <= j < i ==> ((#[trigger] out@[j]).0@, out@[j].1@) == after[j],
        decreases fields@.len() - i,
    {
        let name = &fields[i].0;
        assert(views[i as int] == (name@, fields@[i as int].1@));
        let param = if columns_have(columns, name.as_str()) {
            match row.get(name.as_str()) {
                Some(RowValue::Text(s)) => QueryParam::Text(s.clone()),
                _ => fields[i].1.clone(),
            }
        } else {
            fields[i].1.clone()
        };
        out.push((name.clone(), param));
        i = i + 1;
    }
    assert(query::field_views(out@) =~= after);
    out
}

/// Writes the values of an encrypted row back into the query.
pub fn write_back(query: &mut Query, schema: &Schema, row: &TextMap<RowValue>)
    ensures
        final(query).table == old(query).table,
        final(query).operation@ == operation_after(
            old(query).operation@,
            encrypted_columns(schema@.columns),
            row@,
        ),
{
    let columns = encrypted_columns_from_schema(schema);
    let operation = match &query.operation {
        QueryOperation::Insert(fields) => Some(
            QueryOperation::Insert(encrypted_fields(fields, &columns, row)),
        ),
        QueryOperation::Update(fields) => Some(
            QueryOperation::Update(encrypted_fields(fields, &columns, row)),
        ),
        _ => None,
    };
    if let Some(operation) = operation {
        query.operation = operation;
    }
}

/// Whether the alias keyword, with a space on either side, stands at `i`.
pub open spec fn alias_at(name: Seq<char>, i: int) -> bool {
    &&& 0 <= i
    &&& i + 4 <= name.len()
    &&& name[i] == ' '
    &&& name[i + 1] == 'a'
    &&& name[i + 2] == 's'
    &&& name[i + 3] == ' '
}

/// The first position from `from` on at which the alias keyword stands, or the
/// end.
pub open spec fn alias_position(name: Seq<char>, from: int) -> int
    decreases name.len() - from,
{
    if from >= name.len() {
        name.len() as int
    } else if alias_at(name, from) {
        from
    } else {
        alias_position(name, from + 1)
    }
}

/// A table's name without its alias.
pub open spec fn base_table(name: Seq<char>) -> Seq<char> {
    name.take(alias_position(name, 0))
}

/// A table's name without its alias: what stands before the first ` as `.
pub fn table_key<'a>(table_name: &'a str) -> (r: &'a str)
    ensures
        r@ == base_table(table_name@),
{
    let chars = chars_of(table_name);
    let n: usize = chars.len();
    let mut i: usize = 0;
    while i < n
        invariant
            chars@ == table_name@,
            n == chars@.len(),
            i <= n,
            alias_position(chars@, 0) == alias_position(chars@, i as int),
        decreases n - i,
    {
        if n - i >= 4 && chars[i] == ' ' && chars[i + 1] == 'a' && chars[i + 2] == 's' && chars[i
            + 3] == ' ' {
            return table_name.substring_char(0, i);
        }
        i = i + 1;
    }
    assert(table_name@.take(n as int) =~= table_name@);
    table_name
}

/// The columns to decrypt in rows of a table; `None` where the rows are to be
/// left as they are: the table is not known, or none of its columns is
/// encrypted.
pub open spec fn columns_to_decrypt(
    table_name: Seq<char>,
    schemas: Map<Seq<char>, SchemaView>,
) -> Option<Seq<EncryptedColumnView>> {
    let table = base_table(table_name);
    if schemas.dom().contains(table) && encrypted_columns(schemas[table].columns).len() > 0 {
        Some(encrypted_columns(schemas[table].columns))
    } else {
        None
    }
}

/// Decides which columns of a table's rows are to be decrypted.
pub fn plan_row_decryption(table_name: &str, schemas: &TextMap<Schema>) -> (r: Option<
    Vec<EncryptedColumn>,
>)
    ensures
        (match r {
            Some(columns) => Some(column_views(columns@)),
            None => None,
        }) == columns_to_decrypt(table_name@, schemas@),
{
    match schemas.get(table_key(table_name)) {
        Some(schema) => {
            let columns = encrypted_columns_from_schema(schema);
            assert(column_views(columns@).len() == columns@.len());
            if columns.len() == 0 {
                None
            } else {
                Some(columns)
            }
        },
        None => None,
    }
}

/// What became of a row: it was decrypted, it was no record and left as it is,
/// or its key is missing or does not fit.
#[derive(Debug, PartialEq, Eq)]
pub enum RowOutcome<T> {
    Decrypted(T),
    Untouched(T),
    Failed,
}

/// The rows that stay in a result, in order: all but those that failed.
pub open spec fn kept_rows<T>(outcomes: Seq<RowOutcome<T>>) -> Seq<T>
    decreases outcomes.len(),
{
    if outcomes.len() == 0 {
        Seq::empty()
    } else {
        let before = kept_rows(outcomes.drop_last());
        match outcomes.last() {
            RowOutcome::Decrypted(row) => before.push(row),
            RowOutcome::Untouched(row) => before.push(row),
            RowOutcome::Failed => before,
        }
    }
}

/// Removes the rows that could not be decrypted from a result, such as rows
/// whose keys have been pruned or were never granted.
pub fn keep_readable_rows<T>(outcomes: Vec<RowOutcome<T>>) -> (r: Vec<T>)
    ensures
        r@ == kept_rows(outcomes@),
{
    let ghost all = outcomes@;
    let mut kept: Vec<T> = Vec::new();
    for outcome in it: outcomes
        invariant
            it.seq() == all,
            kept@ == kept_rows(all.take(it.index() as int)),
    {
        proof {
            assert(all.take(it.index() + 1).drop_last() =~= all.take(it.index() as int));
            assert(all.take(it.index() + 1).last() == outcome);
        }
        match outcome {
            RowOutcome::Decrypted(row) => kept.push(row),
            RowOutcome::Untouched(row) => kept.push(row),
            RowOutcome::Failed => {},
        }
    }
    assert(all.take(all.len() as int) =~= all);
    kept
}

} // verus!
