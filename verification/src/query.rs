//! Tables and queries as the encryption layer sees them.

use crate::keys::copy_bytes;
use vstd::prelude::*;
use vstd::string::*;

verus! {

/// The declared type of a column.
#[derive(Clone, Copy, Debug, PartialEq, Eq, Structural)]
pub enum ColumnType {
    Integer,
    Real,
    String,
    Text,
    Blob,
    FileRef,
    List,
}

/// A column of a table.
#[derive(Debug, PartialEq, Eq)]
pub struct Column {
    pub name: String,
    pub column_type: ColumnType,
    /// Whether the column is stored as it is.
    pub plaintext: bool,
}

/// A table.
#[derive(Debug, PartialEq, Eq)]
pub struct Schema {
    pub name: String,
    pub columns: Vec<Column>,
}

#[verifier::ext_equal]
pub struct ColumnView {
    pub name: Seq<char>,
    pub column_type: ColumnType,
    pub plaintext: bool,
}

#[verifier::ext_equal]
pub struct SchemaView {
    pub name: Seq<char>,
    pub columns: Seq<ColumnView>,
}

impl View for Column {
    type V = ColumnView;

    open spec fn view(&self) -> ColumnView {
        ColumnView {
            name: self.name@,
            column_type: self.column_type,
            plaintext: self.plaintext,
        }
    }
}

impl View for Schema {
    type V = SchemaView;

    open spec fn view(&self) -> SchemaView {
        SchemaView {
            name: self.name@,
            columns: self.columns@.map_values(|column: Column| column@),
        }
    }
}

/// A value that a query carries. A floating-point number is held by its bits.
#[derive(Debug, PartialEq, Eq)]
pub enum QueryParam {
    Null,
    Integer(i64),
    Real(u64),
    Text(String),
    Blob(Vec<u8>),
    Boolean(bool),
}

#[verifier::ext_equal]
pub enum ParamView {
    Null,
    Integer(i64),
    Real(u64),
    Text(Seq<char>),
    Blob(Seq<u8>),
    Boolean(bool),
}

impl View for QueryParam {
    type V = ParamView;

    open spec fn view(&self) -> ParamView {
        match self {
            QueryParam::Null => ParamView::Null,
            QueryParam::Integer(n) => ParamView::Integer(*n),
            QueryParam::Real(bits) => ParamView::Real(*bits),
            QueryParam::Text(s) => ParamView::Text(s@),
            QueryParam::Blob(b) => ParamView::Blob(b@),
            QueryParam::Boolean(b) => ParamView::Boolean(*b),
        }
    }
}

impl Clone for QueryParam {
    fn clone(&self) -> (r: Self)
        ensures
            r@ == self@,
    {
        match self {
            QueryParam::Null => QueryParam::Null,
            QueryParam::Integer(n) => QueryParam::Integer(*n),
            QueryParam::Real(bits) => QueryParam::Real(*bits),
            QueryParam::Text(s) => QueryParam::Text(s.clone()),
            QueryParam::Blob(b) => QueryParam::Blob(copy_bytes(b.as_slice())),
            QueryParam::Boolean(b) => QueryParam::Boolean(*b),
        }
    }
}

/// The fields of an insert or update, by name.
pub open spec fn field_views(fields: Seq<(String, QueryParam)>) -> Seq<(Seq<char>, ParamView)> {
    fields.map_values(|field: (String, QueryParam)| (field.0@, field.1@))
}

/// What a query does.
#[derive(Debug, PartialEq, Eq)]
pub enum QueryOperation {
    Insert(Vec<(String, QueryParam)>),
    Update(Vec<(String, QueryParam)>),
    Select(Vec<String>),
    Delete,
}

#[verifier::ext_equal]
pub enum OperationView {
    Insert(Seq<(Seq<char>, ParamView)>),
    Update(Seq<(Seq<char>, ParamView)>),
    Select(Seq<Seq<char>>),
    Delete,
}

impl View for QueryOperation {
    type V = OperationView;

    open spec fn view(&self) -> OperationView {
        match self {
            QueryOperation::Insert(fields) => OperationView::Insert(field_views(fields@)),
            QueryOperation::Update(fields) => OperationView::Update(field_views(fields@)),
            QueryOperation::Select(names) => OperationView::Select(
                names@.map_values(|name: String| name@),
            ),
            QueryOperation::Delete => OperationView::Delete,
        }
    }
}

impl OperationView {
    /// The fields that the operation writes.
    pub open spec fn fields(self) -> Seq<(Seq<char>, ParamView)> {
        match self {
            OperationView::Insert(fields) => fields,
            OperationView::Update(fields) => fields,
            _ => Seq::empty(),
        }
    }
}

/// A query on one table.
#[derive(Debug, PartialEq, Eq)]
pub struct Query {
    pub table: String,
    pub operation: QueryOperation,
}

impl Query {
    pub fn new(table: String, operation: QueryOperation) -> (r: Self)
        ensures
            r.table == table,
            r.operation == operation,
    {
        Query { table, operation }
    }
}

/// A value of a row.
#[derive(Debug, PartialEq, Eq)]
pub enum RowValue {
    Null,
    Integer(i64),
    Real(u64),
    Text(String),
    Boolean(bool),
}

#[verifier::ext_equal]
pub enum RowValueView {
    Null,
    Integer(i64),
    Real(u64),
    Text(Seq<char>),
    Boolean(bool),
}

impl View for RowValue {
    type V = RowValueView;

    open spec fn view(&self) -> RowValueView {
        match self {
            RowValue::Null => RowValueView::Null,
            RowValue::Integer(n) => RowValueView::Integer(*n),
            RowValue::Real(bits) => RowValueView::Real(*bits),
            RowValue::Text(s) => RowValueView::Text(s@),
            RowValue::Boolean(b) => RowValueView::Boolean(*b),
        }
    }
}

/// Why a query cannot be encrypted or a row not be read.
#[derive(Debug, PartialEq, Eq)]
pub enum SdkError {
    InvalidQuery(String),
    DecryptionError(String),
}

#[verifier::ext_equal]
pub enum SdkErrorView {
    InvalidQuery(Seq<char>),
    DecryptionError(Seq<char>),
}

impl View for SdkError {
    type V = SdkErrorView;

    open spec fn view(&self) -> SdkErrorView {
        match self {
            SdkError::InvalidQuery(s) => SdkErrorView::InvalidQuery(s@),
            SdkError::DecryptionError(s) => SdkErrorView::DecryptionError(s@),
        }
    }
}

/// An insert or update writes the fields that it carries, all of them and in
/// order; other operations write none.
pub proof fn law_operations_write_their_fields(
    fields: Seq<(Seq<char>, ParamView)>,
    names: Seq<Seq<char>>,
)
    ensures
        OperationView::Insert(fields).fields() == fields,
        OperationView::Update(fields).fields() == fields,
        OperationView::Delete.fields().len() == 0,
        OperationView::Select(names).fields().len() == 0,
{
}

} // verus!
