//! The change log as its verifier sees it: signed entries over decoded column
//! keys, proven reads of the state before the entry, and the writes that an
//! accepted entry causes.

use crate::keys::copy_bytes;
use crate::text;
use crate::text::{is_text_before, text_eq};
use vstd::prelude::*;
use vstd::string::*;

verus! {

/// Name of the members table.
pub const USERS_TABLE: &'static str = "_users";

/// Name of the retention table.
pub const RETENTION_TABLE: &'static str = "_retention";

/// Name of the key history table.
pub const KEY_HISTORY_TABLE: &'static str = "_key_history";

/// The tables that composite entries are made of.
#[derive(Clone, Copy, Debug, PartialEq, Eq, Structural)]
pub enum Table {
    Users,
    Retention,
    KeyHistory,
}

impl Table {
    pub open spec fn text(self) -> Seq<char> {
        match self {
            Table::Users => USERS_TABLE@,
            Table::Retention => RETENTION_TABLE@,
            Table::KeyHistory => KEY_HISTORY_TABLE@,
        }
    }

    pub fn name(self) -> (r: &'static str)
        ensures
            r@ == self.text(),
    {
        match self {
            Table::Users => USERS_TABLE,
            Table::Retention => RETENTION_TABLE,
            Table::KeyHistory => KEY_HISTORY_TABLE,
        }
    }
}

/// The table that a name stands for.
pub open spec fn table_of(name: Seq<char>) -> Option<Table> {
    if name == USERS_TABLE@ {
        Some(Table::Users)
    } else if name == RETENTION_TABLE@ {
        Some(Table::Retention)
    } else if name == KEY_HISTORY_TABLE@ {
        Some(Table::KeyHistory)
    } else {
        None
    }
}

/// Each table is found again by its name.
pub proof fn lemma_table_of_name(table: Table)
    ensures
        table_of(table.text()) == Some(table),
{
    reveal_strlit("_users");
    reveal_strlit("_retention");
    reveal_strlit("_key_history");
    assert(USERS_TABLE@.len() != RETENTION_TABLE@.len());
    assert(USERS_TABLE@.len() != KEY_HISTORY_TABLE@.len());
    assert(RETENTION_TABLE@.len() != KEY_HISTORY_TABLE@.len());
}

pub fn parse_table(name: &str) -> (r: Option<Table>)
    ensures
        r == table_of(name@),
{
    if text_eq(name, USERS_TABLE) {
        Some(Table::Users)
    } else if text_eq(name, RETENTION_TABLE) {
        Some(Table::Retention)
    } else if text_eq(name, KEY_HISTORY_TABLE) {
        Some(Table::KeyHistory)
    } else {
        None
    }
}

/// A stored column value. Integers and texts are what the verifier reads;
/// anything else is carried through as its bytes.
#[derive(Debug, PartialEq, Eq)]
pub enum StoredValue {
    Integer(i64),
    Text(String),
    Opaque(Vec<u8>),
}

/// What a stored value holds.
#[verifier::ext_equal]
pub enum ValueView {
    Integer(i64),
    Text(Seq<char>),
    Opaque(Seq<u8>),
}

impl View for StoredValue {
    type V = ValueView;

    open spec fn view(&self) -> ValueView {
        match self {
            StoredValue::Integer(n) => ValueView::Integer(*n),
            StoredValue::Text(s) => ValueView::Text(s@),
            StoredValue::Opaque(b) => ValueView::Opaque(b@),
        }
    }
}

impl Clone for StoredValue {
    fn clone(&self) -> (r: Self)
        ensures
            r@ == self@,
    {
        match self {
            StoredValue::Integer(n) => StoredValue::Integer(*n),
            StoredValue::Text(s) => StoredValue::Text(s.clone()),
            StoredValue::Opaque(b) => StoredValue::Opaque(copy_bytes(b.as_slice())),
        }
    }
}

/// One column of one row.
#[derive(Debug, PartialEq, Eq)]
pub struct ColumnKey {
    pub table: String,
    pub row_id: i64,
    pub column: String,
}

/// The key of `column` in row `row_id` of `table`.
pub fn column_key(table: &str, row_id: i64, column: &str) -> (r: ColumnKey)
    ensures
        r.table@ == table@,
        r.row_id == row_id,
        r.column@ == column@,
{
    ColumnKey { table: table.to_owned(), row_id, column: column.to_owned() }
}

/// A column write as an entry carries it. Rows to be inserted carry row id 0,
/// a placeholder for the id that the verifier assigns.
#[derive(Debug, PartialEq, Eq)]
pub struct KvData {
    pub key: ColumnKey,
    pub value: StoredValue,
}

/// What an entry's column write says.
#[verifier::ext_equal]
pub struct KvView {
    pub table: Seq<char>,
    pub row_id: i64,
    pub column: Seq<char>,
    pub value: ValueView,
}

impl View for KvData {
    type V = KvView;

    open spec fn view(&self) -> KvView {
        KvView {
            table: self.key.table@,
            row_id: self.key.row_id,
            column: self.key.column@,
            value: self.value@,
        }
    }
}

/// A signed change log entry: who signed it and what it writes.
#[derive(Debug, PartialEq, Eq)]
pub struct ChangelogEntry {
    pub uid: u32,
    pub entries: Vec<KvData>,
}

impl ChangelogEntry {
    /// The column writes, in order.
    pub open spec fn writes(&self) -> Seq<KvView> {
        self.entries@.map_values(|kv: KvData| kv@)
    }
}

/// A set of column names, in ascending order.
#[derive(Debug, PartialEq, Eq)]
pub struct ColumnSet {
    names: Vec<String>,
}

/// What texts a vector of strings holds.
pub open spec fn texts(names: Seq<String>) -> Seq<Seq<char>> {
    names.map_values(|name: String| name@)
}

proof fn lemma_insert_contains(names: Seq<Seq<char>>, at: int, name: Seq<char>)
    requires
        0 <= at <= names.len(),
    ensures
        forall|n: Seq<char>| #[trigger]
            names.insert(at, name).contains(n) <==> names.contains(n) || n == name,
{
    let out = names.insert(at, name);
    assert forall|n: Seq<char>| #[trigger] out.contains(n) <==> names.contains(n) || n == name by {
        if names.contains(n) {
            let i = names.index_of(n);
            assert(out[if i < at {
                i
            } else {
                i + 1
            }] == n);
        }
        if n == name {
            assert(out[at] == n);
        }
        if out.contains(n) && n != name {
            let i = out.index_of(n);
            assert(names[if i < at {
                i
            } else {
                i - 1
            }] == n);
        }
    }
}

impl View for ColumnSet {
    type V = Seq<Seq<char>>;

    closed spec fn view(&self) -> Seq<Seq<char>> {
        texts(self.names@)
    }
}

impl ColumnSet {
    #[verifier::type_invariant]
    spec fn inv(self) -> bool {
        text::ascending_texts(self@)
    }

    /// The set that holds nothing.
    pub fn new() -> (r: Self)
        ensures
            r@ == Seq::<Seq<char>>::empty(),
    {
        let names: Vec<String> = Vec::new();
        assert(texts(names@) =~= Seq::<Seq<char>>::empty());
        ColumnSet { names }
    }

    /// Adds `name` in its place, unless it is there already.
    pub fn insert(self, name: &str) -> (r: Self)
        ensures
            text::ascending_texts(r@),
            forall|n: Seq<char>| #[trigger]
                r@.contains(n) <==> self@.contains(n) || n == name@,
            self@.contains(name@) ==> r@ == self@,
    {
        proof {
            use_type_invariant(&self);
        }
        let ghost before = self@;
        let mut names = self.names;
        let mut at: usize = 0;
        while at < names.len() && is_text_before(names[at].as_str(), name)
            invariant
                before == texts(names@),
                text::ascending_texts(before),
                at <= names@.len(),
                forall|i: int| 0 <= i < at ==> text::text_before(#[trigger] before[i], name@),
            decreases names@.len() - at,
        {
            assert(before[at as int] == names@[at as int]@);
            at = at + 1;
        }
        if at < names.len() && text_eq(names[at].as_str(), name) {
            assert(before[at as int] == name@);
            return ColumnSet { names };
        }
        proof {
            if at < names@.len() {
                assert(before[at as int] == names@[at as int]@);
                text::lemma_text_before_total(before[at as int], name@);
            }
            text::lemma_insert_ascending(before, at as int, name@);
            lemma_insert_contains(before, at as int, name@);
            assert forall|i: int| 0 <= i < before.len() implies before[i] != name@ by {
                text::lemma_text_before_total(before[i], name@);
                if i > at {
                    text::lemma_text_before_transitive(name@, before[at as int], before[i]);
                }
            }
        }
        names.insert(at, name.to_owned());
        assert(texts(names@) =~= before.insert(at as int, name@));
        ColumnSet { names }
    }

    /// Whether `name` is one of the names.
    pub fn contains(&self, name: &str) -> (r: bool)
        ensures
            r == self@.contains(name@),
    {
        let mut i: usize = 0;
        while i < self.names.len()
            invariant
                i <= self.names@.len(),
                forall|j: int| 0 <= j < i ==> self@[j] != name@,
            decreases self.names@.len() - i,
        {
            if text_eq(self.names[i].as_str(), name) {
                assert(self@[i as int] == name@);
                return true;
            }
            i = i + 1;
        }
        false
    }

    /// How many names there are; they ascend, so that none occurs twice.
    pub fn len(&self) -> (r: usize)
        ensures
            r == self@.len(),
            text::ascending_texts(self@),
            self@.no_duplicates(),
    {
        proof {
            use_type_invariant(self);
            text::lemma_ascending_no_duplicates(self@);
        }
        self.names.len()
    }

    /// The name at position `i`.
    pub fn get(&self, i: usize) -> (r: &String)
        requires
            i < self@.len(),
        ensures
            r@ == self@[i as int],
    {
        &self.names[i]
    }
}

/// The reads that a verifier makes of the state before an entry.
#[derive(Clone, Copy, Debug, PartialEq, Eq, Structural)]
pub enum ReadOp {
    /// Every row of a table.
    Rows(Table),
    /// The status column of a member's row.
    UserStatus(i64),
    /// The column names of a table.
    SchemaColumns(Table),
    /// The next row id of a table.
    SchemaNextId(Table),
    /// The indexed columns of a table.
    SchemaIndexes(Table),
}

/// One value that a read returned.
#[derive(Debug, PartialEq, Eq)]
pub enum ReadValue {
    Stored(StoredValue),
    Counter(i64),
    Columns(ColumnSet),
}

/// A read together with its authenticated results.
#[derive(Debug, PartialEq, Eq)]
pub struct ProvenRead {
    pub op: ReadOp,
    pub results: Vec<ReadValue>,
}

/// The operations on the membership and the keys of a space.
#[derive(Clone, Copy, Debug, PartialEq, Eq, Structural)]
pub enum OpType {
    CreateSpace,
    InviteUser,
    Rekey,
}

/// Why an entry is refused.
#[derive(Clone, Copy, Debug, PartialEq, Eq, Structural)]
pub enum ErrorKind {
    /// The proof holds no further read.
    ReadsExhausted,
    /// The proof's next read is another one.
    ReadMismatch,
    /// A column key names a table that the operation does not know.
    UnknownTable,
    UnexpectedKeyHistory,
    NoUserEntries,
    GrantNotAllowed,
    UsersNotEmpty,
    /// The columns written are not those of the schema; names the ones missing.
    ColumnsDiffer(Table),
    NoSchemaColumns(Table),
    RaggedRows { entries: usize, columns: usize },
    SchemaMissing(Table),
    NextIdMissing(Table),
    NextIdOverflow(Table),
    NotAPlaceholder { row_id: i64 },
    UnknownUser(i64),
    MalformedStatus(i64),
    ProvisionalUser(i64),
    NotFullMember { uid: i64, status: i64 },
    StatusNotInserted,
    NotProvisional { status: i64 },
    GrantOnFullInvite { status: i64 },
    NonCanonicalGrant,
    GrantNotForInvitee { uid: i64, invitee: i64 },
    GrantNotScoped { uid: i64 },
    NoRetentionEntries,
    MixedTables,
    NotRetention,
}

/// A refusal: the operation, the reason, and the names that the reason speaks
/// of (missing columns, a table, a grant key).
#[derive(Debug, PartialEq, Eq)]
pub struct ChangelogError {
    pub op: OpType,
    pub kind: ErrorKind,
    pub names: Vec<String>,
}

#[verifier::ext_equal]
pub struct ErrorView {
    pub op: OpType,
    pub kind: ErrorKind,
    pub names: Seq<Seq<char>>,
}

impl View for ChangelogError {
    type V = ErrorView;

    open spec fn view(&self) -> ErrorView {
        ErrorView { op: self.op, kind: self.kind, names: texts(self.names@) }
    }
}

/// The refusal that names nothing.
pub open spec fn refusal(op: OpType, kind: ErrorKind) -> ErrorView {
    ErrorView { op, kind, names: Seq::empty() }
}

/// The refusal that names one thing.
pub open spec fn refusal_naming(op: OpType, kind: ErrorKind, name: Seq<char>) -> ErrorView {
    ErrorView { op, kind, names: seq![name] }
}

impl ChangelogError {
    pub fn new(op: OpType, kind: ErrorKind) -> (r: Self)
        ensures
            r@ == refusal(op, kind),
    {
        let names: Vec<String> = Vec::new();
        assert(texts(names@) =~= Seq::<Seq<char>>::empty());
        ChangelogError { op, kind, names }
    }

    pub fn naming(op: OpType, kind: ErrorKind, name: &str) -> (r: Self)
        ensures
            r@ == refusal_naming(op, kind, name@),
    {
        let mut names: Vec<String> = Vec::new();
        names.push(name.to_owned());
        assert(texts(names@) =~= seq![name@]);
        ChangelogError { op, kind, names }
    }
}

/// A write to the state.
#[derive(Debug, PartialEq, Eq)]
pub enum BatchOp {
    /// Sets a column.
    PutColumn { table: Table, row_id: i64, column: String, value: StoredValue },
    /// Adds a row to the index of a column.
    PutIndex { table: Table, column: String, value: StoredValue, row_id: i64 },
    /// Sets the next row id of a table.
    PutNextId { table: Table, next_id: i64 },
}

/// What a write does.
#[verifier::ext_equal]
pub enum BatchOpView {
    PutColumn { table: Table, row_id: int, column: Seq<char>, value: ValueView },
    PutIndex { table: Table, column: Seq<char>, value: ValueView, row_id: int },
    PutNextId { table: Table, next_id: int },
}

impl View for BatchOp {
    type V = BatchOpView;

    open spec fn view(&self) -> BatchOpView {
        match self {
            BatchOp::PutColumn { table, row_id, column, value } => BatchOpView::PutColumn {
                table: *table,
                row_id: *row_id as int,
                column: column@,
                value: value@,
            },
            BatchOp::PutIndex { table, column, value, row_id } => BatchOpView::PutIndex {
                table: *table,
                column: column@,
                value: value@,
                row_id: *row_id as int,
            },
            BatchOp::PutNextId { table, next_id } => BatchOpView::PutNextId {
                table: *table,
                next_id: *next_id as int,
            },
        }
    }
}

/// The writes of a batch, in order.
pub open spec fn batch_views(ops: Seq<BatchOp>) -> Seq<BatchOpView> {
    ops.map_values(|op: BatchOp| op@)
}

/// The writes of two batches one after the other.
pub proof fn lemma_batch_views_append(a: Seq<BatchOp>, b: Seq<BatchOp>)
    ensures
        batch_views(a + b) == batch_views(a) + batch_views(b),
{
    assert(batch_views(a + b) =~= batch_views(a) + batch_views(b));
}

/// The writes of a batch with one more.
pub proof fn lemma_batch_views_push(ops: Seq<BatchOp>, op: BatchOp)
    ensures
        batch_views(ops.push(op)) == batch_views(ops).push(op@),
{
    assert(batch_views(ops.push(op)) =~= batch_views(ops).push(op@));
}

} // verus!
