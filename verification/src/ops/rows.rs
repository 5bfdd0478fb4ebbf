//! The rows that an entry inserts: which table each write belongs to, whether
//! the columns are those of the schema, and which row ids they are given.

use crate::changelog;
use crate::changelog::{
    parse_table, BatchOp, BatchOpView, ChangelogEntry, ChangelogError, ColumnSet, ErrorKind,
    ErrorView, KvData, KvView, OpType, ProvenRead, Table,
};
use crate::ops::grants;
use crate::ops::reader;
use crate::ops::reader::VerifierReader;
use crate::text;
use crate::text::text_eq;
use vstd::prelude::*;
use vstd::string::*;

verus! {

/// The first table name among the writes that is not one of the three tables
/// of composite entries.
pub open spec fn foreign_table(kvs: Seq<KvView>) -> Option<Seq<char>>
    decreases kvs.len(),
{
    if kvs.len() == 0 {
        None
    } else if changelog::table_of(kvs[0].table) is None {
        Some(kvs[0].table)
    } else {
        foreign_table(kvs.skip(1))
    }
}

/// The writes to one table, in order.
pub open spec fn of_table(kvs: Seq<KvView>, table: Table) -> Seq<KvView> {
    kvs.filter(|kv: KvView| kv.table == table.text())
}

/// The writes of a composite entry by table.
pub struct CompositeParts<'a> {
    pub users: Vec<&'a KvData>,
    pub retention: Vec<&'a KvData>,
    pub key_history: Vec<&'a KvData>,
}

proof fn lemma_of_table_next(kvs: Seq<KvView>, i: int, table: Table)
    requires
        0 <= i < kvs.len(),
    ensures
        of_table(kvs.take(i + 1), table) == (if kvs[i].table == table.text() {
            of_table(kvs.take(i), table).push(kvs[i])
        } else {
            of_table(kvs.take(i), table)
        }),
{
    reveal(Seq::filter);
    assert(kvs.take(i + 1).drop_last() =~= kvs.take(i));
    assert(kvs.take(i + 1).last() == kvs[i]);
}

proof fn lemma_kv_views_push(kvs: Seq<&KvData>, kv: &KvData)
    ensures
        grants::kv_views(kvs.push(kv)) == grants::kv_views(kvs).push(kv@),
{
    assert(grants::kv_views(kvs.push(kv)) =~= grants::kv_views(kvs).push(kv@));
}

/// Splits an entry by table; every key must belong to one of the three tables.
pub fn partition_composite_entry<'a>(op: OpType, entry: &'a ChangelogEntry) -> (r: Result<
    CompositeParts<'a>,
    ChangelogError,
>)
    ensures
        match r {
            Ok(parts) => {
                &&& foreign_table(entry.writes()) is None
                &&& grants::kv_views(parts.users@) == of_table(entry.writes(), Table::Users)
                &&& grants::kv_views(parts.retention@) == of_table(
                    entry.writes(),
                    Table::Retention,
                )
                &&& grants::kv_views(parts.key_history@) == of_table(
                    entry.writes(),
                    Table::KeyHistory,
                )
            },
            Err(e) => foreign_table(entry.writes()) is Some && e@ == changelog::refusal_naming(
                op,
                ErrorKind::UnknownTable,
                foreign_table(entry.writes())->0,
            ),
        },
{
    let ghost writes = entry.writes();
    let mut users: Vec<&'a KvData> = Vec::new();
    let mut retention: Vec<&'a KvData> = Vec::new();
    let mut key_history: Vec<&'a KvData> = Vec::new();
    let mut i: usize = 0;
    proof {
        reveal(Seq::filter);
        assert(writes.skip(0) =~= writes);
        assert(writes.take(0) =~= Seq::<KvView>::empty());
        assert(grants::kv_views(users@) =~= Seq::<KvView>::empty());
        assert(of_table(writes.take(0), Table::Users) =~= Seq::<KvView>::empty());
        assert(of_table(writes.take(0), Table::Retention) =~= Seq::<KvView>::empty());
        assert(of_table(writes.take(0), Table::KeyHistory) =~= Seq::<KvView>::empty());
    }
    while i < entry.entries.len()
        invariant
            writes == entry.writes(),
            i <= entry.entries@.len(),
            foreign_table(writes) == foreign_table(writes.skip(i as int)),
            grants::kv_views(users@) == of_table(writes.take(i as int), Table::Users),
            grants::kv_views(retention@) == of_table(writes.take(i as int), Table::Retention),
            grants::kv_views(key_history@) == of_table(
                writes.take(i as int),
                Table::KeyHistory,
            ),
        decreases entry.entries@.len() - i,
    {
        let kv: &'a KvData = &entry.entries[i];
        proof {
            assert(writes[i as int] == kv@);
            assert(writes.skip(i as int)[0] == kv@);
            assert(writes.skip(i as int).skip(1) =~= writes.skip(i + 1));
            lemma_of_table_next(writes, i as int, Table::Users);
            lemma_of_table_next(writes, i as int, Table::Retention);
            lemma_of_table_next(writes, i as int, Table::KeyHistory);
            lemma_kv_views_push(users@, kv);
            lemma_kv_views_push(retention@, kv);
            lemma_kv_views_push(key_history@, kv);
            changelog::lemma_table_of_name(Table::Users);
            changelog::lemma_table_of_name(Table::Retention);
            changelog::lemma_table_of_name(Table::KeyHistory);
        }
        match parse_table(kv.key.table.as_str()) {
            Some(Table::Users) => users.push(kv),
            Some(Table::Retention) => retention.push(kv),
            Some(Table::KeyHistory) => key_history.push(kv),
            None => {
                return Err(
                    ChangelogError::naming(op, ErrorKind::UnknownTable, kv.key.table.as_str()),
                );
            },
        }
        i = i + 1;
    }
    assert(writes.take(i as int) =~= writes);
    Ok(CompositeParts { users, retention, key_history })
}

/// Whether some write is to `column`.
pub open spec fn writes_column(kvs: Seq<KvView>, column: Seq<char>) -> bool {
    exists|i: int| 0 <= i < kvs.len() && #[trigger] kvs[i].column == column
}

/// Whether the written columns are, as a set, those of the schema.
pub open spec fn columns_agree(kvs: Seq<KvView>, schema: Seq<Seq<char>>) -> bool {
    &&& forall|i: int| 0 <= i < schema.len() ==> writes_column(kvs, #[trigger] schema[i])
    &&& forall|i: int| 0 <= i < kvs.len() ==> schema.contains(#[trigger] kvs[i].column)
}

/// The schema's columns that are not written, in the schema's ascending order.
pub open spec fn missing_columns(kvs: Seq<KvView>, schema: Seq<Seq<char>>) -> Seq<Seq<char>> {
    schema.filter(|column: Seq<char>| !writes_column(kvs, column))
}

/// A refusal over columns lists each missing column once, in ascending order:
/// those of the schema that no write is to, and no others.
pub proof fn law_missing_columns_ascend(kvs: Seq<KvView>, schema: Seq<Seq<char>>)
    requires
        text::ascending_texts(schema),
    ensures
        text::ascending_texts(missing_columns(kvs, schema)),
        missing_columns(kvs, schema).no_duplicates(),
        forall|column: Seq<char>| #[trigger]
            missing_columns(kvs, schema).contains(column) <==> schema.contains(column)
                && !writes_column(kvs, column),
{
    let pred = |column: Seq<char>| !writes_column(kvs, column);
    let missing = missing_columns(kvs, schema);
    text::lemma_filter_ascending(schema, pred);
    text::lemma_ascending_no_duplicates(missing);
    assert forall|column: Seq<char>| #[trigger] missing.contains(column) <==> schema.contains(
        column,
    ) && !writes_column(kvs, column) by {
        if missing.contains(column) {
            schema.lemma_filter_contains_rev(pred, column);
            schema.lemma_filter_pred(pred, missing.index_of(column));
        }
        if schema.contains(column) && pred(column) {
            schema.lemma_filter_contains(pred, schema.index_of(column));
        }
    }
}

/// The refusal of writes whose columns are not those of the schema.
pub open spec fn columns_error(
    op: OpType,
    table: Table,
    kvs: Seq<KvView>,
    schema: Seq<Seq<char>>,
) -> Option<ErrorView> {
    if columns_agree(kvs, schema) {
        None
    } else {
        Some(
            ErrorView {
                op,
                kind: ErrorKind::ColumnsDiffer(table),
                names: missing_columns(kvs, schema),
            },
        )
    }
}

/// Whether some write is to `column`.
fn column_written(kvs: &Vec<&KvData>, column: &str) -> (r: bool)
    ensures
        r == writes_column(grants::kv_views(kvs@), column@),
{
    let ghost views = grants::kv_views(kvs@);
    let mut i: usize = 0;
    while i < kvs.len()
        invariant
            views == grants::kv_views(kvs@),
            i <= kvs@.len(),
            forall|j: int| 0 <= j < i ==> #[trigger] views[j].column != column@,
        decreases kvs@.len() - i,
    {
        assert(views[i as int] == kvs@[i as int]@);
        if text_eq(kvs[i].key.column.as_str(), column) {
            assert(views[i as int].column == column@);
            return true;
        }
        i = i + 1;
    }
    false
}

/// The columns of the schema that are not written, ascending.
fn columns_not_written(kvs: &Vec<&KvData>, schema: &ColumnSet) -> (r: Vec<String>)
    ensures
        text::ascending_texts(schema@),
        changelog::texts(r@) == missing_columns(grants::kv_views(kvs@), schema@),
{
    let ghost views = grants::kv_views(kvs@);
    let ghost missing = |column: Seq<char>| !writes_column(views, column);
    let mut out: Vec<String> = Vec::new();
    let mut i: usize = 0;
    proof {
        reveal(Seq::filter);
        assert(changelog::texts(out@) =~= schema@.take(0).filter(missing));
    }
    while i < schema.len()
        invariant
            views == grants::kv_views(kvs@),
            missing == |column: Seq<char>| !writes_column(views, column),
            i <= schema@.len(),
            changelog::texts(out@) == schema@.take(i as int).filter(missing),
        decreases schema@.len() - i,
    {
        proof {
            reveal(Seq::filter);
            assert(schema@.take(i + 1).drop_last() =~= schema@.take(i as int));
        }
        let column = schema.get(i);
        let ghost before = out@;
        if !column_written(kvs, column.as_str()) {
            out.push(column.clone());
            assert(changelog::texts(out@) =~= changelog::texts(before).push(column@));
        }
        i = i + 1;
    }
    assert(schema@.take(i as int) =~= schema@);
    out
}

/// Whether every written column is one of the schema's.
fn columns_known(kvs: &Vec<&KvData>, schema: &ColumnSet) -> (r: bool)
    ensures
        r == forall|i: int|
            0 <= i < kvs@.len() ==> schema@.contains(
                #[trigger] grants::kv_views(kvs@)[i].column,
            ),
{
    let ghost views = grants::kv_views(kvs@);
    let mut i: usize = 0;
    while i < kvs.len()
        invariant
            views == grants::kv_views(kvs@),
            i <= kvs@.len(),
            forall|j: int| 0 <= j < i ==> schema@.contains(#[trigger] views[j].column),
        decreases kvs@.len() - i,
    {
        assert(views[i as int].column == kvs@[i as int].key.column@);
        if !schema.contains(kvs[i].key.column.as_str()) {
            return false;
        }
        i = i + 1;
    }
    true
}

/// The written columns must be, as a set, those of the schema.
pub fn require_schema_columns(
    op: OpType,
    table: Table,
    kvs: &Vec<&KvData>,
    schema: &ColumnSet,
) -> (r: Result<(), ChangelogError>)
    ensures
        match columns_error(op, table, grants::kv_views(kvs@), schema@) {
            Some(error) => r is Err && r->Err_0@ == error && text::ascending_texts(error.names),
            None => r is Ok,
        },
{
    let ghost views = grants::kv_views(kvs@);
    let missing = columns_not_written(kvs, schema);
    let covered = missing.len() == 0;
    proof {
        law_missing_columns_ascend(views, schema@);
        let pred = |column: Seq<char>| !writes_column(views, column);
        let unwritten = missing_columns(views, schema@);
        assert(unwritten.len() == missing@.len());
        if covered {
            assert forall|j: int| 0 <= j < schema@.len() implies writes_column(
                views,
                #[trigger] schema@[j],
            ) by {
                if pred(schema@[j]) {
                    schema@.lemma_filter_contains(pred, j);
                }
            }
        } else {
            schema@.lemma_filter_pred(pred, 0);
            assert(unwritten.contains(unwritten[0]));
            schema@.lemma_filter_contains_rev(pred, unwritten[0]);
        }
    }
    if covered && columns_known(kvs, schema) {
        Ok(())
    } else {
        Err(ChangelogError { op, kind: ErrorKind::ColumnsDiffer(table), names: missing })
    }
}

/// The first write, in order, that does not carry the placeholder row id.
pub open spec fn placeholder_error(op: OpType, kvs: Seq<KvView>) -> Option<ErrorView>
    decreases kvs.len(),
{
    if kvs.len() == 0 {
        None
    } else if kvs[0].row_id != 0 {
        Some(changelog::refusal(op, ErrorKind::NotAPlaceholder { row_id: kvs[0].row_id }))
    } else {
        placeholder_error(op, kvs.skip(1))
    }
}

/// The write of an entry's column to row `row_id`.
pub open spec fn put_column(table: Table, row_id: int, kv: KvView) -> BatchOpView {
    BatchOpView::PutColumn { table, row_id, column: kv.column, value: kv.value }
}

/// The writes of one new member row.
pub open spec fn user_row(kvs: Seq<KvView>, row_id: int) -> Seq<BatchOpView> {
    Seq::new(kvs.len(), |i: int| put_column(Table::Users, row_id, kvs[i]))
}

/// Allocates the next member id and derives the new member's row.
pub open spec fn user_row_step(
    op: OpType,
    reads: Seq<ProvenRead>,
    pos: int,
    kvs: Seq<KvView>,
) -> (Result<(int, Seq<BatchOpView>), ErrorView>, int) {
    match reader::next_id_step(op, reads, pos, Table::Users) {
        (Err(e), p) => (Err(e), p),
        (Ok(row_id), p) => if let Some(e) = placeholder_error(op, kvs) {
            (Err(e), p)
        } else if row_id == i64::MAX {
            (Err(changelog::refusal(op, ErrorKind::NextIdOverflow(Table::Users))), p)
        } else {
            (
                Ok(
                    (
                        row_id as int,
                        user_row(kvs, row_id as int).push(
                            BatchOpView::PutNextId { table: Table::Users, next_id: row_id + 1 },
                        ),
                    ),
                ),
                p,
            )
        },
    }
}

/// The row of the write at position `i` in a chain of rows of `columns`
/// columns each, the first of which gets id `first`.
pub open spec fn chain_row(first: int, i: int, columns: int) -> int {
    first + i / columns
}

/// The writes of a chain of retention rows.
pub open spec fn chain_rows(kvs: Seq<KvView>, first: int, columns: int) -> Seq<BatchOpView> {
    Seq::new(
        kvs.len(),
        |i: int| put_column(Table::Retention, chain_row(first, i, columns), kvs[i]),
    )
}

/// The index entries of a chain of retention rows: one for each write to an
/// indexed column.
pub open spec fn chain_index(
    kvs: Seq<KvView>,
    indexed: Seq<Seq<char>>,
    first: int,
    columns: int,
) -> Seq<BatchOpView>
    decreases kvs.len(),
{
    if kvs.len() == 0 {
        Seq::empty()
    } else {
        let before = chain_index(kvs.drop_last(), indexed, first, columns);
        if indexed.contains(kvs.last().column) {
            before.push(
                BatchOpView::PutIndex {
                    table: Table::Retention,
                    column: kvs.last().column,
                    value: kvs.last().value,
                    row_id: chain_row(first, kvs.len() - 1, columns),
                },
            )
        } else {
            before
        }
    }
}

/// Allocates ids for a chain of retention rows and derives their writes, their
/// index entries and the new counter.
pub open spec fn retention_step(
    op: OpType,
    reads: Seq<ProvenRead>,
    pos: int,
    kvs: Seq<KvView>,
) -> (Result<Seq<BatchOpView>, ErrorView>, int) {
    match reader::columns_step(op, reads, pos, Table::Retention) {
        (Err(e), p) => (Err(e), p),
        (Ok(schema), p) => if let Some(e) = columns_error(op, Table::Retention, kvs, schema) {
            (Err(e), p)
        } else if schema.len() == 0 {
            (Err(changelog::refusal(op, ErrorKind::NoSchemaColumns(Table::Retention))), p)
        } else if kvs.len() % schema.len() != 0 {
            (
                Err(
                    changelog::refusal(
                        op,
                        ErrorKind::RaggedRows {
                            entries: kvs.len() as usize,
                            columns: schema.len() as usize,
                        },
                    ),
                ),
                p,
            )
        } else {
            chain_step(op, reads, p, kvs, schema.len() as int)
        },
    }
}

/// The part of `retention_step` after the columns have been checked.
pub open spec fn chain_step(
    op: OpType,
    reads: Seq<ProvenRead>,
    pos: int,
    kvs: Seq<KvView>,
    columns: int,
) -> (Result<Seq<BatchOpView>, ErrorView>, int) {
    let overflow = changelog::refusal(op, ErrorKind::NextIdOverflow(Table::Retention));
    match reader::next_id_step(op, reads, pos, Table::Retention) {
        (Err(e), p) => (Err(e), p),
        (Ok(first), p) => if let Some(e) = placeholder_error(op, kvs) {
            (Err(e), p)
        } else if chain_row(first as int, kvs.len() - 1, columns) > i64::MAX {
            (Err(overflow), p)
        } else {
            match reader::indexes_step(op, reads, p, Table::Retention) {
                (Err(e), q) => (Err(e), q),
                (Ok(indexed), q) => {
                    let next = chain_row(first as int, kvs.len() as int, columns);
                    if next > i64::MAX {
                        (Err(overflow), q)
                    } else {
                        (
                            Ok(
                                (chain_rows(kvs, first as int, columns) + chain_index(
                                    kvs,
                                    indexed,
                                    first as int,
                                    columns,
                                )).push(
                                    BatchOpView::PutNextId {
                                        table: Table::Retention,
                                        next_id: next,
                                    },
                                ),
                            ),
                            q,
                        )
                    }
                },
            }
        },
    }
}

/// Every write must carry the placeholder row id.
fn require_placeholders(op: OpType, kvs: &Vec<&KvData>) -> (r: Result<(), ChangelogError>)
    ensures
        match placeholder_error(op, grants::kv_views(kvs@)) {
            Some(error) => r is Err && r->Err_0@ == error,
            None => r is Ok,
        },
{
    let ghost views = grants::kv_views(kvs@);
    let mut i: usize = 0;
    assert(views.skip(0) =~= views);
    while i < kvs.len()
        invariant
            views == grants::kv_views(kvs@),
            i <= kvs@.len(),
            placeholder_error(op, views) == placeholder_error(op, views.skip(i as int)),
        decreases kvs@.len() - i,
    {
        assert(views.skip(i as int)[0] == kvs@[i as int]@);
        assert(views.skip(i as int).skip(1) =~= views.skip(i + 1));
        let row_id: i64 = kvs[i].key.row_id;
        if row_id != 0 {
            return Err(ChangelogError::new(op, ErrorKind::NotAPlaceholder { row_id }));
        }
        i = i + 1;
    }
    Ok(())
}

/// Allocates the next member id and derives the new member's row; returns the
/// id and the writes.
pub fn insert_user_row(op: OpType, kvs: &Vec<&KvData>, reader: &mut VerifierReader) -> (r: Result<
    (i64, Vec<BatchOp>),
    ChangelogError,
>)
    ensures
        final(reader).reads == old(reader).reads,
        (
            match r {
                Ok((row_id, ops)) => Ok((row_id as int, changelog::batch_views(ops@))),
                Err(e) => Err(e@),
            },
            final(reader).pos as int,
        ) == user_row_step(
            op,
            old(reader).reads@,
            old(reader).pos as int,
            grants::kv_views(kvs@),
        ),
{
    let ghost views = grants::kv_views(kvs@);
    let row_id: i64 = match reader.read_next_id(op, Table::Users) {
        Ok(row_id) => row_id,
        Err(e) => return Err(e),
    };
    match require_placeholders(op, kvs) {
        Ok(()) => {},
        Err(e) => return Err(e),
    }
    if row_id == i64::MAX {
        return Err(ChangelogError::new(op, ErrorKind::NextIdOverflow(Table::Users)));
    }
    let mut ops: Vec<BatchOp> = Vec::new();
    let mut i: usize = 0;
    while i < kvs.len()
        invariant
            views == grants::kv_views(kvs@),
            i <= kvs@.len(),
            ops@.len() == i,
            forall|j: int|
                0 <= j < i ==> #[trigger] ops@[j]@ == put_column(
                    Table::Users,
                    row_id as int,
                    views[j],
                ),
        decreases kvs@.len() - i,
    {
        ops.push(
            BatchOp::PutColumn {
                table: Table::Users,
                row_id,
                column: kvs[i].key.column.clone(),
                value: kvs[i].value.clone(),
            },
        );
        i = i + 1;
    }
    assert(changelog::batch_views(ops@) =~= user_row(views, row_id as int));
    let bump = BatchOp::PutNextId { table: Table::Users, next_id: row_id + 1 };
    proof {
        changelog::lemma_batch_views_push(ops@, bump);
    }
    ops.push(bump);
    Ok((row_id, ops))
}

/// The id of the row that holds the write at position `i`.
fn chain_row_id(first: i64, i: usize, columns: usize) -> (r: i64)
    requires
        columns > 0,
        chain_row(first as int, i as int, columns as int) <= i64::MAX,
    ensures
        r == chain_row(first as int, i as int, columns as int),
{
    proof {
        vstd::arithmetic::div_mod::lemma_div_pos_is_pos(i as int, columns as int);
    }
    (first as i128 + (i / columns) as i128) as i64
}

/// Derives the writes of a chain of retention rows.
fn put_chain_rows(kvs: &Vec<&KvData>, first: i64, columns: usize) -> (r: Vec<BatchOp>)
    requires
        columns > 0,
        chain_row(first as int, kvs@.len() - 1, columns as int) <= i64::MAX,
    ensures
        changelog::batch_views(r@) == chain_rows(
            grants::kv_views(kvs@),
            first as int,
            columns as int,
        ),
{
    let ghost views = grants::kv_views(kvs@);
    let mut ops: Vec<BatchOp> = Vec::new();
    let mut i: usize = 0;
    while i < kvs.len()
        invariant
            columns > 0,
            chain_row(first as int, kvs@.len() - 1, columns as int) <= i64::MAX,
            views == grants::kv_views(kvs@),
            i <= kvs@.len(),
            ops@.len() == i,
            forall|j: int|
                0 <= j < i ==> #[trigger] ops@[j]@ == put_column(
                    Table::Retention,
                    chain_row(first as int, j, columns as int),
                    views[j],
                ),
        decreases kvs@.len() - i,
    {
        proof {
            vstd::arithmetic::div_mod::lemma_div_is_ordered(
                i as int,
                kvs@.len() - 1,
                columns as int,
            );
        }
        ops.push(
            BatchOp::PutColumn {
                table: Table::Retention,
                row_id: chain_row_id(first, i, columns),
                column: kvs[i].key.column.clone(),
                value: kvs[i].value.clone(),
            },
        );
        i = i + 1;
    }
    assert(changelog::batch_views(ops@) =~= chain_rows(views, first as int, columns as int));
    ops
}

/// Derives the index entries of a chain of retention rows.
fn put_chain_index(kvs: &Vec<&KvData>, indexed: &ColumnSet, first: i64, columns: usize) -> (r: Vec<
    BatchOp,
>)
    requires
        columns > 0,
        chain_row(first as int, kvs@.len() - 1, columns as int) <= i64::MAX,
    ensures
        changelog::batch_views(r@) == chain_index(
            grants::kv_views(kvs@),
            indexed@,
            first as int,
            columns as int,
        ),
{
    let ghost views = grants::kv_views(kvs@);
    let mut ops: Vec<BatchOp> = Vec::new();
    let mut i: usize = 0;
    assert(changelog::batch_views(ops@) =~= Seq::<BatchOpView>::empty());
    while i < kvs.len()
        invariant
            columns > 0,
            chain_row(first as int, kvs@.len() - 1, columns as int) <= i64::MAX,
            views == grants::kv_views(kvs@),
            i <= kvs@.len(),
            changelog::batch_views(ops@) == chain_index(
                views.take(i as int),
                indexed@,
                first as int,
                columns as int,
            ),
        decreases kvs@.len() - i,
    {
        proof {
            vstd::arithmetic::div_mod::lemma_div_is_ordered(
                i as int,
                kvs@.len() - 1,
                columns as int,
            );
            assert(views.take(i + 1).drop_last() =~= views.take(i as int));
            assert(views.take(i + 1).last() == kvs@[i as int]@);
        }
        if indexed.contains(kvs[i].key.column.as_str()) {
            let put = BatchOp::PutIndex {
                table: Table::Retention,
                column: kvs[i].key.column.clone(),
                value: kvs[i].value.clone(),
                row_id: chain_row_id(first, i, columns),
            };
            proof {
                changelog::lemma_batch_views_push(ops@, put);
            }
            ops.push(put);
        }
        i = i + 1;
    }
    assert(views.take(i as int) =~= views);
    ops
}

/// Allocates ids for a chain of retention rows whose columns have been checked
/// and derives their writes, their index entries and the new counter.
fn insert_chain(op: OpType, kvs: &Vec<&KvData>, columns: usize, reader: &mut VerifierReader) -> (r:
    Result<Vec<BatchOp>, ChangelogError>)
    requires
        columns > 0,
    ensures
        final(reader).reads == old(reader).reads,
        (
            match r {
                Ok(ops) => Ok(changelog::batch_views(ops@)),
                Err(e) => Err(e@),
            },
            final(reader).pos as int,
        ) == chain_step(
            op,
            old(reader).reads@,
            old(reader).pos as int,
            grants::kv_views(kvs@),
            columns as int,
        ),
{
    let first: i64 = match reader.read_next_id(op, Table::Retention) {
        Ok(first) => first,
        Err(e) => return Err(e),
    };
    match require_placeholders(op, kvs) {
        Ok(()) => {},
        Err(e) => return Err(e),
    }
    let len: usize = kvs.len();
    proof {
        vstd::arithmetic::div_mod::lemma_div_is_ordered(len - 1, len as int, columns as int);
        vstd::arithmetic::div_mod::lemma_div_pos_is_pos(len as int, columns as int);
    }
    let next: i128 = first as i128 + (len / columns) as i128;
    if len > 0 {
        let last: i128 = first as i128 + ((len - 1) / columns) as i128;
        if last > i64::MAX as i128 {
            return Err(ChangelogError::new(op, ErrorKind::NextIdOverflow(Table::Retention)));
        }
    }
    let indexed = match reader.read_schema_indexes(op, Table::Retention) {
        Ok(indexed) => indexed,
        Err(e) => return Err(e),
    };
    if next > i64::MAX as i128 {
        return Err(ChangelogError::new(op, ErrorKind::NextIdOverflow(Table::Retention)));
    }
    let mut ops = put_chain_rows(kvs, first, columns);
    let mut index = match indexed {
        Some(indexed) => put_chain_index(kvs, indexed, first, columns),
        None => put_chain_index(kvs, &ColumnSet::new(), first, columns),
    };
    proof {
        changelog::lemma_batch_views_append(ops@, index@);
    }
    ops.append(&mut index);
    let bump = BatchOp::PutNextId { table: Table::Retention, next_id: next as i64 };
    proof {
        changelog::lemma_batch_views_push(ops@, bump);
    }
    ops.push(bump);
    Ok(ops)
}

/// Checks the columns of a chain of retention rows against the schema,
/// allocates their ids and derives their writes, their index entries and the
/// new counter.
pub fn insert_retention_rows(op: OpType, kvs: &Vec<&KvData>, reader: &mut VerifierReader) -> (r:
    Result<Vec<BatchOp>, ChangelogError>)
    ensures
        final(reader).reads == old(reader).reads,
        (
            match r {
                Ok(ops) => Ok(changelog::batch_views(ops@)),
                Err(e) => Err(e@),
            },
            final(reader).pos as int,
        ) == retention_step(
            op,
            old(reader).reads@,
            old(reader).pos as int,
            grants::kv_views(kvs@),
        ),
{
    let schema = match reader.read_schema_columns(op, Table::Retention) {
        Ok(schema) => schema,
        Err(e) => return Err(e),
    };
    match require_schema_columns(op, Table::Retention, kvs, schema) {
        Ok(()) => {},
        Err(e) => return Err(e),
    }
    let columns: usize = schema.len();
    if columns == 0 {
        return Err(ChangelogError::new(op, ErrorKind::NoSchemaColumns(Table::Retention)));
    }
    if kvs.len() % columns != 0 {
        return Err(
            ChangelogError::new(op, ErrorKind::RaggedRows { entries: kvs.len(), columns }),
        );
    }
    insert_chain(op, kvs, columns, reader)
}

} // verus!
