//! What holds of the rows that an accepted entry inserts: which entries are
//! taken, which row each write goes to, and what is refused.

use crate::changelog;
use crate::changelog::{
    BatchOpView, ErrorKind, ErrorView, KvView, OpType, ProvenRead, ReadOp, ReadValue, StoredValue,
    Table,
};
use crate::channel_grant;
use crate::ops::grants;
use crate::ops::reader;
use crate::ops::rows;
use crate::text;
use vstd::prelude::*;
use vstd::string::*;

verus! {

/// The name that entries give a table.
pub open spec fn table_name(table: Table) -> Seq<char> {
    match table {
        Table::Users => "_users"@,
        Table::Retention => "_retention"@,
        Table::KeyHistory => "_key_history"@,
    }
}

/// Whether a name is that of one of the tables.
pub open spec fn is_table_name(name: Seq<char>) -> bool {
    name == "_users"@ || name == "_retention"@ || name == "_key_history"@
}

/// Tables are told by their names, and no two share one.
pub proof fn law_tables_are_told_by_name(name: Seq<char>, table: Table)
    ensures
        table.text() == table_name(table),
        changelog::table_of(name) == Some(table) <==> name == table_name(table),
        changelog::table_of(name) is Some <==> is_table_name(name),
{
    changelog::lemma_table_of_name(table);
}

/// The writes of an entry to one table, in the entry's order.
pub open spec fn part(kvs: Seq<KvView>, table: Table) -> Seq<KvView> {
    kvs.filter(|kv: KvView| kv.table == table_name(table))
}

/// An entry is split by the names of the tables.
pub proof fn law_entry_is_split_by_table(kvs: Seq<KvView>, table: Table)
    ensures
        rows::of_table(kvs, table) == part(kvs, table),
{
    let a = |kv: KvView| kv.table == table.text();
    let b = |kv: KvView| kv.table == table_name(table);
    assert(a =~= b);
}

/// A foreign table is reported exactly where an entry writes to one, and then
/// the first of them.
pub proof fn law_first_foreign_table_is_reported(kvs: Seq<KvView>)
    ensures
        match rows::foreign_table(kvs) {
            Some(name) => exists|i: int|
                {
                    &&& 0 <= i < kvs.len()
                    &&& (#[trigger] kvs[i]).table == name
                    &&& !is_table_name(name)
                    &&& forall|j: int| 0 <= j < i ==> is_table_name((#[trigger] kvs[j]).table)
                },
            None => forall|j: int| 0 <= j < kvs.len() ==> is_table_name((#[trigger] kvs[j]).table),
        },
    decreases kvs.len(),
{
    if kvs.len() > 0 {
        let rest = kvs.skip(1);
        law_first_foreign_table_is_reported(rest);
        law_tables_are_told_by_name(kvs[0].table, Table::Users);
        if changelog::table_of(kvs[0].table) is Some {
            match rows::foreign_table(rest) {
                Some(name) => {
                    let i = choose|i: int|
                        {
                            &&& 0 <= i < rest.len()
                            &&& (#[trigger] rest[i]).table == name
                            &&& !is_table_name(name)
                            &&& forall|j: int|
                                0 <= j < i ==> is_table_name((#[trigger] rest[j]).table)
                        };
                    assert(kvs[i + 1] == rest[i]);
                    assert forall|j: int| 0 <= j < i + 1 implies is_table_name(
                        (#[trigger] kvs[j]).table,
                    ) by {
                        if j > 0 {
                            assert(kvs[j] == rest[j - 1]);
                        }
                    }
                },
                None => {
                    assert forall|j: int| 0 <= j < kvs.len() implies is_table_name(
                        (#[trigger] kvs[j]).table,
                    ) by {
                        if j > 0 {
                            assert(kvs[j] == rest[j - 1]);
                        }
                    }
                },
            }
        }
    }
}

/// Whether some write is to this column.
pub open spec fn gives_column(kvs: Seq<KvView>, column: Seq<char>) -> bool {
    exists|i: int| 0 <= i < kvs.len() && (#[trigger] kvs[i]).column == column
}

/// Whether the written columns are, as a set, those of the schema.
pub open spec fn same_columns(kvs: Seq<KvView>, schema: Seq<Seq<char>>) -> bool {
    forall|column: Seq<char>| #[trigger] schema.contains(column) <==> gives_column(kvs, column)
}

/// Columns are refused exactly where the set of those written is not that of the
/// schema, and the refusal names those of the schema that are not written.
pub proof fn law_columns_must_be_those_of_the_schema(
    op: OpType,
    table: Table,
    kvs: Seq<KvView>,
    schema: Seq<Seq<char>>,
)
    ensures
        match rows::columns_error(op, table, kvs, schema) {
            None => same_columns(kvs, schema),
            Some(e) => {
                &&& !same_columns(kvs, schema)
                &&& e.op == op
                &&& e.kind == ErrorKind::ColumnsDiffer(table)
                &&& forall|column: Seq<char>| #[trigger]
                    e.names.contains(column) <==> schema.contains(column) && !gives_column(
                        kvs,
                        column,
                    )
                &&& text::ascending_texts(schema) ==> text::ascending_texts(e.names)
            },
        },
{
    let missing = rows::missing_columns(kvs, schema);
    let pred = |column: Seq<char>| !rows::writes_column(kvs, column);
    assert forall|column: Seq<char>| gives_column(kvs, column) == #[trigger] rows::writes_column(
        kvs,
        column,
    ) by {}
    assert forall|column: Seq<char>| #[trigger] missing.contains(column) <==> schema.contains(
        column,
    ) && !gives_column(kvs, column) by {
        if missing.contains(column) {
            schema.lemma_filter_contains_rev(pred, column);
            schema.lemma_filter_pred(pred, missing.index_of(column));
            assert(!rows::writes_column(kvs, column));
        }
        if schema.contains(column) && !gives_column(kvs, column) {
            assert(pred(column));
            schema.lemma_filter_contains(pred, schema.index_of(column));
        }
    }
    if text::ascending_texts(schema) {
        text::lemma_filter_ascending(schema, pred);
    }
    if rows::columns_agree(kvs, schema) {
        assert forall|column: Seq<char>| #[trigger] schema.contains(column) <==> gives_column(
            kvs,
            column,
        ) by {
            if schema.contains(column) {
                assert(rows::writes_column(kvs, schema[schema.index_of(column)]));
            }
            if gives_column(kvs, column) {
                let i = choose|i: int| 0 <= i < kvs.len() && (#[trigger] kvs[i]).column == column;
                assert(schema.contains(kvs[i].column));
            }
        }
    } else if same_columns(kvs, schema) {
        assert forall|i: int| 0 <= i < schema.len() implies rows::writes_column(
            kvs,
            #[trigger] schema[i],
        ) by {
            assert(schema.contains(schema[i]));
        }
        assert forall|i: int| 0 <= i < kvs.len() implies schema.contains(
            #[trigger] kvs[i].column,
        ) by {
            assert(gives_column(kvs, kvs[i].column));
        }
    }
}

/// Whether every write carries the placeholder row id.
pub open spec fn all_placeholders(kvs: Seq<KvView>) -> bool {
    forall|i: int| 0 <= i < kvs.len() ==> (#[trigger] kvs[i]).row_id == 0
}

/// Writes must carry the placeholder row id; the first that does not is reported
/// with the id that it carries.
pub proof fn law_first_row_id_is_reported(op: OpType, kvs: Seq<KvView>)
    ensures
        match rows::placeholder_error(op, kvs) {
            None => all_placeholders(kvs),
            Some(e) => exists|i: int|
                {
                    &&& 0 <= i < kvs.len()
                    &&& (#[trigger] kvs[i]).row_id != 0
                    &&& e.op == op
                    &&& e.kind == (ErrorKind::NotAPlaceholder { row_id: kvs[i].row_id })
                    &&& e.names.len() == 0
                    &&& forall|j: int| 0 <= j < i ==> (#[trigger] kvs[j]).row_id == 0
                },
        },
    decreases kvs.len(),
{
    if kvs.len() > 0 {
        let rest = kvs.skip(1);
        law_first_row_id_is_reported(op, rest);
        if kvs[0].row_id == 0 {
            match rows::placeholder_error(op, rest) {
                None => {
                    assert forall|i: int| 0 <= i < kvs.len() implies (#[trigger] kvs[i]).row_id
                        == 0 by {
                        if i > 0 {
                            assert(kvs[i] == rest[i - 1]);
                        }
                    }
                },
                Some(e) => {
                    let i = choose|i: int|
                        {
                            &&& 0 <= i < rest.len()
                            &&& (#[trigger] rest[i]).row_id != 0
                            &&& e.op == op
                            &&& e.kind == (ErrorKind::NotAPlaceholder { row_id: rest[i].row_id })
                            &&& e.names.len() == 0
                            &&& forall|j: int| 0 <= j < i ==> (#[trigger] rest[j]).row_id == 0
                        };
                    assert(kvs[i + 1] == rest[i]);
                    assert forall|j: int| 0 <= j < i + 1 implies (#[trigger] kvs[j]).row_id
                        == 0 by {
                        if j > 0 {
                            assert(kvs[j] == rest[j - 1]);
                        }
                    }
                },
            }
        }
    }
}

/// Whether the read at `i` is of the column names of `table` and found them.
pub open spec fn reads_columns(reads: Seq<ProvenRead>, i: int, table: Table) -> bool {
    &&& 0 <= i < reads.len()
    &&& reads[i].op == ReadOp::SchemaColumns(table)
    &&& reads[i].results@.len() > 0
    &&& reads[i].results@[0] is Columns
}

/// The column names that the read at `i` found.
pub open spec fn columns_at(reads: Seq<ProvenRead>, i: int) -> Seq<Seq<char>> {
    reads[i].results@[0]->Columns_0@
}

/// Whether the read at `i` is of the row counter of `table` and found it.
pub open spec fn reads_counter(reads: Seq<ProvenRead>, i: int, table: Table) -> bool {
    &&& 0 <= i < reads.len()
    &&& reads[i].op == ReadOp::SchemaNextId(table)
    &&& reads[i].results@.len() > 0
    &&& reads[i].results@[0] is Counter
}

/// The row counter that the read at `i` found.
pub open spec fn counter_read(reads: Seq<ProvenRead>, i: int) -> int {
    reads[i].results@[0]->Counter_0 as int
}

/// Whether the read at `i` is of the indexed columns of `table`, of which there
/// may be none.
pub open spec fn reads_indexes(reads: Seq<ProvenRead>, i: int, table: Table) -> bool {
    &&& 0 <= i < reads.len()
    &&& reads[i].op == ReadOp::SchemaIndexes(table)
    &&& reads[i].results@.len() > 0 ==> reads[i].results@[0] is Columns
}

/// Whether the read at `i` found that `column` is indexed.
pub open spec fn is_indexed(reads: Seq<ProvenRead>, i: int, column: Seq<char>) -> bool {
    reads[i].results@.len() > 0 && reads[i].results@[0]->Columns_0@.contains(column)
}

/// Whether the read at `i` found that user `uid` has this status.
pub open spec fn reads_status(reads: Seq<ProvenRead>, i: int, uid: int, status: i64) -> bool {
    &&& 0 <= i < reads.len()
    &&& reads[i].op == ReadOp::UserStatus(uid as i64)
    &&& reads[i].results@.len() > 0
    &&& reads[i].results@[0] == ReadValue::Stored(StoredValue::Integer(status))
}

/// What is taken from the reads of a proof is what the read at that position
/// found, where it is the read that was asked for; exactly one read is used up.
pub proof fn law_reads_are_taken_in_order(
    op: OpType,
    reads: Seq<ProvenRead>,
    pos: int,
    table: Table,
    uid: int,
)
    requires
        0 <= pos,
    ensures
        reader::columns_step(op, reads, pos, table).0 is Ok <==> reads_columns(reads, pos, table),
        reads_columns(reads, pos, table) ==> reader::columns_step(op, reads, pos, table) == (
            Ok::<Seq<Seq<char>>, ErrorView>(columns_at(reads, pos)),
            pos + 1,
        ),
        reader::next_id_step(op, reads, pos, table).0 is Ok <==> reads_counter(reads, pos, table),
        reads_counter(reads, pos, table) ==> {
            &&& reader::next_id_step(op, reads, pos, table).0->Ok_0 == counter_read(reads, pos)
            &&& reader::next_id_step(op, reads, pos, table).1 == pos + 1
        },
        reader::indexes_step(op, reads, pos, table).0 is Ok <==> reads_indexes(reads, pos, table),
        reads_indexes(reads, pos, table) ==> {
            &&& forall|column: Seq<char>| #[trigger]
                reader::indexes_step(op, reads, pos, table).0->Ok_0.contains(column)
                    <==> is_indexed(reads, pos, column)
            &&& reader::indexes_step(op, reads, pos, table).1 == pos + 1
        },
        forall|status: i64| #[trigger]
            reads_status(reads, pos, uid, status) <==> reader::status_step(op, reads, pos, uid).0
                == Ok::<Option<i64>, ErrorView>(Some(status)),
        reader::status_step(op, reads, pos, uid).0 == Ok::<Option<i64>, ErrorView>(None) <==> {
            &&& pos < reads.len()
            &&& reads[pos].op == ReadOp::UserStatus(uid as i64)
            &&& reads[pos].results@.len() == 0
        },
        reader::status_step(op, reads, pos, uid).0 is Ok ==> reader::status_step(
            op,
            reads,
            pos,
            uid,
        ).1 == pos + 1,
{
}

/// The position, in a chain of rows of `columns` columns each, that `row` has:
/// the write at `i` is one of row `row` of the chain.
pub open spec fn is_in_row(i: int, row: int, columns: int) -> bool {
    columns * row <= i < columns * (row + 1)
}

proof fn lemma_row_of(i: int, columns: int)
    requires
        0 <= i,
        columns > 0,
    ensures
        is_in_row(i, i / columns, columns),
        forall|row: int| #[trigger] is_in_row(i, row, columns) ==> row == i / columns,
        0 <= i / columns,
{
    vstd::arithmetic::div_mod::lemma_fundamental_div_mod(i, columns);
    vstd::arithmetic::div_mod::lemma_div_pos_is_pos(i, columns);
    let q = i / columns;
    assert(columns * (q + 1) == columns * q + columns) by (nonlinear_arith);
    assert forall|row: int| #[trigger] is_in_row(i, row, columns) implies row == q by {
        assert(columns * (row + 1) == columns * row + columns) by (nonlinear_arith);
        if row < q {
            assert(columns * (row + 1) <= columns * q) by (nonlinear_arith)
                requires
                    columns > 0,
                    row + 1 <= q,
            ;
        }
        if row > q {
            assert(columns * (q + 1) <= columns * row) by (nonlinear_arith)
                requires
                    columns > 0,
                    q + 1 <= row,
            ;
        }
    }
}

/// Whether `at` lists the writes to indexed columns, in order and each once.
pub open spec fn lists_indexed(
    at: Seq<int>,
    kvs: Seq<KvView>,
    indexed: spec_fn(Seq<char>) -> bool,
) -> bool {
    &&& forall|k: int| 0 <= k < at.len() ==> 0 <= #[trigger] at[k] < kvs.len()
    &&& forall|k: int, l: int| 0 <= k < l < at.len() ==> at[k] < at[l]
    &&& forall|i: int|
        0 <= i < kvs.len() ==> (indexed((#[trigger] kvs[i]).column) <==> at.contains(i))
}

/// Whether a batch writes a chain of retention rows with ids from `first` on, of
/// `columns` columns each: every write of the entry, unchanged and in order, to
/// the row that it belongs to; one index entry for each write to an indexed
/// column, with its value and with the row that the write went to; and the row
/// counter, moved on by the number of rows.
pub open spec fn writes_chain(
    ops: Seq<BatchOpView>,
    kvs: Seq<KvView>,
    first: int,
    columns: int,
    indexed: spec_fn(Seq<char>) -> bool,
) -> bool {
    exists|at: Seq<int>|
        {
            let n = kvs.len() as int;
            &&& #[trigger] lists_indexed(at, kvs, indexed)
            &&& ops.len() == n + at.len() + 1
            &&& forall|i: int|
                0 <= i < n ==> {
                    &&& (#[trigger] ops[i]) is PutColumn
                    &&& ops[i]->PutColumn_table == Table::Retention
                    &&& ops[i]->PutColumn_column == kvs[i].column
                    &&& ops[i]->PutColumn_value == kvs[i].value
                    &&& is_in_row(i, ops[i]->PutColumn_row_id - first, columns)
                }
            &&& forall|k: int|
                0 <= k < at.len() ==> ops[n + k] == (BatchOpView::PutIndex {
                    table: Table::Retention,
                    column: kvs[#[trigger] at[k]].column,
                    value: kvs[at[k]].value,
                    row_id: ops[at[k]]->PutColumn_row_id,
                })
            &&& ops.last() is PutNextId
            &&& ops.last()->PutNextId_table == Table::Retention
            &&& columns * (ops.last()->PutNextId_next_id - first) == n
        }
}

spec fn indexed_at(kvs: Seq<KvView>, indexed: Seq<Seq<char>>) -> Seq<int>
    decreases kvs.len(),
{
    if kvs.len() == 0 {
        Seq::empty()
    } else {
        let before = indexed_at(kvs.drop_last(), indexed);
        if indexed.contains(kvs.last().column) {
            before.push(kvs.len() - 1)
        } else {
            before
        }
    }
}

proof fn lemma_indexed_at(kvs: Seq<KvView>, indexed: Seq<Seq<char>>, first: int, columns: int)
    ensures
        ({
            let at = indexed_at(kvs, indexed);
            let index = rows::chain_index(kvs, indexed, first, columns);
            &&& lists_indexed(at, kvs, |column: Seq<char>| indexed.contains(column))
            &&& index.len() == at.len()
            &&& forall|k: int|
                0 <= k < at.len() ==> index[k] == (BatchOpView::PutIndex {
                    table: Table::Retention,
                    column: kvs[#[trigger] at[k]].column,
                    value: kvs[at[k]].value,
                    row_id: first + at[k] / columns,
                })
        }),
    decreases kvs.len(),
{
    let at = indexed_at(kvs, indexed);
    let index = rows::chain_index(kvs, indexed, first, columns);
    if kvs.len() > 0 {
        let rest = kvs.drop_last();
        let last = kvs.len() - 1;
        lemma_indexed_at(rest, indexed, first, columns);
        let before = indexed_at(rest, indexed);
        assert(kvs[last] == kvs.last());
        assert forall|k: int| 0 <= k < before.len() implies at[k] == #[trigger] before[k] && 0
            <= before[k] < rest.len() by {}
        assert forall|k: int| 0 <= k < at.len() implies 0 <= #[trigger] at[k] < kvs.len() by {
            if k < before.len() {
                assert(0 <= before[k] < rest.len());
            }
        }
        assert forall|k: int, l: int| 0 <= k < l < at.len() implies at[k] < at[l] by {
            assert(at[k] == before[k]);
            if l < before.len() {
                assert(at[l] == before[l]);
            }
        }
        assert forall|i: int| 0 <= i < kvs.len() implies (indexed.contains(
            (#[trigger] kvs[i]).column,
        ) <==> at.contains(i)) by {
            if i < last {
                assert(rest[i] == kvs[i]);
                if before.contains(i) {
                    assert(at[before.index_of(i)] == i);
                }
                if at.contains(i) {
                    let k = at.index_of(i);
                    assert(k < before.len());
                    assert(before[k] == i);
                }
            } else {
                if indexed.contains(kvs.last().column) {
                    assert(at[before.len() as int] == last);
                }
                if at.contains(i) {
                    let k = at.index_of(i);
                    if k < before.len() {
                        assert(before[k] == i);
                    }
                }
            }
        }
        assert forall|k: int| 0 <= k < at.len() implies index[k] == (BatchOpView::PutIndex {
            table: Table::Retention,
            column: kvs[#[trigger] at[k]].column,
            value: kvs[at[k]].value,
            row_id: first + at[k] / columns,
        }) by {
            if k < before.len() {
                assert(at[k] == before[k]);
                assert(rest[before[k]] == kvs[before[k]]);
            }
        }
    }
}

/// Whether the reads from `pos` on, and the entry's retention writes, are those
/// of a chain of rows that can be inserted.
pub open spec fn fits_chain(reads: Seq<ProvenRead>, pos: int, kvs: Seq<KvView>) -> bool {
    let columns = columns_at(reads, pos).len() as int;
    &&& reads_columns(reads, pos, Table::Retention)
    &&& reads_counter(reads, pos + 1, Table::Retention)
    &&& reads_indexes(reads, pos + 2, Table::Retention)
    &&& same_columns(kvs, columns_at(reads, pos))
    &&& columns > 0
    &&& kvs.len() as int % columns == 0
    &&& all_placeholders(kvs)
    &&& counter_read(reads, pos + 1) + kvs.len() as int / columns <= i64::MAX
}

/// A chain of retention rows is taken exactly where the proof holds the schema's
/// columns, the counter and the indexed columns in this order, the columns are
/// those of the schema, the rows are whole, all writes carry the placeholder,
/// and the counter can be moved past the rows. It is then written row by row.
pub proof fn law_retention_rows_are_written_in_sequence(
    op: OpType,
    reads: Seq<ProvenRead>,
    pos: int,
    kvs: Seq<KvView>,
)
    requires
        0 <= pos,
    ensures
        rows::retention_step(op, reads, pos, kvs).0 is Ok <==> fits_chain(reads, pos, kvs),
        fits_chain(reads, pos, kvs) ==> {
            &&& rows::retention_step(op, reads, pos, kvs).1 == pos + 3
            &&& writes_chain(
                rows::retention_step(op, reads, pos, kvs).0->Ok_0,
                kvs,
                counter_read(reads, pos + 1),
                columns_at(reads, pos).len() as int,
                |column: Seq<char>| is_indexed(reads, pos + 2, column),
            )
        },
{
    let table = Table::Retention;
    law_reads_are_taken_in_order(op, reads, pos, table, 0);
    law_reads_are_taken_in_order(op, reads, pos + 1, table, 0);
    law_reads_are_taken_in_order(op, reads, pos + 2, table, 0);
    law_first_row_id_is_reported(op, kvs);
    let n = kvs.len() as int;
    if reads_columns(reads, pos, table) {
        let schema = columns_at(reads, pos);
        let columns = schema.len() as int;
        law_columns_must_be_those_of_the_schema(op, table, kvs, schema);
        if columns > 0 && reads_counter(reads, pos + 1, table) {
            vstd::arithmetic::div_mod::lemma_div_is_ordered(n - 1, n, columns);
        }
        if fits_chain(reads, pos, kvs) {
            let first = counter_read(reads, pos + 1);
            let indexed = reader::indexes_step(op, reads, pos + 2, table).0->Ok_0;
            let ops = rows::retention_step(op, reads, pos, kvs).0->Ok_0;
            let column_ops = rows::chain_rows(kvs, first, columns);
            let index_ops = rows::chain_index(kvs, indexed, first, columns);
            let at = indexed_at(kvs, indexed);
            lemma_indexed_at(kvs, indexed, first, columns);
            let pred = |column: Seq<char>| is_indexed(reads, pos + 2, column);
            assert(lists_indexed(at, kvs, pred)) by {
                assert forall|i: int| 0 <= i < kvs.len() implies (pred(
                    (#[trigger] kvs[i]).column,
                ) <==> at.contains(i)) by {
                    assert(indexed.contains(kvs[i].column) <==> is_indexed(
                        reads,
                        pos + 2,
                        kvs[i].column,
                    ));
                }
            }
            assert(ops == (column_ops + index_ops).push(
                BatchOpView::PutNextId { table, next_id: first + n / columns },
            ));
            assert forall|i: int| 0 <= i < n implies {
                &&& (#[trigger] ops[i]) is PutColumn
                &&& ops[i]->PutColumn_table == Table::Retention
                &&& ops[i]->PutColumn_column == kvs[i].column
                &&& ops[i]->PutColumn_value == kvs[i].value
                &&& ops[i]->PutColumn_row_id == first + i / columns
                &&& is_in_row(i, ops[i]->PutColumn_row_id - first, columns)
            } by {
                assert(ops[i] == column_ops[i]);
                lemma_row_of(i, columns);
            }
            assert forall|k: int| 0 <= k < at.len() implies ops[n + k] == (BatchOpView::PutIndex {
                table: Table::Retention,
                column: kvs[#[trigger] at[k]].column,
                value: kvs[at[k]].value,
                row_id: ops[at[k]]->PutColumn_row_id,
            }) by {
                assert(ops[n + k] == index_ops[k]);
                assert(0 <= at[k] < n);
            }
            vstd::arithmetic::div_mod::lemma_fundamental_div_mod(n, columns);
            assert(ops.last() == BatchOpView::PutNextId { table, next_id: first + n / columns });
            assert(writes_chain(ops, kvs, first, columns, pred));
        }
    }
}

/// Writes of one row share its id, writes of different rows have different ids,
/// and where no row of the entry gives a column twice, no cell is written twice.
pub proof fn law_no_cell_is_written_twice(
    ops: Seq<BatchOpView>,
    kvs: Seq<KvView>,
    first: int,
    columns: int,
    indexed: spec_fn(Seq<char>) -> bool,
)
    requires
        columns > 0,
        writes_chain(ops, kvs, first, columns, indexed),
    ensures
        forall|i: int, j: int|
            #![trigger ops[i], ops[j]]
            0 <= i < kvs.len() && 0 <= j < kvs.len() ==> (ops[i]->PutColumn_row_id
                == ops[j]->PutColumn_row_id <==> exists|row: int| #[trigger]
                is_in_row(i, row, columns) && is_in_row(j, row, columns)),
        (forall|i: int, j: int, row: int|
            #![trigger is_in_row(i, row, columns), is_in_row(j, row, columns)]
            0 <= i < j < kvs.len() && is_in_row(i, row, columns) && is_in_row(j, row, columns)
                ==> kvs[i].column != kvs[j].column) ==> forall|i: int, j: int|
            #![trigger ops[i], ops[j]]
            0 <= i < j < kvs.len() ==> ops[i]->PutColumn_row_id != ops[j]->PutColumn_row_id
                || ops[i]->PutColumn_column != ops[j]->PutColumn_column,
{
    assert forall|i: int, j: int|
        #![trigger ops[i], ops[j]]
        0 <= i < kvs.len() && 0 <= j < kvs.len() implies (ops[i]->PutColumn_row_id
        == ops[j]->PutColumn_row_id <==> exists|row: int| #[trigger]
        is_in_row(i, row, columns) && is_in_row(j, row, columns)) by {
        lemma_row_of(i, columns);
        lemma_row_of(j, columns);
        assert(is_in_row(i, ops[i]->PutColumn_row_id - first, columns));
        assert(is_in_row(j, ops[j]->PutColumn_row_id - first, columns));
    }
    if forall|i: int, j: int, row: int|
        #![trigger is_in_row(i, row, columns), is_in_row(j, row, columns)]
        0 <= i < j < kvs.len() && is_in_row(i, row, columns) && is_in_row(j, row, columns)
            ==> kvs[i].column != kvs[j].column {
        assert forall|i: int, j: int|
            #![trigger ops[i], ops[j]]
            0 <= i < j < kvs.len() implies ops[i]->PutColumn_row_id != ops[j]->PutColumn_row_id
            || ops[i]->PutColumn_column != ops[j]->PutColumn_column by {
            assert(is_in_row(i, ops[i]->PutColumn_row_id - first, columns));
            assert(is_in_row(j, ops[j]->PutColumn_row_id - first, columns));
        }
    }
}

/// Whether a batch writes one member row: every write of the entry, unchanged
/// and in order, to row `row_id`, and the members counter, moved on by one.
pub open spec fn writes_member(ops: Seq<BatchOpView>, kvs: Seq<KvView>, row_id: int) -> bool {
    &&& ops.len() == kvs.len() + 1
    &&& forall|i: int|
        0 <= i < kvs.len() ==> #[trigger] ops[i] == (BatchOpView::PutColumn {
            table: Table::Users,
            row_id,
            column: kvs[i].column,
            value: kvs[i].value,
        })
    &&& ops.last() == (BatchOpView::PutNextId { table: Table::Users, next_id: row_id + 1 })
}

/// Whether the read at `pos` and the writes of an entry are those of a member
/// row that can be inserted.
pub open spec fn fits_member(reads: Seq<ProvenRead>, pos: int, kvs: Seq<KvView>) -> bool {
    &&& reads_counter(reads, pos, Table::Users)
    &&& all_placeholders(kvs)
    &&& counter_read(reads, pos) < i64::MAX
}

/// A member row is taken exactly where the proof holds the members counter, all
/// writes carry the placeholder, and the counter can be moved on. The member
/// then gets the counter's value as its id.
pub proof fn law_member_gets_the_next_id(
    op: OpType,
    reads: Seq<ProvenRead>,
    pos: int,
    kvs: Seq<KvView>,
)
    requires
        0 <= pos,
    ensures
        rows::user_row_step(op, reads, pos, kvs).0 is Ok <==> fits_member(reads, pos, kvs),
        fits_member(reads, pos, kvs) ==> {
            &&& rows::user_row_step(op, reads, pos, kvs).1 == pos + 1
            &&& rows::user_row_step(op, reads, pos, kvs).0->Ok_0.0 == counter_read(reads, pos)
            &&& writes_member(
                rows::user_row_step(op, reads, pos, kvs).0->Ok_0.1,
                kvs,
                counter_read(reads, pos),
            )
        },
{
    law_reads_are_taken_in_order(op, reads, pos, Table::Users, 0);
    law_first_row_id_is_reported(op, kvs);
}

/// Whether a write is the key of a channel-grant row.
pub open spec fn names_grant(kv: KvView) -> bool {
    &&& kv.column == "key"@
    &&& kv.value is Text
    &&& exists|rest: Seq<char>| kv.value->Text_0 == #[trigger] ("sl2/channel_grant/"@ + rest)
}

/// Whether a key is the canonical spelling of the grant of a channel to a user.
pub open spec fn spells_grant(key: Seq<char>, uid: i64, channel: i64) -> bool {
    &&& uid >= 0
    &&& channel >= 0
    &&& key == "sl2/channel_grant/"@ + text::int_text(uid as int) + "/"@ + text::int_text(
        channel as int,
    )
}

/// Grants are recognised by the key's beginning alone, so that no spelling of
/// one escapes.
pub proof fn law_grants_are_recognised(kv: KvView)
    ensures
        grants::is_grant(kv) <==> names_grant(kv),
{
    let prefix = "sl2/channel_grant/"@;
    if kv.value is Text {
        let key = kv.value->Text_0;
        if grants::is_grant(kv) {
            let rest = key.skip(prefix.len() as int);
            assert(key =~= prefix + rest);
            assert(names_grant(kv));
        }
        if names_grant(kv) {
            let rest = choose|rest: Seq<char>| key == #[trigger] (prefix + rest);
            assert(key.subrange(0, prefix.len() as int) =~= prefix);
        }
    }
}

/// A grant key is canonical exactly where it is the one spelling of a grant of a
/// channel to a user, both numbers being at least 0.
pub proof fn law_canonical_grants_have_one_spelling(key: Seq<char>, uid: i64, channel: i64)
    ensures
        grants::canonical_ids(key) == Some((uid, channel)) <==> spells_grant(key, uid, channel),
{
    channel_grant::law_grant_key_is_spelled_out(uid as int, channel as int);
    channel_grant::law_grant_key_round_trip(uid, channel);
}

/// Which statuses stand for a member that has not joined, and which for one that
/// holds keys of single channels only; only status 1 is a full member's.
pub proof fn law_statuses_are_told_apart(op: OpType, uid: int, status: i64)
    ensures
        grants::provisional(status as int) <==> status == 0 || status == 3,
        grants::scoped(status as int) <==> status == 2 || status == 3,
        grants::full_member_error(op, uid, status as int) is None <==> status == 1,
        status != 1 ==> grants::full_member_error(op, uid, status as int) == Some(
            ErrorView {
                op,
                kind: ErrorKind::NotFullMember { uid: uid as i64, status },
                names: Seq::empty(),
            },
        ),
{
}

} // verus!
