//! What holds of every accepted entry.

use crate::changelog::{
    BatchOpView, ErrorView, KvView, OpType, ProvenRead, ReadOp, ReadValue, StoredValue, Table,
    ValueView,
};
use crate::ops::create_space_op::CreateSpaceOp;
use crate::ops::grants;
use crate::ops::grants::{KEY_COLUMN, STATUS_FULL, STATUS_SCOPED_PROVISIONAL};
use crate::ops::invite_user_op;
use crate::ops::invite_user_op::{InviteUserOp, STATUS_COLUMN};
use crate::ops::reader;
use crate::ops::rekey_op::RekeyOp;
use crate::ops::rows;
use crate::ops::OpVerifier;
use vstd::prelude::*;

verus! {

/// Whether a write puts the key of a channel-grant row.
pub open spec fn puts_grant(op: BatchOpView) -> bool {
    match op {
        BatchOpView::PutColumn { table, row_id, column, value } => table == Table::Retention
            && column == KEY_COLUMN@ && value is Text
            && crate::channel_grant::has_grant_prefix(value->Text_0),
        _ => false,
    }
}

/// The user and channel that a grant write names, if its key is canonical.
pub open spec fn granted_ids(op: BatchOpView) -> Option<(i64, i64)> {
    grants::canonical_ids(op->PutColumn_value->Text_0)
}

/// Whether a write puts a column of `table`.
pub open spec fn puts_in(op: BatchOpView, table: Table) -> bool {
    op is PutColumn && op->PutColumn_table == table
}

/// Whether the batch sets the next row id of `table` to `next_id`.
pub open spec fn sets_next_id(ops: Seq<BatchOpView>, table: Table, next_id: int) -> bool {
    ops.contains(BatchOpView::PutNextId { table, next_id })
}

/// Whether every row of `table` that the batch writes has an id from `first`
/// up to, but not including, `next_id`.
pub open spec fn rows_between(
    ops: Seq<BatchOpView>,
    table: Table,
    first: int,
    next_id: int,
) -> bool {
    forall|i: int|
        0 <= i < ops.len() && puts_in(#[trigger] ops[i], table) ==> first
            <= ops[i]->PutColumn_row_id < next_id
}

proof fn lemma_index_puts_no_column(
    kvs: Seq<KvView>,
    indexed: Seq<Seq<char>>,
    first: int,
    columns: int,
)
    ensures
        forall|i: int|
            0 <= i < rows::chain_index(kvs, indexed, first, columns).len() ==> (
            #[trigger] rows::chain_index(kvs, indexed, first, columns)[i]) is PutIndex,
    decreases kvs.len(),
{
    if kvs.len() > 0 {
        lemma_index_puts_no_column(kvs.drop_last(), indexed, first, columns);
    }
}

/// What a derived chain of retention rows consists of: it writes the given
/// columns to fresh rows and no others, and sets the counter past them.
proof fn lemma_retention_step(op: OpType, reads: Seq<ProvenRead>, pos: int, kvs: Seq<KvView>)
    requires
        rows::retention_step(op, reads, pos, kvs).0 is Ok,
    ensures
        ({
            let ops = rows::retention_step(op, reads, pos, kvs).0->Ok_0;
            let end = rows::retention_step(op, reads, pos, kvs).1;
            &&& end == pos + 3
            &&& pos + 1 < reads.len()
            &&& reads[pos + 1].op == ReadOp::SchemaNextId(Table::Retention)
            &&& reads[pos + 1].results@.len() > 0
            &&& reads[pos + 1].results@[0] is Counter
            &&& ops.len() >= kvs.len() + 1
            &&& forall|i: int|
                0 <= i < kvs.len() ==> puts_in(#[trigger] ops[i], Table::Retention)
                    && ops[i]->PutColumn_column == kvs[i].column && ops[i]->PutColumn_value
                    == kvs[i].value
            &&& forall|i: int| kvs.len() <= i < ops.len() ==> !((#[trigger] ops[i]) is PutColumn)
            &&& exists|next: int|
                {
                    &&& #[trigger] sets_next_id(ops, Table::Retention, next)
                    &&& rows_between(
                        ops,
                        Table::Retention,
                        reads[pos + 1].results@[0]->Counter_0 as int,
                        next,
                    )
                    &&& next <= i64::MAX
                }
            &&& forall|i: int|
                0 <= i < ops.len() ==> !puts_in(#[trigger] ops[i], Table::Users) && !(ops[i]
                    is PutNextId && ops[i]->PutNextId_table == Table::Users)
        }),
{
    let ops = rows::retention_step(op, reads, pos, kvs).0->Ok_0;
    let schema = reader::columns_step(op, reads, pos, Table::Retention).0->Ok_0;
    let columns = schema.len() as int;
    let first = reader::next_id_step(op, reads, pos + 1, Table::Retention).0->Ok_0 as int;
    let indexed = reader::indexes_step(op, reads, pos + 2, Table::Retention).0->Ok_0;
    let n = kvs.len() as int;
    let next = rows::chain_row(first, n, columns);
    let column_ops = rows::chain_rows(kvs, first, columns);
    let index_ops = rows::chain_index(kvs, indexed, first, columns);
    lemma_index_puts_no_column(kvs, indexed, first, columns);
    assert(ops == (column_ops + index_ops).push(
        BatchOpView::PutNextId { table: Table::Retention, next_id: next },
    ));
    assert(ops[ops.len() - 1] == BatchOpView::PutNextId {
        table: Table::Retention,
        next_id: next,
    });
    assert(sets_next_id(ops, Table::Retention, next));
    assert forall|i: int| n <= i < ops.len() - 1 implies (#[trigger] ops[i]) is PutIndex by {
        assert(ops[i] == index_ops[i - n]);
    }
    assert forall|i: int|
        0 <= i < ops.len() && puts_in(#[trigger] ops[i], Table::Retention) implies first
        <= ops[i]->PutColumn_row_id < next by {
        assert(i < n);
        assert(ops[i] == column_ops[i]);
        vstd::arithmetic::div_mod::lemma_div_pos_is_pos(i, columns);
        vstd::arithmetic::div_mod::lemma_fundamental_div_mod(n, columns);
        vstd::arithmetic::div_mod::lemma_fundamental_div_mod(i, columns);
        let (p, q) = (i / columns, n / columns);
        assert(p < q) by (nonlinear_arith)
            requires
                columns * p + i % columns == i,
                columns * q == n,
                i < n,
                0 <= i % columns,
                columns > 0,
        ;
    }
    assert(rows_between(ops, Table::Retention, first, next));
}

proof fn lemma_invite_bindings(kvs: Seq<KvView>, invitee: int, i: int)
    requires
        grants::invite_binding_error(OpType::InviteUser, kvs, invitee) is None,
        0 <= i < kvs.len(),
        grants::is_grant(kvs[i]),
    ensures
        grants::canonical_ids(grants::grant_text(kvs[i])) is Some,
        grants::canonical_ids(grants::grant_text(kvs[i]))->Some_0.0 == invitee,
    decreases kvs.len(),
{
    if i > 0 {
        assert(kvs.skip(1)[i - 1] == kvs[i]);
        lemma_invite_bindings(kvs.skip(1), invitee, i - 1);
    }
}

/// Whether the reads from `from` up to `to` show that `uid` is a scoped member.
pub open spec fn shown_scoped(reads: Seq<ProvenRead>, from: int, to: int, uid: i64) -> bool {
    exists|q: int|
        {
            &&& from <= q < to
            &&& q < reads.len()
            &&& (#[trigger] reads[q]).op == ReadOp::UserStatus(uid)
            &&& reads[q].results@.len() > 0
            &&& reads[q].results@[0] matches ReadValue::Stored(StoredValue::Integer(status))
            &&& grants::scoped(status as int)
        }
}

proof fn lemma_scoped_bindings_end(reads: Seq<ProvenRead>, pos: int, kvs: Seq<KvView>)
    ensures
        pos <= grants::scoped_bindings_step(OpType::Rekey, reads, pos, kvs).1,
    decreases kvs.len(),
{
    if kvs.len() > 0 {
        lemma_scoped_bindings_end(reads, pos, kvs.skip(1));
        lemma_scoped_bindings_end(reads, pos + 1, kvs.skip(1));
    }
}

proof fn lemma_scoped_bindings(reads: Seq<ProvenRead>, pos: int, kvs: Seq<KvView>, i: int)
    requires
        grants::scoped_bindings_step(OpType::Rekey, reads, pos, kvs).0 is Ok,
        0 <= i < kvs.len(),
        grants::is_grant(kvs[i]),
    ensures
        grants::canonical_ids(grants::grant_text(kvs[i])) is Some,
        shown_scoped(
            reads,
            pos,
            grants::scoped_bindings_step(OpType::Rekey, reads, pos, kvs).1,
            grants::canonical_ids(grants::grant_text(kvs[i]))->Some_0.0,
        ),
    decreases kvs.len(),
{
    let rest = kvs.skip(1);
    if i > 0 {
        assert(rest[i - 1] == kvs[i]);
        if grants::is_grant(kvs[0]) {
            lemma_scoped_bindings(reads, pos + 1, rest, i - 1);
        } else {
            lemma_scoped_bindings(reads, pos, rest, i - 1);
        }
    } else {
        lemma_scoped_bindings_end(reads, pos + 1, rest);
        assert(reads[pos].op == ReadOp::UserStatus(
            grants::canonical_ids(grants::grant_text(kvs[0]))->Some_0.0,
        ));
    }
}

/// What a derived member row consists of.
proof fn lemma_user_row_step(op: OpType, reads: Seq<ProvenRead>, pos: int, kvs: Seq<KvView>)
    requires
        rows::user_row_step(op, reads, pos, kvs).0 is Ok,
    ensures
        ({
            let (row_id, ops) = rows::user_row_step(op, reads, pos, kvs).0->Ok_0;
            &&& rows::user_row_step(op, reads, pos, kvs).1 == pos + 1
            &&& pos < reads.len()
            &&& reads[pos].op == ReadOp::SchemaNextId(Table::Users)
            &&& reads[pos].results@.len() > 0
            &&& reads[pos].results@[0] is Counter
            &&& row_id == reads[pos].results@[0]->Counter_0
            &&& ops.len() == kvs.len() + 1
            &&& forall|i: int|
                0 <= i < kvs.len() ==> #[trigger] ops[i] == rows::put_column(
                    Table::Users,
                    row_id,
                    kvs[i],
                )
            &&& ops[kvs.len() as int] == BatchOpView::PutNextId {
                table: Table::Users,
                next_id: row_id + 1,
            }
        }),
{
}

/// The writes of two batches, one after the other, keep their places.
proof fn lemma_inserts(ops: Seq<BatchOpView>, a: Seq<BatchOpView>, b: Seq<BatchOpView>)
    requires
        ops == a + b,
    ensures
        forall|i: int| 0 <= i < a.len() ==> #[trigger] ops[i] == a[i],
        forall|i: int| a.len() <= i < ops.len() ==> #[trigger] ops[i] == b[i - a.len()],
        forall|table: Table, next: int|
            sets_next_id(a, table, next) ==> #[trigger] sets_next_id(ops, table, next),
        forall|table: Table, next: int|
            sets_next_id(b, table, next) ==> #[trigger] sets_next_id(ops, table, next),
{
    assert forall|table: Table, next: int| sets_next_id(a, table, next) implies #[trigger]
        sets_next_id(ops, table, next) by {
        let put = BatchOpView::PutNextId { table, next_id: next };
        let i = choose|i: int| 0 <= i < a.len() && a[i] == put;
        assert(ops[i] == put);
    }
    assert forall|table: Table, next: int| sets_next_id(b, table, next) implies #[trigger]
        sets_next_id(ops, table, next) by {
        let put = BatchOpView::PutNextId { table, next_id: next };
        let i = choose|i: int| 0 <= i < b.len() && b[i] == put;
        assert(ops[a.len() + i] == put);
    }
}

/// A space is created only where there is no member yet, and its creation
/// never writes a channel grant.
pub proof fn law_create_space_writes_no_grant(
    uid: int,
    kvs: Seq<KvView>,
    reads: Seq<ProvenRead>,
    pos: int,
)
    requires
        CreateSpaceOp::outcome(uid, kvs, reads, pos).0 is Ok,
    ensures
        pos < reads.len(),
        reads[pos].op == ReadOp::Rows(Table::Users),
        reads[pos].results@.len() == 0,
        forall|i: int|
            0 <= i < CreateSpaceOp::outcome(uid, kvs, reads, pos).0->Ok_0.len() ==> !puts_grant(
                #[trigger] CreateSpaceOp::outcome(uid, kvs, reads, pos).0->Ok_0[i],
            ),
{
    let ops = CreateSpaceOp::outcome(uid, kvs, reads, pos).0->Ok_0;
    let users = rows::of_table(kvs, Table::Users);
    let retention = rows::of_table(kvs, Table::Retention);
    lemma_user_row_step(OpType::CreateSpace, reads, pos + 2, users);
    let user_ops = rows::user_row_step(OpType::CreateSpace, reads, pos + 2, users).0->Ok_0.1;
    if retention.len() > 0 {
        lemma_retention_step(OpType::CreateSpace, reads, pos + 3, retention);
        let retention_ops = rows::retention_step(
            OpType::CreateSpace,
            reads,
            pos + 3,
            retention,
        ).0->Ok_0;
        lemma_inserts(ops, user_ops, retention_ops);
        assert forall|i: int| 0 <= i < ops.len() implies !puts_grant(#[trigger] ops[i]) by {
            let j = i - user_ops.len();
            if 0 <= j < retention.len() {
                assert(ops[i] == retention_ops[j]);
                assert(!grants::is_grant(retention[j]));
            } else if j >= 0 {
                assert(ops[i] == retention_ops[j]);
            }
        }
    }
}

/// Whether a batch gives the new member the id `user_id`, moves the members
/// counter on by one, and gives the retention rows, where there are any, ids
/// from their counter `first` on and moves that counter past them. Ids are thus
/// handed out in sequence, and none twice.
pub open spec fn allocates_fresh_rows(
    ops: Seq<BatchOpView>,
    user_id: int,
    first: Option<int>,
) -> bool {
    &&& sets_next_id(ops, Table::Users, user_id + 1)
    &&& rows_between(ops, Table::Users, user_id, user_id + 1)
    &&& first is Some ==> moves_counter(ops, first->Some_0)
}

/// Whether a batch gives its retention rows ids from `first` on and moves the
/// retention counter past them.
pub open spec fn moves_counter(ops: Seq<BatchOpView>, first: int) -> bool {
    exists|next: int|
        first < next && #[trigger] sets_next_id(ops, Table::Retention, next) && rows_between(
            ops,
            Table::Retention,
            first,
            next,
        )
}

/// The counter that the read at position `i` returned.
pub open spec fn counter_at(reads: Seq<ProvenRead>, i: int) -> int {
    reads[i].results@[0]->Counter_0 as int
}

proof fn lemma_fresh_rows(
    op: OpType,
    reads: Seq<ProvenRead>,
    pos: int,
    users: Seq<KvView>,
    retention: Seq<KvView>,
    ops: Seq<BatchOpView>,
)
    requires
        rows::user_row_step(op, reads, pos, users).0 is Ok,
        retention.len() == 0 ==> ops == rows::user_row_step(op, reads, pos, users).0->Ok_0.1,
        retention.len() > 0 ==> {
            &&& rows::retention_step(op, reads, pos + 1, retention).0 is Ok
            &&& ops == rows::user_row_step(op, reads, pos, users).0->Ok_0.1
                + rows::retention_step(op, reads, pos + 1, retention).0->Ok_0
        },
    ensures
        allocates_fresh_rows(
            ops,
            counter_at(reads, pos),
            if retention.len() > 0 {
                Some(counter_at(reads, pos + 2))
            } else {
                None
            },
        ),
        retention.len() > 0 ==> reads[pos + 2].op == ReadOp::SchemaNextId(Table::Retention),
{
    lemma_user_row_step(op, reads, pos, users);
    let (user_id, user_ops) = rows::user_row_step(op, reads, pos, users).0->Ok_0;
    assert(user_ops[users.len() as int] == BatchOpView::PutNextId {
        table: Table::Users,
        next_id: user_id + 1,
    });
    assert(sets_next_id(user_ops, Table::Users, user_id + 1));
    if retention.len() > 0 {
        lemma_retention_step(op, reads, pos + 1, retention);
        let retention_ops = rows::retention_step(op, reads, pos + 1, retention).0->Ok_0;
        lemma_inserts(ops, user_ops, retention_ops);
        let first = reads[pos + 2].results@[0]->Counter_0 as int;
        let next = choose|next: int|
            {
                &&& #[trigger] sets_next_id(retention_ops, Table::Retention, next)
                &&& rows_between(retention_ops, Table::Retention, first, next)
                &&& next <= i64::MAX
            };
        assert(puts_in(retention_ops[0], Table::Retention));
        assert(sets_next_id(ops, Table::Retention, next));
        assert forall|i: int|
            0 <= i < ops.len() && puts_in(#[trigger] ops[i], Table::Retention) implies first
            <= ops[i]->PutColumn_row_id < next by {
            let j = i - user_ops.len();
            if j >= 0 {
                assert(ops[i] == retention_ops[j]);
            } else {
                assert(ops[i] == user_ops[i]);
            }
        }
        assert(rows_between(ops, Table::Retention, first, next));
        assert forall|i: int|
            0 <= i < ops.len() && puts_in(#[trigger] ops[i], Table::Users) implies user_id
            <= ops[i]->PutColumn_row_id < user_id + 1 by {
            let j = i - user_ops.len();
            if j >= 0 {
                assert(ops[i] == retention_ops[j]);
            } else {
                assert(ops[i] == user_ops[i]);
            }
        }
    }
}

/// The first member and the initial retention rows get fresh ids.
pub proof fn law_create_space_allocates_fresh_rows(
    uid: int,
    kvs: Seq<KvView>,
    reads: Seq<ProvenRead>,
    pos: int,
)
    requires
        CreateSpaceOp::outcome(uid, kvs, reads, pos).0 is Ok,
    ensures
        reads[pos + 2].op == ReadOp::SchemaNextId(Table::Users),
        rows::of_table(kvs, Table::Retention).len() > 0 ==> reads[pos + 4].op
            == ReadOp::SchemaNextId(Table::Retention),
        allocates_fresh_rows(
            CreateSpaceOp::outcome(uid, kvs, reads, pos).0->Ok_0,
            counter_at(reads, pos + 2),
            if rows::of_table(kvs, Table::Retention).len() > 0 {
                Some(counter_at(reads, pos + 4))
            } else {
                None
            },
        ),
{
    let users = rows::of_table(kvs, Table::Users);
    lemma_user_row_step(OpType::CreateSpace, reads, pos + 2, users);
    lemma_fresh_rows(
        OpType::CreateSpace,
        reads,
        pos + 2,
        users,
        rows::of_table(kvs, Table::Retention),
        CreateSpaceOp::outcome(uid, kvs, reads, pos).0->Ok_0,
    );
}

/// An invited member and the retention rows of the invite get fresh ids.
pub proof fn law_invite_allocates_fresh_rows(
    uid: int,
    kvs: Seq<KvView>,
    reads: Seq<ProvenRead>,
    pos: int,
)
    requires
        InviteUserOp::outcome(uid, kvs, reads, pos).0 is Ok,
    ensures
        reads[pos + 2].op == ReadOp::SchemaNextId(Table::Users),
        rows::of_table(kvs, Table::Retention).len() > 0 ==> reads[pos + 4].op
            == ReadOp::SchemaNextId(Table::Retention),
        allocates_fresh_rows(
            InviteUserOp::outcome(uid, kvs, reads, pos).0->Ok_0,
            counter_at(reads, pos + 2),
            if rows::of_table(kvs, Table::Retention).len() > 0 {
                Some(counter_at(reads, pos + 4))
            } else {
                None
            },
        ),
{
    let users = rows::of_table(kvs, Table::Users);
    lemma_user_row_step(OpType::InviteUser, reads, pos + 2, users);
    lemma_fresh_rows(
        OpType::InviteUser,
        reads,
        pos + 2,
        users,
        rows::of_table(kvs, Table::Retention),
        InviteUserOp::outcome(uid, kvs, reads, pos).0->Ok_0,
    );
}

/// An accepted invite is signed by somebody who has joined, and inserts a
/// provisional member. Where it writes a channel grant, the signer is a full
/// member, the invite is a scoped one, and the grant names, in canonical form,
/// the member whose row the same batch writes.
pub proof fn law_invite_grants_bind_to_invitee(
    uid: int,
    kvs: Seq<KvView>,
    reads: Seq<ProvenRead>,
    pos: int,
)
    requires
        InviteUserOp::outcome(uid, kvs, reads, pos).0 is Ok,
    ensures
        ({
            let ops = InviteUserOp::outcome(uid, kvs, reads, pos).0->Ok_0;
            let signer = reader::status_step(OpType::InviteUser, reads, pos, uid).0;
            let status = invite_user_op::column_value(
                rows::of_table(kvs, Table::Users),
                STATUS_COLUMN@,
            );
            &&& signer matches Ok(Some(s)) && !grants::provisional(s as int)
            &&& status matches Some(ValueView::Integer(s)) && grants::provisional(s as int)
            &&& forall|i: int|
                0 <= i < ops.len() && puts_grant(#[trigger] ops[i]) ==> {
                    &&& signer == Ok::<Option<i64>, ErrorView>(Some(STATUS_FULL))
                    &&& status == Some(ValueView::Integer(STATUS_SCOPED_PROVISIONAL))
                    &&& granted_ids(ops[i]) is Some
                    &&& rows_between(
                        ops,
                        Table::Users,
                        granted_ids(ops[i])->Some_0.0 as int,
                        granted_ids(ops[i])->Some_0.0 + 1,
                    )
                }
        }),
{
    let op = OpType::InviteUser;
    let ops = InviteUserOp::outcome(uid, kvs, reads, pos).0->Ok_0;
    let users = rows::of_table(kvs, Table::Users);
    let retention = rows::of_table(kvs, Table::Retention);
    lemma_user_row_step(op, reads, pos + 2, users);
    law_invite_allocates_fresh_rows(uid, kvs, reads, pos);
    let (row_id, user_ops) = rows::user_row_step(op, reads, pos + 2, users).0->Ok_0;
    if retention.len() > 0 {
        lemma_retention_step(op, reads, pos + 3, retention);
        let retention_ops = rows::retention_step(op, reads, pos + 3, retention).0->Ok_0;
        lemma_inserts(ops, user_ops, retention_ops);
        assert forall|i: int| 0 <= i < ops.len() && puts_grant(#[trigger] ops[i]) implies {
            &&& grants::has_grants(retention)
            &&& granted_ids(ops[i]) is Some
            &&& granted_ids(ops[i])->Some_0.0 == row_id
        } by {
            let j = i - user_ops.len();
            if j >= 0 {
                assert(ops[i] == retention_ops[j]);
                assert(j < retention.len());
                assert(grants::is_grant(retention[j]));
                lemma_invite_bindings(retention, row_id, j);
            } else {
                assert(ops[i] == user_ops[i]);
            }
        }
    } else {
        assert forall|i: int| 0 <= i < ops.len() implies !puts_grant(#[trigger] ops[i]) by {}
    }
}

/// An accepted rekey is signed by a full member. Every channel grant that it
/// writes is canonical and names a user whom the proof shows to be an existing
/// scoped member; each grant is checked by its own user's status. The rows get
/// fresh ids below the new counter.
pub proof fn law_rekey_grants_bind_to_scoped_members(
    uid: int,
    kvs: Seq<KvView>,
    reads: Seq<ProvenRead>,
    pos: int,
)
    requires
        RekeyOp::outcome(uid, kvs, reads, pos).0 is Ok,
    ensures
        ({
            let ops = RekeyOp::outcome(uid, kvs, reads, pos).0->Ok_0;
            let end = RekeyOp::outcome(uid, kvs, reads, pos).1;
            &&& reader::status_step(OpType::Rekey, reads, pos, uid).0 == Ok::<
                Option<i64>,
                ErrorView,
            >(Some(STATUS_FULL))
            &&& forall|i: int|
                0 <= i < ops.len() && puts_grant(#[trigger] ops[i]) ==> {
                    &&& granted_ids(ops[i]) is Some
                    &&& shown_scoped(reads, pos, end, granted_ids(ops[i])->Some_0.0)
                }
            &&& reads[end - 2].op == ReadOp::SchemaNextId(Table::Retention)
            &&& moves_counter(ops, counter_at(reads, end - 2))
        }),
{
    let op = OpType::Rekey;
    let ops = RekeyOp::outcome(uid, kvs, reads, pos).0->Ok_0;
    let end = RekeyOp::outcome(uid, kvs, reads, pos).1;
    let mid = grants::scoped_bindings_step(op, reads, pos + 1, kvs).1;
    lemma_scoped_bindings_end(reads, pos + 1, kvs);
    lemma_retention_step(op, reads, mid, kvs);
    let first = reads[mid + 1].results@[0]->Counter_0 as int;
    let next = choose|next: int|
        {
            &&& #[trigger] sets_next_id(ops, Table::Retention, next)
            &&& rows_between(ops, Table::Retention, first, next)
            &&& next <= i64::MAX
        };
    assert(puts_in(ops[0], Table::Retention));
    assert forall|i: int| 0 <= i < ops.len() && puts_grant(#[trigger] ops[i]) implies {
        &&& granted_ids(ops[i]) is Some
        &&& shown_scoped(reads, pos, end, granted_ids(ops[i])->Some_0.0)
    } by {
        assert(i < kvs.len());
        assert(grants::is_grant(kvs[i]));
        lemma_scoped_bindings(reads, pos + 1, kvs, i);
        let user = granted_ids(ops[i])->Some_0.0;
        assert(shown_scoped(reads, pos + 1, mid, user));
    }
}

/// A member who has been invited and has not joined can neither invite nor
/// rekey.
pub proof fn law_provisional_signer_is_refused(
    uid: int,
    kvs: Seq<KvView>,
    reads: Seq<ProvenRead>,
    pos: int,
    status: i64,
)
    requires
        grants::provisional(status as int),
        pos < reads.len(),
        reads[pos].op == ReadOp::UserStatus(uid as i64),
        reads[pos].results@.len() > 0,
        reads[pos].results@[0] == ReadValue::Stored(StoredValue::Integer(status)),
    ensures
        InviteUserOp::outcome(uid, kvs, reads, pos).0 is Err,
        RekeyOp::outcome(uid, kvs, reads, pos).0 is Err,
{
}

/// Nobody but a full member can rekey, or issue a channel grant by an invite.
pub proof fn law_only_full_members_grant(
    uid: int,
    kvs: Seq<KvView>,
    reads: Seq<ProvenRead>,
    pos: int,
    status: i64,
)
    requires
        status != STATUS_FULL,
        pos < reads.len(),
        reads[pos].op == ReadOp::UserStatus(uid as i64),
        reads[pos].results@.len() > 0,
        reads[pos].results@[0] == ReadValue::Stored(StoredValue::Integer(status)),
    ensures
        RekeyOp::outcome(uid, kvs, reads, pos).0 is Err,
        grants::has_grants(rows::of_table(kvs, Table::Retention)) ==> InviteUserOp::outcome(
            uid,
            kvs,
            reads,
            pos,
        ).0 is Err,
{
}

/// Whether a write puts the column that the entry gives, into `table`.
pub open spec fn puts_kv(op: BatchOpView, table: Table, kv: KvView) -> bool {
    puts_in(op, table) && op->PutColumn_column == kv.column && op->PutColumn_value == kv.value
}

/// Whether a batch that inserts a member puts exactly the columns that the
/// entry gives, in order and unchanged: first those of the member, and after
/// one more write those of the retention rows.
pub open spec fn puts_entry(
    ops: Seq<BatchOpView>,
    users: Seq<KvView>,
    retention: Seq<KvView>,
) -> bool {
    let n = users.len() as int;
    let m = retention.len() as int;
    &&& ops.len() > n + m
    &&& forall|i: int| 0 <= i < n ==> puts_kv(#[trigger] ops[i], Table::Users, users[i])
    &&& forall|i: int|
        n < i <= n + m ==> puts_kv(#[trigger] ops[i], Table::Retention, retention[i - n - 1])
    &&& forall|i: int|
        (i == n || n + m < i < ops.len()) ==> !((#[trigger] ops[i]) is PutColumn)
}

proof fn lemma_puts_entry(
    op: OpType,
    reads: Seq<ProvenRead>,
    pos: int,
    users: Seq<KvView>,
    retention: Seq<KvView>,
    ops: Seq<BatchOpView>,
)
    requires
        rows::user_row_step(op, reads, pos, users).0 is Ok,
        retention.len() == 0 ==> ops == rows::user_row_step(op, reads, pos, users).0->Ok_0.1,
        retention.len() > 0 ==> {
            &&& rows::retention_step(op, reads, pos + 1, retention).0 is Ok
            &&& ops == rows::user_row_step(op, reads, pos, users).0->Ok_0.1
                + rows::retention_step(op, reads, pos + 1, retention).0->Ok_0
        },
    ensures
        puts_entry(ops, users, retention),
{
    lemma_user_row_step(op, reads, pos, users);
    let user_ops = rows::user_row_step(op, reads, pos, users).0->Ok_0.1;
    let n = users.len() as int;
    if retention.len() > 0 {
        lemma_retention_step(op, reads, pos + 1, retention);
        let retention_ops = rows::retention_step(op, reads, pos + 1, retention).0->Ok_0;
        lemma_inserts(ops, user_ops, retention_ops);
        assert forall|i: int| n < i <= n + retention.len() implies puts_kv(
            #[trigger] ops[i],
            Table::Retention,
            retention[i - n - 1],
        ) by {
            assert(ops[i] == retention_ops[i - n - 1]);
        }
        assert forall|i: int|
            (i == n || n + retention.len() < i < ops.len()) implies !((
        #[trigger] ops[i]) is PutColumn) by {
            if i == n {
                assert(ops[i] == user_ops[i]);
            } else {
                assert(ops[i] == retention_ops[i - n - 1]);
            }
        }
    }
}

/// The creation of a space puts exactly the columns that the entry gives.
pub proof fn law_create_space_puts_the_entry(
    uid: int,
    kvs: Seq<KvView>,
    reads: Seq<ProvenRead>,
    pos: int,
)
    requires
        CreateSpaceOp::outcome(uid, kvs, reads, pos).0 is Ok,
    ensures
        puts_entry(
            CreateSpaceOp::outcome(uid, kvs, reads, pos).0->Ok_0,
            rows::of_table(kvs, Table::Users),
            rows::of_table(kvs, Table::Retention),
        ),
{
    lemma_puts_entry(
        OpType::CreateSpace,
        reads,
        pos + 2,
        rows::of_table(kvs, Table::Users),
        rows::of_table(kvs, Table::Retention),
        CreateSpaceOp::outcome(uid, kvs, reads, pos).0->Ok_0,
    );
}

/// An invite puts exactly the columns that the entry gives.
pub proof fn law_invite_puts_the_entry(
    uid: int,
    kvs: Seq<KvView>,
    reads: Seq<ProvenRead>,
    pos: int,
)
    requires
        InviteUserOp::outcome(uid, kvs, reads, pos).0 is Ok,
    ensures
        puts_entry(
            InviteUserOp::outcome(uid, kvs, reads, pos).0->Ok_0,
            rows::of_table(kvs, Table::Users),
            rows::of_table(kvs, Table::Retention),
        ),
{
    lemma_puts_entry(
        OpType::InviteUser,
        reads,
        pos + 2,
        rows::of_table(kvs, Table::Users),
        rows::of_table(kvs, Table::Retention),
        InviteUserOp::outcome(uid, kvs, reads, pos).0->Ok_0,
    );
}

/// A rekey puts exactly the columns that the entry gives, all of them into the
/// retention table: rows that are no grants pass untouched.
pub proof fn law_rekey_puts_the_entry(
    uid: int,
    kvs: Seq<KvView>,
    reads: Seq<ProvenRead>,
    pos: int,
)
    requires
        RekeyOp::outcome(uid, kvs, reads, pos).0 is Ok,
    ensures
        ({
            let ops = RekeyOp::outcome(uid, kvs, reads, pos).0->Ok_0;
            &&& ops.len() > kvs.len()
            &&& forall|i: int|
                0 <= i < kvs.len() ==> puts_kv(#[trigger] ops[i], Table::Retention, kvs[i])
            &&& forall|i: int|
                kvs.len() <= i < ops.len() ==> !((#[trigger] ops[i]) is PutColumn)
        }),
{
    let mid = grants::scoped_bindings_step(OpType::Rekey, reads, pos + 1, kvs).1;
    lemma_retention_step(OpType::Rekey, reads, mid, kvs);
}

} // verus!
