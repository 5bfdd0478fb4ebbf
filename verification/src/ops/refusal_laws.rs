//! Every refusal is for the reason it gives, names what the reason speaks of,
//! and comes at the first check that fails.

use crate::changelog::{
    ErrorKind, ErrorView, KvView, OpType, ProvenRead, ReadOp, ReadValue, StoredValue, Table,
    ValueView,
};
use crate::ops::create_space_op::CreateSpaceOp;
use crate::ops::entry_laws;
use crate::ops::grants;
use crate::ops::invite_user_op;
use crate::ops::invite_user_op::InviteUserOp;
use crate::ops::reader;
use crate::ops::rekey_op;
use crate::ops::rekey_op::RekeyOp;
use crate::ops::row_laws;
use crate::ops::rows;
use crate::ops::OpVerifier;
use vstd::prelude::*;
use vstd::string::*;

verus! {

/// Whether a refusal is `kind`, of the operation `op`, and names nothing.
pub open spec fn is_plain_refusal(e: ErrorView, op: OpType, kind: ErrorKind) -> bool {
    e.op == op && e.kind == kind && e.names.len() == 0
}

/// Whether a refusal says, and says truly, that the read `wanted` is not the one
/// at `at`: that there is none, or that it is another.
pub open spec fn is_read_refusal(
    e: ErrorView,
    op: OpType,
    reads: Seq<ProvenRead>,
    at: int,
    wanted: ReadOp,
) -> bool {
    if at >= reads.len() {
        is_plain_refusal(e, op, ErrorKind::ReadsExhausted)
    } else {
        reads[at].op != wanted && is_plain_refusal(e, op, ErrorKind::ReadMismatch)
    }
}

/// Whether the read at `at` is `wanted`.
pub open spec fn is_read(reads: Seq<ProvenRead>, at: int, wanted: ReadOp) -> bool {
    0 <= at < reads.len() && reads[at].op == wanted
}

/// Whether a refusal is that of the columns of a table: that they could not be
/// read, or that the entry gives others.
pub open spec fn is_columns_refusal(
    e: ErrorView,
    op: OpType,
    reads: Seq<ProvenRead>,
    at: int,
    table: Table,
    kvs: Seq<KvView>,
) -> bool {
    if !is_read(reads, at, ReadOp::SchemaColumns(table)) {
        is_read_refusal(e, op, reads, at, ReadOp::SchemaColumns(table))
    } else if !row_laws::reads_columns(reads, at, table) {
        is_plain_refusal(e, op, ErrorKind::SchemaMissing(table))
    } else {
        let schema = row_laws::columns_at(reads, at);
        &&& !row_laws::same_columns(kvs, schema)
        &&& e.op == op
        &&& e.kind == ErrorKind::ColumnsDiffer(table)
        &&& forall|column: Seq<char>| #[trigger]
            e.names.contains(column) <==> schema.contains(column) && !row_laws::gives_column(
                kvs,
                column,
            )
    }
}

/// Whether the columns of a table could be read and are those that the entry
/// gives.
pub open spec fn columns_pass(
    reads: Seq<ProvenRead>,
    at: int,
    table: Table,
    kvs: Seq<KvView>,
) -> bool {
    row_laws::reads_columns(reads, at, table) && row_laws::same_columns(
        kvs,
        row_laws::columns_at(reads, at),
    )
}

/// Whether a refusal names the first row id that is no placeholder.
pub open spec fn is_row_id_refusal(e: ErrorView, op: OpType, kvs: Seq<KvView>) -> bool {
    exists|i: int|
        {
            &&& 0 <= i < kvs.len()
            &&& (#[trigger] kvs[i]).row_id != 0
            &&& is_plain_refusal(e, op, ErrorKind::NotAPlaceholder { row_id: kvs[i].row_id })
            &&& forall|j: int| 0 <= j < i ==> (#[trigger] kvs[j]).row_id == 0
        }
}

/// Whether a refusal is that of a row counter that could not be read, of a row
/// id that is no placeholder, or of a counter that cannot be moved on by `rows`
/// rows.
pub open spec fn is_counter_refusal(
    e: ErrorView,
    op: OpType,
    reads: Seq<ProvenRead>,
    at: int,
    table: Table,
    kvs: Seq<KvView>,
    rows: int,
) -> bool {
    if !is_read(reads, at, ReadOp::SchemaNextId(table)) {
        is_read_refusal(e, op, reads, at, ReadOp::SchemaNextId(table))
    } else if !row_laws::reads_counter(reads, at, table) {
        is_plain_refusal(e, op, ErrorKind::NextIdMissing(table))
    } else if !row_laws::all_placeholders(kvs) {
        is_row_id_refusal(e, op, kvs)
    } else {
        &&& row_laws::counter_read(reads, at) + rows > i64::MAX
        &&& is_plain_refusal(e, op, ErrorKind::NextIdOverflow(table))
    }
}

/// Whether a refusal is that of a chain of retention rows, at its first check
/// that fails.
pub open spec fn is_chain_refusal(
    e: ErrorView,
    op: OpType,
    reads: Seq<ProvenRead>,
    pos: int,
    kvs: Seq<KvView>,
) -> bool {
    let table = Table::Retention;
    let columns = row_laws::columns_at(reads, pos).len() as int;
    let n = kvs.len() as int;
    if !columns_pass(reads, pos, table, kvs) {
        is_columns_refusal(e, op, reads, pos, table, kvs)
    } else if columns == 0 {
        is_plain_refusal(e, op, ErrorKind::NoSchemaColumns(table))
    } else if n % columns != 0 {
        is_plain_refusal(
            e,
            op,
            ErrorKind::RaggedRows { entries: n as usize, columns: columns as usize },
        )
    } else if !row_laws::reads_counter(reads, pos + 1, table) || !row_laws::all_placeholders(kvs) {
        is_counter_refusal(e, op, reads, pos + 1, table, kvs, 0)
    } else if row_laws::counter_read(reads, pos + 1) + (n - 1) / columns > i64::MAX {
        is_plain_refusal(e, op, ErrorKind::NextIdOverflow(table))
    } else if !is_read(reads, pos + 2, ReadOp::SchemaIndexes(table)) {
        is_read_refusal(e, op, reads, pos + 2, ReadOp::SchemaIndexes(table))
    } else if !row_laws::reads_indexes(reads, pos + 2, table) {
        is_plain_refusal(e, op, ErrorKind::SchemaMissing(table))
    } else {
        &&& row_laws::counter_read(reads, pos + 1) + n / columns > i64::MAX
        &&& is_plain_refusal(e, op, ErrorKind::NextIdOverflow(table))
    }
}

/// A chain of retention rows is refused at the first check that fails, and for
/// what failed there.
pub proof fn law_chain_refusals_are_true(
    op: OpType,
    reads: Seq<ProvenRead>,
    pos: int,
    kvs: Seq<KvView>,
)
    requires
        0 <= pos,
    ensures
        rows::retention_step(op, reads, pos, kvs).0 is Err ==> is_chain_refusal(
            rows::retention_step(op, reads, pos, kvs).0->Err_0,
            op,
            reads,
            pos,
            kvs,
        ),
{
    let table = Table::Retention;
    row_laws::law_reads_are_taken_in_order(op, reads, pos, table, 0);
    row_laws::law_reads_are_taken_in_order(op, reads, pos + 1, table, 0);
    row_laws::law_reads_are_taken_in_order(op, reads, pos + 2, table, 0);
    row_laws::law_first_row_id_is_reported(op, kvs);
    if row_laws::reads_columns(reads, pos, table) {
        row_laws::law_columns_must_be_those_of_the_schema(
            op,
            table,
            kvs,
            row_laws::columns_at(reads, pos),
        );
    }
}

/// A member row is refused at the first check that fails, and for what failed
/// there.
pub proof fn law_member_refusals_are_true(
    op: OpType,
    reads: Seq<ProvenRead>,
    pos: int,
    kvs: Seq<KvView>,
)
    requires
        0 <= pos,
    ensures
        rows::user_row_step(op, reads, pos, kvs).0 is Err ==> is_counter_refusal(
            rows::user_row_step(op, reads, pos, kvs).0->Err_0,
            op,
            reads,
            pos,
            Table::Users,
            kvs,
            1,
        ),
{
    row_laws::law_reads_are_taken_in_order(op, reads, pos, Table::Users, 0);
    row_laws::law_first_row_id_is_reported(op, kvs);
}

/// Whether a refusal is that of the shape of an entry that inserts a member: the
/// first table that is none of the tables, key history, or no member.
pub open spec fn is_shape_refusal(e: ErrorView, op: OpType, kvs: Seq<KvView>) -> bool {
    if !(forall|i: int| 0 <= i < kvs.len() ==> row_laws::is_table_name((#[trigger] kvs[i]).table)) {
        exists|i: int|
            {
                &&& 0 <= i < kvs.len()
                &&& !row_laws::is_table_name((#[trigger] kvs[i]).table)
                &&& e.op == op
                &&& e.kind == ErrorKind::UnknownTable
                &&& e.names == seq![kvs[i].table]
                &&& forall|j: int| 0 <= j < i ==> row_laws::is_table_name((#[trigger] kvs[j]).table)
            }
    } else if row_laws::part(kvs, Table::KeyHistory).len() > 0 {
        is_plain_refusal(e, op, ErrorKind::UnexpectedKeyHistory)
    } else {
        &&& row_laws::part(kvs, Table::Users).len() == 0
        &&& is_plain_refusal(e, op, ErrorKind::NoUserEntries)
    }
}

/// Whether a refusal is one of the creation of a space, at its first check that
/// fails.
pub open spec fn is_create_refusal(
    e: ErrorView,
    kvs: Seq<KvView>,
    reads: Seq<ProvenRead>,
    pos: int,
) -> bool {
    let op = OpType::CreateSpace;
    let users = row_laws::part(kvs, Table::Users);
    let retention = row_laws::part(kvs, Table::Retention);
    if !entry_laws::is_member_entry(kvs) {
        is_shape_refusal(e, op, kvs)
    } else if entry_laws::grants_something(retention) {
        is_plain_refusal(e, op, ErrorKind::GrantNotAllowed)
    } else if !is_read(reads, pos, ReadOp::Rows(Table::Users)) {
        is_read_refusal(e, op, reads, pos, ReadOp::Rows(Table::Users))
    } else if reads[pos].results@.len() > 0 {
        is_plain_refusal(e, op, ErrorKind::UsersNotEmpty)
    } else if !columns_pass(reads, pos + 1, Table::Users, users) {
        is_columns_refusal(e, op, reads, pos + 1, Table::Users, users)
    } else if !row_laws::fits_member(reads, pos + 2, users) {
        is_counter_refusal(e, op, reads, pos + 2, Table::Users, users, 1)
    } else {
        retention.len() > 0 && is_chain_refusal(e, op, reads, pos + 3, retention)
    }
}

proof fn lemma_shape(kvs: Seq<KvView>)
    ensures
        rows::foreign_table(kvs) is None <==> forall|i: int|
            0 <= i < kvs.len() ==> row_laws::is_table_name((#[trigger] kvs[i]).table),
        rows::of_table(kvs, Table::Users) == row_laws::part(kvs, Table::Users),
        rows::of_table(kvs, Table::Retention) == row_laws::part(kvs, Table::Retention),
        rows::of_table(kvs, Table::KeyHistory) == row_laws::part(kvs, Table::KeyHistory),
        grants::has_grants(row_laws::part(kvs, Table::Retention)) <==> entry_laws::grants_something(
            row_laws::part(kvs, Table::Retention),
        ),
{
    row_laws::law_first_foreign_table_is_reported(kvs);
    row_laws::law_entry_is_split_by_table(kvs, Table::Users);
    row_laws::law_entry_is_split_by_table(kvs, Table::Retention);
    row_laws::law_entry_is_split_by_table(kvs, Table::KeyHistory);
    let retention = row_laws::part(kvs, Table::Retention);
    assert forall|i: int| 0 <= i < retention.len() implies grants::is_grant(#[trigger] retention[i])
        == row_laws::names_grant(retention[i]) by {
        row_laws::law_grants_are_recognised(retention[i]);
    }
    if grants::has_grants(retention) {
        let i = choose|i: int|
            0 <= i < retention.len() && grants::is_grant(#[trigger] retention[i]);
        assert(row_laws::names_grant(retention[i]));
    }
    if entry_laws::grants_something(retention) {
        let i = choose|i: int|
            0 <= i < retention.len() && row_laws::names_grant(#[trigger] retention[i]);
        assert(grants::is_grant(retention[i]));
    }
}

/// The creation of a space is refused at the first check that fails, and for
/// what failed there.
pub proof fn law_create_space_refusals_are_true(
    uid: int,
    kvs: Seq<KvView>,
    reads: Seq<ProvenRead>,
    pos: int,
)
    requires
        0 <= pos,
    ensures
        CreateSpaceOp::outcome(uid, kvs, reads, pos).0 is Err ==> is_create_refusal(
            CreateSpaceOp::outcome(uid, kvs, reads, pos).0->Err_0,
            kvs,
            reads,
            pos,
        ),
{
    let op = OpType::CreateSpace;
    let users = row_laws::part(kvs, Table::Users);
    let retention = row_laws::part(kvs, Table::Retention);
    lemma_shape(kvs);
    row_laws::law_first_foreign_table_is_reported(kvs);
    row_laws::law_reads_are_taken_in_order(op, reads, pos + 1, Table::Users, 0);
    if row_laws::reads_columns(reads, pos + 1, Table::Users) {
        row_laws::law_columns_must_be_those_of_the_schema(
            op,
            Table::Users,
            users,
            row_laws::columns_at(reads, pos + 1),
        );
    }
    row_laws::law_member_gets_the_next_id(op, reads, pos + 2, users);
    law_member_refusals_are_true(op, reads, pos + 2, users);
    row_laws::law_retention_rows_are_written_in_sequence(op, reads, pos + 3, retention);
    law_chain_refusals_are_true(op, reads, pos + 3, retention);
}

/// Whether a refusal is that of a signer whose status could not be read or does
/// not suffice.
pub open spec fn is_signer_refusal(
    e: ErrorView,
    op: OpType,
    reads: Seq<ProvenRead>,
    at: int,
    uid: int,
) -> bool {
    let wanted = ReadOp::UserStatus(uid as i64);
    if !is_read(reads, at, wanted) {
        is_read_refusal(e, op, reads, at, wanted)
    } else if reads[at].results@.len() == 0 {
        is_plain_refusal(e, op, ErrorKind::UnknownUser(uid as i64))
    } else {
        match reads[at].results@[0] {
            ReadValue::Stored(StoredValue::Integer(status)) => if status == 0 || status == 3 {
                is_plain_refusal(e, op, ErrorKind::ProvisionalUser(uid as i64))
            } else {
                &&& status != 1
                &&& is_plain_refusal(e, op, ErrorKind::NotFullMember { uid: uid as i64, status })
            },
            _ => is_plain_refusal(e, op, ErrorKind::MalformedStatus(uid as i64)),
        }
    }
}

/// Whether a refusal is that of the status that an invite inserts.
pub open spec fn is_status_refusal(e: ErrorView, users: Seq<KvView>, scoped: bool) -> bool {
    let op = OpType::InviteUser;
    if exists|status: i64| #[trigger]
        entry_laws::first_value(users, "status"@, ValueView::Integer(status)) {
        exists|status: i64|
            {
                &&& #[trigger] entry_laws::first_value(
                    users,
                    "status"@,
                    ValueView::Integer(status),
                )
                &&& if status != 0 && status != 3 {
                    is_plain_refusal(e, op, ErrorKind::NotProvisional { status })
                } else {
                    &&& scoped && status == 0
                    &&& is_plain_refusal(e, op, ErrorKind::GrantOnFullInvite { status })
                }
            }
    } else {
        is_plain_refusal(e, op, ErrorKind::StatusNotInserted)
    }
}

/// Whether a refusal is one of an invite, at its first check that fails.
pub open spec fn is_invite_refusal(
    e: ErrorView,
    uid: int,
    kvs: Seq<KvView>,
    reads: Seq<ProvenRead>,
    pos: int,
) -> bool {
    let op = OpType::InviteUser;
    let users = row_laws::part(kvs, Table::Users);
    let retention = row_laws::part(kvs, Table::Retention);
    let with_grants = entry_laws::grants_something(retention);
    if !entry_laws::is_member_entry(kvs) {
        is_shape_refusal(e, op, kvs)
    } else if !entry_laws::signer_may(reads, pos, uid, with_grants) {
        is_signer_refusal(e, op, reads, pos, uid)
    } else if !columns_pass(reads, pos + 1, Table::Users, users) {
        is_columns_refusal(e, op, reads, pos + 1, Table::Users, users)
    } else if !entry_laws::inserts_invited(users, with_grants) {
        is_status_refusal(e, users, with_grants)
    } else if !row_laws::fits_member(reads, pos + 2, users) {
        is_counter_refusal(e, op, reads, pos + 2, Table::Users, users, 1)
    } else {
        let invitee = row_laws::counter_read(reads, pos + 2);
        &&& retention.len() > 0
        &&& if !entry_laws::grants_only_to(retention, invitee) {
            exists|i: int|
                {
                    &&& 0 <= i < retention.len()
                    &&& row_laws::names_grant(#[trigger] retention[i])
                    &&& entry_laws::grants_only_to(retention.take(i), invitee)
                    &&& e.op == op
                    &&& entry_laws::is_binding_refusal(e, retention[i].value->Text_0, invitee)
                }
        } else {
            is_chain_refusal(e, op, reads, pos + 3, retention)
        }
    }
}

proof fn lemma_signer_refusal(
    op: OpType,
    reads: Seq<ProvenRead>,
    pos: int,
    uid: int,
    full: bool,
)
    requires
        0 <= pos,
    ensures
        ({
            let access = grants::access_step(op, reads, pos, uid);
            &&& access.0 is Ok <==> entry_laws::signer_may(reads, pos, uid, false)
            &&& access.0 is Err ==> is_signer_refusal(access.0->Err_0, op, reads, pos, uid)
            &&& access.0 is Ok ==> {
                &&& access.1 == pos + 1
                &&& access.0->Ok_0 == 1 <==> entry_laws::signer_may(reads, pos, uid, true)
                &&& access.0->Ok_0 != 1 ==> is_signer_refusal(
                    grants::full_member_error(op, uid, access.0->Ok_0 as int)->Some_0,
                    op,
                    reads,
                    pos,
                    uid,
                )
            }
            &&& entry_laws::signer_may(reads, pos, uid, true) ==> entry_laws::signer_may(
                reads,
                pos,
                uid,
                false,
            )
        }),
{
    row_laws::law_reads_are_taken_in_order(op, reads, pos, Table::Users, uid);
    if let Ok(Some(status)) = reader::status_step(op, reads, pos, uid).0 {
        assert(row_laws::reads_status(reads, pos, uid, status));
        row_laws::law_statuses_are_told_apart(op, uid, status);
    }
}

proof fn lemma_status_refusal(users: Seq<KvView>, with_grants: bool)
    ensures
        match invite_user_op::status_error(users, with_grants) {
            None => entry_laws::inserts_invited(users, with_grants),
            Some(e) => !entry_laws::inserts_invited(users, with_grants) && is_status_refusal(
                e,
                users,
                with_grants,
            ),
        },
{
    let column = "status"@;
    entry_laws::law_first_write_to_a_column_counts(users, column);
    assert forall|status: i64| #[trigger]
        entry_laws::first_value(users, column, ValueView::Integer(status)) implies
        invite_user_op::column_value(users, column) == Some(ValueView::Integer(status)) by {}
    if let Some(ValueView::Integer(status)) = invite_user_op::column_value(users, column) {
        assert(entry_laws::first_value(users, column, ValueView::Integer(status)));
    }
}

proof fn lemma_binding(kvs: Seq<KvView>, invitee: int)
    ensures
        grants::invite_binding_error(OpType::InviteUser, kvs, invitee) is None
            <==> entry_laws::grants_only_to(kvs, invitee),
{
    entry_laws::law_invite_grants_are_checked(kvs, invitee);
    if let Some(e) = grants::invite_binding_error(OpType::InviteUser, kvs, invitee) {
        let i = choose|i: int|
            {
                &&& 0 <= i < kvs.len()
                &&& row_laws::names_grant(#[trigger] kvs[i])
                &&& entry_laws::grants_only_to(kvs.take(i), invitee)
                &&& e.op == OpType::InviteUser
                &&& entry_laws::is_binding_refusal(e, kvs[i].value->Text_0, invitee)
            };
        let key = kvs[i].value->Text_0;
        assert forall|u: i64, c: i64, v: i64, d: i64|
            #[trigger] row_laws::spells_grant(key, u, c) && #[trigger] row_laws::spells_grant(
                key,
                v,
                d,
            ) implies u == v by {
            row_laws::law_canonical_grants_have_one_spelling(key, u, c);
            row_laws::law_canonical_grants_have_one_spelling(key, v, d);
        }
    }
}

/// An invite is refused at the first check that fails, and for what failed
/// there.
pub proof fn law_invite_refusals_are_true(
    uid: int,
    kvs: Seq<KvView>,
    reads: Seq<ProvenRead>,
    pos: int,
)
    requires
        0 <= pos,
    ensures
        InviteUserOp::outcome(uid, kvs, reads, pos).0 is Err ==> is_invite_refusal(
            InviteUserOp::outcome(uid, kvs, reads, pos).0->Err_0,
            uid,
            kvs,
            reads,
            pos,
        ),
{
    let op = OpType::InviteUser;
    let users = row_laws::part(kvs, Table::Users);
    let retention = row_laws::part(kvs, Table::Retention);
    let with_grants = entry_laws::grants_something(retention);
    lemma_shape(kvs);
    row_laws::law_first_foreign_table_is_reported(kvs);
    lemma_signer_refusal(op, reads, pos, uid, with_grants);
    row_laws::law_reads_are_taken_in_order(op, reads, pos + 1, Table::Users, 0);
    if row_laws::reads_columns(reads, pos + 1, Table::Users) {
        row_laws::law_columns_must_be_those_of_the_schema(
            op,
            Table::Users,
            users,
            row_laws::columns_at(reads, pos + 1),
        );
    }
    lemma_status_refusal(users, with_grants);
    row_laws::law_member_gets_the_next_id(op, reads, pos + 2, users);
    law_member_refusals_are_true(op, reads, pos + 2, users);
    let invitee = row_laws::counter_read(reads, pos + 2);
    lemma_binding(retention, invitee);
    entry_laws::law_invite_grants_are_checked(retention, invitee);
    row_laws::law_retention_rows_are_written_in_sequence(op, reads, pos + 3, retention);
    law_chain_refusals_are_true(op, reads, pos + 3, retention);
}

/// Whether a refusal is that of the first grant of a rekey that does not pass:
/// that it is not canonical, that its user's status could not be read, or that
/// its user is no scoped member.
pub open spec fn is_regrant_refusal(
    e: ErrorView,
    reads: Seq<ProvenRead>,
    at: int,
    key: Seq<char>,
) -> bool {
    let op = OpType::Rekey;
    if exists|u: i64, c: i64| #[trigger] row_laws::spells_grant(key, u, c) {
        exists|u: i64, c: i64|
            {
                let wanted = ReadOp::UserStatus(u);
                &&& #[trigger] row_laws::spells_grant(key, u, c)
                &&& if !is_read(reads, at, wanted) {
                    is_read_refusal(e, op, reads, at, wanted)
                } else if reads[at].results@.len() == 0 {
                    is_plain_refusal(e, op, ErrorKind::GrantNotScoped { uid: u })
                } else {
                    match reads[at].results@[0] {
                        ReadValue::Stored(StoredValue::Integer(status)) => {
                            &&& status != 2 && status != 3
                            &&& is_plain_refusal(e, op, ErrorKind::GrantNotScoped { uid: u })
                        },
                        _ => is_plain_refusal(e, op, ErrorKind::MalformedStatus(u)),
                    }
                }
            }
    } else {
        e.op == op && e.kind == ErrorKind::NonCanonicalGrant && e.names == seq![key]
    }
}

/// The grants of a rekey are refused for the first one that does not pass.
pub proof fn law_regrant_refusals_are_true(kvs: Seq<KvView>, reads: Seq<ProvenRead>, pos: int)
    requires
        0 <= pos,
    ensures
        ({
            let step = grants::scoped_bindings_step(OpType::Rekey, reads, pos, kvs);
            step.0 is Err ==> exists|i: int|
                {
                    &&& 0 <= i < kvs.len()
                    &&& row_laws::names_grant(#[trigger] kvs[i])
                    &&& entry_laws::grants_only_to_scoped(kvs.take(i), reads, pos)
                    &&& is_regrant_refusal(
                        step.0->Err_0,
                        reads,
                        pos + entry_laws::grants_before(kvs, i),
                        kvs[i].value->Text_0,
                    )
                }
        }),
    decreases kvs.len(),
{
    let op = OpType::Rekey;
    let step = grants::scoped_bindings_step(op, reads, pos, kvs);
    if step.0 is Err {
        let e = step.0->Err_0;
        let rest = kvs.skip(1);
        let key = kvs[0].value->Text_0;
        row_laws::law_grants_are_recognised(kvs[0]);
        assert(kvs.take(0) =~= Seq::<KvView>::empty());
        assert(entry_laws::grants_only_to_scoped(kvs.take(0), reads, pos));
        assert(entry_laws::grants_before(kvs, 0) == 0) by {
            reveal(Seq::filter);
        }
        assert forall|u: i64, c: i64| grants::canonical_ids(key) == Some((u, c))
            <==> #[trigger] row_laws::spells_grant(key, u, c) by {
            row_laws::law_canonical_grants_have_one_spelling(key, u, c);
        }
        let first_passes = !grants::is_grant(kvs[0]) || {
            &&& grants::canonical_ids(key) is Some
            &&& reader::status_step(
                op,
                reads,
                pos,
                grants::canonical_ids(key)->Some_0.0 as int,
            ).0 matches Ok(Some(status)) && grants::scoped(status as int)
        };
        if grants::is_grant(kvs[0]) && grants::canonical_ids(key) is Some {
            let (u, c) = grants::canonical_ids(key)->Some_0;
            assert(row_laws::spells_grant(key, u, c));
            row_laws::law_reads_are_taken_in_order(op, reads, pos, Table::Users, u as int);
            if let Ok(Some(status)) = reader::status_step(op, reads, pos, u as int).0 {
                assert(row_laws::reads_status(reads, pos, u as int, status));
            }
        }
        if first_passes {
            let next = if grants::is_grant(kvs[0]) {
                pos + 1
            } else {
                pos
            };
            law_regrant_refusals_are_true(rest, reads, next);
            let i = choose|i: int|
                {
                    &&& 0 <= i < rest.len()
                    &&& row_laws::names_grant(#[trigger] rest[i])
                    &&& entry_laws::grants_only_to_scoped(rest.take(i), reads, next)
                    &&& is_regrant_refusal(
                        e,
                        reads,
                        next + entry_laws::grants_before(rest, i),
                        rest[i].value->Text_0,
                    )
                };
            assert(kvs[i + 1] == rest[i]);
            entry_laws::lemma_grants_before(kvs, i + 1);
            let before = kvs.take(i + 1);
            assert(before[0] == kvs[0]);
            assert(before.skip(1) =~= rest.take(i));
            assert(entry_laws::first_grant_passes(before, reads, pos));
            entry_laws::lemma_shift(before, reads, pos, next);
        } else {
            assert(is_regrant_refusal(e, reads, pos, key));
        }
    }
}

/// Whether a refusal is one of a rekey, at its first check that fails.
pub open spec fn is_rekey_refusal(
    e: ErrorView,
    uid: int,
    kvs: Seq<KvView>,
    reads: Seq<ProvenRead>,
    pos: int,
) -> bool {
    let op = OpType::Rekey;
    let from = pos + 1 + entry_laws::grants_before(kvs, kvs.len() as int);
    if kvs.len() == 0 {
        is_plain_refusal(e, op, ErrorKind::NoRetentionEntries)
    } else if !(forall|i: int| 0 <= i < kvs.len() ==> (#[trigger] kvs[i]).table == kvs[0].table) {
        is_plain_refusal(e, op, ErrorKind::MixedTables)
    } else if kvs[0].table != "_retention"@ {
        e.op == op && e.kind == ErrorKind::NotRetention && e.names == seq![kvs[0].table]
    } else if !entry_laws::signer_may(reads, pos, uid, true) {
        is_signer_refusal(e, op, reads, pos, uid)
    } else if !entry_laws::grants_only_to_scoped(kvs, reads, pos + 1) {
        exists|i: int|
            {
                &&& 0 <= i < kvs.len()
                &&& row_laws::names_grant(#[trigger] kvs[i])
                &&& entry_laws::grants_only_to_scoped(kvs.take(i), reads, pos + 1)
                &&& is_regrant_refusal(
                    e,
                    reads,
                    pos + 1 + entry_laws::grants_before(kvs, i),
                    kvs[i].value->Text_0,
                )
            }
    } else {
        is_chain_refusal(e, op, reads, from, kvs)
    }
}

/// A rekey is refused at the first check that fails, and for what failed there.
pub proof fn law_rekey_refusals_are_true(
    uid: int,
    kvs: Seq<KvView>,
    reads: Seq<ProvenRead>,
    pos: int,
)
    requires
        0 <= pos,
    ensures
        RekeyOp::outcome(uid, kvs, reads, pos).0 is Err ==> is_rekey_refusal(
            RekeyOp::outcome(uid, kvs, reads, pos).0->Err_0,
            uid,
            kvs,
            reads,
            pos,
        ),
{
    let op = OpType::Rekey;
    let from = pos + 1 + entry_laws::grants_before(kvs, kvs.len() as int);
    assert(rekey_op::single_table(kvs) <==> forall|i: int|
        0 <= i < kvs.len() ==> (#[trigger] kvs[i]).table == kvs[0].table);
    lemma_signer_refusal(op, reads, pos, uid, true);
    entry_laws::law_rekey_grants_are_checked(kvs, reads, pos + 1);
    law_regrant_refusals_are_true(kvs, reads, pos + 1);
    law_chain_refusals_are_true(op, reads, from, kvs);
}

/// A read is taken exactly where it is the one at the position: then all that it
/// found is handed out and it is used up. Otherwise nothing is used up, and the
/// refusal says whether there is none or another.
pub proof fn law_only_wanted_reads_are_used_up(
    op: OpType,
    reads: Seq<ProvenRead>,
    pos: int,
    wanted: ReadOp,
)
    requires
        0 <= pos,
    ensures
        ({
            let step = reader::read_step(op, reads, pos, wanted);
            &&& step.0 is Ok <==> is_read(reads, pos, wanted)
            &&& step.0 is Ok ==> step.0->Ok_0 == reads[pos].results@ && step.1 == pos + 1
            &&& step.0 is Err ==> step.1 == pos && is_read_refusal(
                step.0->Err_0,
                op,
                reads,
                pos,
                wanted,
            )
        }),
{
}

/// Refused or not, no operation goes back behind the reads that it started at,
/// nor past the last one.
pub proof fn law_reads_are_used_up_forward(
    uid: int,
    kvs: Seq<KvView>,
    reads: Seq<ProvenRead>,
    pos: int,
)
    requires
        0 <= pos <= reads.len(),
    ensures
        pos <= CreateSpaceOp::outcome(uid, kvs, reads, pos).1 <= reads.len(),
        pos <= InviteUserOp::outcome(uid, kvs, reads, pos).1 <= reads.len(),
        pos <= RekeyOp::outcome(uid, kvs, reads, pos).1 <= reads.len(),
{
    lemma_bindings_forward(kvs, reads, pos + 1);
}

proof fn lemma_bindings_forward(kvs: Seq<KvView>, reads: Seq<ProvenRead>, pos: int)
    ensures
        pos <= grants::scoped_bindings_step(OpType::Rekey, reads, pos, kvs).1,
        pos <= reads.len() ==> grants::scoped_bindings_step(OpType::Rekey, reads, pos, kvs).1
            <= reads.len(),
    decreases kvs.len(),
{
    if kvs.len() > 0 {
        lemma_bindings_forward(kvs.skip(1), reads, pos);
        lemma_bindings_forward(kvs.skip(1), reads, pos + 1);
    }
}

} // verus!
