//! Which entries are accepted, what exactly they write, and that every refusal
//! is for the reason it gives.

use crate::changelog::{
    BatchOpView, ErrorKind, ErrorView, KvView, OpType, ProvenRead, ReadOp, Table, ValueView,
};
use crate::ops::create_space_op::CreateSpaceOp;
use crate::ops::grants;
use crate::ops::invite_user_op;
use crate::ops::invite_user_op::InviteUserOp;
use crate::ops::reader;
use crate::ops::rekey_op;
use crate::ops::rekey_op::RekeyOp;
use crate::ops::row_laws;
use crate::ops::rows;
use crate::ops::OpVerifier;
use vstd::prelude::*;
use vstd::string::*;

verus! {

/// Whether every write is to one of the tables, some to the members table, and
/// none to the key history.
pub open spec fn is_member_entry(kvs: Seq<KvView>) -> bool {
    &&& forall|i: int| 0 <= i < kvs.len() ==> row_laws::is_table_name((#[trigger] kvs[i]).table)
    &&& row_laws::part(kvs, Table::KeyHistory).len() == 0
    &&& row_laws::part(kvs, Table::Users).len() > 0
}

/// Whether some write is the key of a channel-grant row.
pub open spec fn grants_something(kvs: Seq<KvView>) -> bool {
    exists|i: int| 0 <= i < kvs.len() && row_laws::names_grant(#[trigger] kvs[i])
}

/// Whether a batch is the writes of one member row, followed by those of the
/// retention rows where there are any.
pub open spec fn writes_member_and_chain(
    ops: Seq<BatchOpView>,
    reads: Seq<ProvenRead>,
    pos: int,
    users: Seq<KvView>,
    retention: Seq<KvView>,
) -> bool {
    let m = users.len() as int + 1;
    &&& ops.len() >= m
    &&& row_laws::writes_member(ops.take(m), users, row_laws::counter_read(reads, pos))
    &&& if retention.len() == 0 {
        ops.len() == m
    } else {
        row_laws::writes_chain(
            ops.skip(m),
            retention,
            row_laws::counter_read(reads, pos + 2),
            row_laws::columns_at(reads, pos + 1).len() as int,
            |column: Seq<char>| row_laws::is_indexed(reads, pos + 3, column),
        )
    }
}

proof fn lemma_member_and_chain(
    op: OpType,
    reads: Seq<ProvenRead>,
    pos: int,
    users: Seq<KvView>,
    retention: Seq<KvView>,
    ops: Seq<BatchOpView>,
)
    requires
        0 <= pos,
        rows::user_row_step(op, reads, pos, users).0 is Ok,
        retention.len() == 0 ==> ops == rows::user_row_step(op, reads, pos, users).0->Ok_0.1,
        retention.len() > 0 ==> {
            &&& rows::retention_step(op, reads, pos + 1, retention).0 is Ok
            &&& ops == rows::user_row_step(op, reads, pos, users).0->Ok_0.1
                + rows::retention_step(op, reads, pos + 1, retention).0->Ok_0
        },
    ensures
        writes_member_and_chain(ops, reads, pos, users, retention),
{
    row_laws::law_member_gets_the_next_id(op, reads, pos, users);
    let user_ops = rows::user_row_step(op, reads, pos, users).0->Ok_0.1;
    let m = users.len() as int + 1;
    assert(ops.take(m) =~= user_ops);
    if retention.len() > 0 {
        row_laws::law_retention_rows_are_written_in_sequence(op, reads, pos + 1, retention);
        let retention_ops = rows::retention_step(op, reads, pos + 1, retention).0->Ok_0;
        assert(ops.skip(m) =~= retention_ops);
    }
}

proof fn lemma_grants(kvs: Seq<KvView>)
    ensures
        grants::has_grants(kvs) <==> grants_something(kvs),
{
    assert forall|i: int| 0 <= i < kvs.len() implies grants::is_grant(#[trigger] kvs[i])
        == row_laws::names_grant(kvs[i]) by {
        row_laws::law_grants_are_recognised(kvs[i]);
    }
    if grants::has_grants(kvs) {
        let i = choose|i: int| 0 <= i < kvs.len() && grants::is_grant(#[trigger] kvs[i]);
        assert(row_laws::names_grant(kvs[i]));
    }
    if grants_something(kvs) {
        let i = choose|i: int| 0 <= i < kvs.len() && row_laws::names_grant(#[trigger] kvs[i]);
        assert(grants::is_grant(kvs[i]));
    }
}

proof fn lemma_parts(kvs: Seq<KvView>)
    ensures
        rows::of_table(kvs, Table::Users) == row_laws::part(kvs, Table::Users),
        rows::of_table(kvs, Table::Retention) == row_laws::part(kvs, Table::Retention),
        rows::of_table(kvs, Table::KeyHistory) == row_laws::part(kvs, Table::KeyHistory),
{
    row_laws::law_entry_is_split_by_table(kvs, Table::Users);
    row_laws::law_entry_is_split_by_table(kvs, Table::Retention);
    row_laws::law_entry_is_split_by_table(kvs, Table::KeyHistory);
}

/// Whether the entry and the reads are those of a space that can be created:
/// nobody is a member yet, the first member's columns are those of the schema,
/// no grant is among the retention rows, and all rows can be inserted.
pub open spec fn can_create_space(kvs: Seq<KvView>, reads: Seq<ProvenRead>, pos: int) -> bool {
    let users = row_laws::part(kvs, Table::Users);
    let retention = row_laws::part(kvs, Table::Retention);
    &&& is_member_entry(kvs)
    &&& !grants_something(retention)
    &&& pos < reads.len()
    &&& reads[pos].op == ReadOp::Rows(Table::Users)
    &&& reads[pos].results@.len() == 0
    &&& row_laws::reads_columns(reads, pos + 1, Table::Users)
    &&& row_laws::same_columns(users, row_laws::columns_at(reads, pos + 1))
    &&& row_laws::fits_member(reads, pos + 2, users)
    &&& retention.len() > 0 ==> row_laws::fits_chain(reads, pos + 3, retention)
}

/// A space is created exactly where it can be, whoever signs, and then with the
/// rows that the entry gives.
pub proof fn law_create_space_accepts_exactly(
    uid: int,
    kvs: Seq<KvView>,
    reads: Seq<ProvenRead>,
    pos: int,
)
    requires
        0 <= pos,
    ensures
        CreateSpaceOp::outcome(uid, kvs, reads, pos).0 is Ok <==> can_create_space(
            kvs,
            reads,
            pos,
        ),
        can_create_space(kvs, reads, pos) ==> {
            let users = row_laws::part(kvs, Table::Users);
            let retention = row_laws::part(kvs, Table::Retention);
            &&& CreateSpaceOp::outcome(uid, kvs, reads, pos).1 == (if retention.len() > 0 {
                pos + 6
            } else {
                pos + 3
            })
            &&& writes_member_and_chain(
                CreateSpaceOp::outcome(uid, kvs, reads, pos).0->Ok_0,
                reads,
                pos + 2,
                users,
                retention,
            )
        },
{
    let op = OpType::CreateSpace;
    let users = row_laws::part(kvs, Table::Users);
    let retention = row_laws::part(kvs, Table::Retention);
    lemma_parts(kvs);
    lemma_grants(retention);
    row_laws::law_first_foreign_table_is_reported(kvs);
    row_laws::law_reads_are_taken_in_order(op, reads, pos + 1, Table::Users, 0);
    if row_laws::reads_columns(reads, pos + 1, Table::Users) {
        row_laws::law_columns_must_be_those_of_the_schema(
            op,
            Table::Users,
            users,
            row_laws::columns_at(reads, pos + 1),
        );
    }
    row_laws::law_member_gets_the_next_id(op, reads, pos + 2, users);
    row_laws::law_retention_rows_are_written_in_sequence(op, reads, pos + 3, retention);
    if CreateSpaceOp::outcome(uid, kvs, reads, pos).0 is Ok {
        lemma_member_and_chain(
            op,
            reads,
            pos + 2,
            users,
            retention,
            CreateSpaceOp::outcome(uid, kvs, reads, pos).0->Ok_0,
        );
    }
}

/// Whether `value` is what the first write to `column` gives.
pub open spec fn first_value(kvs: Seq<KvView>, column: Seq<char>, value: ValueView) -> bool {
    exists|i: int|
        {
            &&& 0 <= i < kvs.len()
            &&& (#[trigger] kvs[i]).column == column
            &&& kvs[i].value == value
            &&& forall|j: int| 0 <= j < i ==> (#[trigger] kvs[j]).column != column
        }
}

/// The value of a column is that of the first write to it.
pub proof fn law_first_write_to_a_column_counts(kvs: Seq<KvView>, column: Seq<char>)
    ensures
        match invite_user_op::column_value(kvs, column) {
            Some(value) => first_value(kvs, column, value),
            None => forall|j: int| 0 <= j < kvs.len() ==> (#[trigger] kvs[j]).column != column,
        },
        forall|value: ValueView| #[trigger]
            first_value(kvs, column, value) ==> invite_user_op::column_value(kvs, column) == Some(
                value,
            ),
    decreases kvs.len(),
{
    if kvs.len() > 0 {
        let rest = kvs.skip(1);
        law_first_write_to_a_column_counts(rest, column);
        if kvs[0].column == column {
            assert(first_value(kvs, column, kvs[0].value));
            assert forall|value: ValueView| #[trigger]
                first_value(kvs, column, value) implies value == kvs[0].value by {
                let i = choose|i: int|
                    {
                        &&& 0 <= i < kvs.len()
                        &&& (#[trigger] kvs[i]).column == column
                        &&& kvs[i].value == value
                        &&& forall|j: int| 0 <= j < i ==> (#[trigger] kvs[j]).column != column
                    };
                assert(i == 0);
            }
        } else {
            assert forall|value: ValueView| #[trigger] first_value(kvs, column, value)
                <==> first_value(rest, column, value) by {
                if first_value(kvs, column, value) {
                    let i = choose|i: int|
                        {
                            &&& 0 <= i < kvs.len()
                            &&& (#[trigger] kvs[i]).column == column
                            &&& kvs[i].value == value
                            &&& forall|j: int| 0 <= j < i ==> (#[trigger] kvs[j]).column != column
                        };
                    assert(rest[i - 1] == kvs[i]);
                    assert forall|j: int| 0 <= j < i - 1 implies (#[trigger] rest[j]).column
                        != column by {
                        assert(rest[j] == kvs[j + 1]);
                    }
                }
                if first_value(rest, column, value) {
                    let i = choose|i: int|
                        {
                            &&& 0 <= i < rest.len()
                            &&& (#[trigger] rest[i]).column == column
                            &&& rest[i].value == value
                            &&& forall|j: int| 0 <= j < i ==> (#[trigger] rest[j]).column != column
                        };
                    assert(kvs[i + 1] == rest[i]);
                    assert forall|j: int| 0 <= j < i + 1 implies (#[trigger] kvs[j]).column
                        != column by {
                        if j > 0 {
                            assert(kvs[j] == rest[j - 1]);
                        }
                    }
                }
            }
            if invite_user_op::column_value(rest, column) is None {
                assert forall|j: int| 0 <= j < kvs.len() implies (#[trigger] kvs[j]).column
                    != column by {
                    if j > 0 {
                        assert(kvs[j] == rest[j - 1]);
                    }
                }
            }
        }
    }
}

/// Whether every grant among the writes is one to `uid`, canonically spelled.
pub open spec fn grants_only_to(kvs: Seq<KvView>, uid: int) -> bool {
    forall|i: int|
        0 <= i < kvs.len() && row_laws::names_grant(#[trigger] kvs[i]) ==> exists|u: i64, c: i64|
            u == uid && #[trigger] row_laws::spells_grant(kvs[i].value->Text_0, u, c)
}

/// The grants of an invite are refused exactly where one of them is not a
/// canonical grant to the invited member, and the first such one is reported.
pub proof fn law_invite_grants_are_checked(kvs: Seq<KvView>, invitee: int)
    ensures
        match grants::invite_binding_error(OpType::InviteUser, kvs, invitee) {
            None => grants_only_to(kvs, invitee),
            Some(e) => exists|i: int|
                {
                    &&& 0 <= i < kvs.len()
                    &&& row_laws::names_grant(#[trigger] kvs[i])
                    &&& grants_only_to(kvs.take(i), invitee)
                    &&& e.op == OpType::InviteUser
                    &&& is_binding_refusal(e, kvs[i].value->Text_0, invitee)
                },
        },
    decreases kvs.len(),
{
    let op = OpType::InviteUser;
    if kvs.len() > 0 {
        let rest = kvs.skip(1);
        law_invite_grants_are_checked(rest, invitee);
        row_laws::law_grants_are_recognised(kvs[0]);
        let key = kvs[0].value->Text_0;
        assert forall|u: i64, c: i64| grants::canonical_ids(key) == Some((u, c))
            <==> #[trigger] row_laws::spells_grant(key, u, c) by {
            row_laws::law_canonical_grants_have_one_spelling(key, u, c);
        }
        let first_passes = !grants::is_grant(kvs[0]) || (grants::canonical_ids(key) is Some
            && grants::canonical_ids(key)->Some_0.0 == invitee);
        if first_passes {
            if grants::is_grant(kvs[0]) {
                let (u, c) = grants::canonical_ids(key)->Some_0;
                assert(row_laws::spells_grant(key, u, c));
            }
            match grants::invite_binding_error(op, rest, invitee) {
                None => {
                    assert forall|i: int|
                        0 <= i < kvs.len() && row_laws::names_grant(
                            #[trigger] kvs[i],
                        ) implies exists|u: i64, c: i64|
                        u == invitee && #[trigger] row_laws::spells_grant(
                            kvs[i].value->Text_0,
                            u,
                            c,
                        ) by {
                        if i > 0 {
                            assert(kvs[i] == rest[i - 1]);
                        }
                    }
                },
                Some(e) => {
                    let i = choose|i: int|
                        {
                            &&& 0 <= i < rest.len()
                            &&& row_laws::names_grant(#[trigger] rest[i])
                            &&& grants_only_to(rest.take(i), invitee)
                            &&& e.op == OpType::InviteUser
                            &&& is_binding_refusal(e, rest[i].value->Text_0, invitee)
                        };
                    assert(kvs[i + 1] == rest[i]);
                    let before = kvs.take(i + 1);
                    assert forall|k: int|
                        0 <= k < before.len() && row_laws::names_grant(
                            #[trigger] before[k],
                        ) implies exists|u: i64, c: i64|
                        u == invitee && #[trigger] row_laws::spells_grant(
                            before[k].value->Text_0,
                            u,
                            c,
                        ) by {
                        if k > 0 {
                            assert(before[k] == rest.take(i)[k - 1]);
                        } else {
                            assert(before[k] == kvs[0]);
                        }
                    }
                },
            }
        } else {
            assert(grants_only_to(kvs.take(0), invitee));
            if grants::canonical_ids(key) is Some {
                let (u, c) = grants::canonical_ids(key)->Some_0;
                assert(row_laws::spells_grant(key, u, c));
            }
        }
    }
}

/// Whether a refusal is the one of a grant with this key: that it is not
/// canonical, or that it names another user than the invited one.
pub open spec fn is_binding_refusal(e: ErrorView, key: Seq<char>, invitee: int) -> bool {
    if exists|u: i64, c: i64| #[trigger] row_laws::spells_grant(key, u, c) {
        exists|u: i64, c: i64|
            {
                &&& #[trigger] row_laws::spells_grant(key, u, c)
                &&& u != invitee
                &&& e.kind == (ErrorKind::GrantNotForInvitee { uid: u, invitee: invitee as i64 })
                &&& e.names.len() == 0
            }
    } else {
        e.kind == ErrorKind::NonCanonicalGrant && e.names == seq![key]
    }
}

/// Whether the signer has joined, as the read at `pos` found, and is a full
/// member where one is needed.
pub open spec fn signer_may(reads: Seq<ProvenRead>, pos: int, uid: int, full: bool) -> bool {
    exists|status: i64|
        {
            &&& #[trigger] row_laws::reads_status(reads, pos, uid, status)
            &&& status != 0 && status != 3
            &&& full ==> status == 1
        }
}

/// Whether the member row inserts a provisional status, a scoped one where one
/// is needed.
pub open spec fn inserts_invited(users: Seq<KvView>, scoped: bool) -> bool {
    exists|status: i64|
        {
            &&& #[trigger] first_value(users, "status"@, ValueView::Integer(status))
            &&& status == 3 || (status == 0 && !scoped)
        }
}

/// Whether the entry and the reads are those of a member that the signer can
/// invite: the signer has joined, the member's columns are those of the schema,
/// the inserted status is provisional, and all rows can be inserted. Where the
/// invite carries grants, the signer is a full member, the invite is a scoped
/// one, and every grant is a canonical one to the invited member.
pub open spec fn can_invite(uid: int, kvs: Seq<KvView>, reads: Seq<ProvenRead>, pos: int) -> bool {
    let users = row_laws::part(kvs, Table::Users);
    let retention = row_laws::part(kvs, Table::Retention);
    &&& is_member_entry(kvs)
    &&& signer_may(reads, pos, uid, grants_something(retention))
    &&& row_laws::reads_columns(reads, pos + 1, Table::Users)
    &&& row_laws::same_columns(users, row_laws::columns_at(reads, pos + 1))
    &&& inserts_invited(users, grants_something(retention))
    &&& row_laws::fits_member(reads, pos + 2, users)
    &&& grants_only_to(retention, row_laws::counter_read(reads, pos + 2))
    &&& retention.len() > 0 ==> row_laws::fits_chain(reads, pos + 3, retention)
}

proof fn lemma_signer(
    op: OpType,
    reads: Seq<ProvenRead>,
    pos: int,
    uid: int,
)
    requires
        0 <= pos,
    ensures
        grants::access_step(op, reads, pos, uid).0 is Ok <==> signer_may(reads, pos, uid, false),
        grants::access_step(op, reads, pos, uid).0 is Ok ==> {
            let status = grants::access_step(op, reads, pos, uid).0->Ok_0;
            &&& row_laws::reads_status(reads, pos, uid, status)
            &&& status != 0 && status != 3
            &&& grants::access_step(op, reads, pos, uid).1 == pos + 1
            &&& status == 1 <==> signer_may(reads, pos, uid, true)
        },
        signer_may(reads, pos, uid, true) ==> signer_may(reads, pos, uid, false),
{
    row_laws::law_reads_are_taken_in_order(op, reads, pos, Table::Users, uid);
    assert forall|status: i64| #[trigger] row_laws::reads_status(reads, pos, uid, status) implies
        reader::status_step(op, reads, pos, uid).0 == Ok::<Option<i64>, ErrorView>(Some(status)) by {}
    if let Ok(Some(status)) = reader::status_step(op, reads, pos, uid).0 {
        assert(row_laws::reads_status(reads, pos, uid, status));
    }
}

proof fn lemma_status(users: Seq<KvView>, with_grants: bool)
    ensures
        invite_user_op::status_error(users, with_grants) is None <==> inserts_invited(
            users,
            with_grants,
        ),
{
    let column = "status"@;
    law_first_write_to_a_column_counts(users, column);
    if let Some(ValueView::Integer(status)) = invite_user_op::column_value(users, column) {
        assert(first_value(users, column, ValueView::Integer(status)));
    }
}

/// A member is invited exactly where they can be, and then with the rows that
/// the entry gives.
pub proof fn law_invite_accepts_exactly(
    uid: int,
    kvs: Seq<KvView>,
    reads: Seq<ProvenRead>,
    pos: int,
)
    requires
        0 <= pos,
    ensures
        InviteUserOp::outcome(uid, kvs, reads, pos).0 is Ok <==> can_invite(uid, kvs, reads, pos),
        can_invite(uid, kvs, reads, pos) ==> {
            let users = row_laws::part(kvs, Table::Users);
            let retention = row_laws::part(kvs, Table::Retention);
            &&& InviteUserOp::outcome(uid, kvs, reads, pos).1 == (if retention.len() > 0 {
                pos + 6
            } else {
                pos + 3
            })
            &&& writes_member_and_chain(
                InviteUserOp::outcome(uid, kvs, reads, pos).0->Ok_0,
                reads,
                pos + 2,
                users,
                retention,
            )
        },
{
    let op = OpType::InviteUser;
    let users = row_laws::part(kvs, Table::Users);
    let retention = row_laws::part(kvs, Table::Retention);
    lemma_parts(kvs);
    lemma_grants(retention);
    row_laws::law_first_foreign_table_is_reported(kvs);
    lemma_signer(op, reads, pos, uid);
    row_laws::law_reads_are_taken_in_order(op, reads, pos + 1, Table::Users, 0);
    if row_laws::reads_columns(reads, pos + 1, Table::Users) {
        row_laws::law_columns_must_be_those_of_the_schema(
            op,
            Table::Users,
            users,
            row_laws::columns_at(reads, pos + 1),
        );
    }
    lemma_status(users, grants_something(retention));
    row_laws::law_member_gets_the_next_id(op, reads, pos + 2, users);
    row_laws::law_retention_rows_are_written_in_sequence(op, reads, pos + 3, retention);
    law_invite_grants_are_checked(retention, row_laws::counter_read(reads, pos + 2));
    if grants::invite_binding_error(op, retention, row_laws::counter_read(reads, pos + 2)) is Some {
        lemma_binding_refused(retention, row_laws::counter_read(reads, pos + 2));
    }
    if InviteUserOp::outcome(uid, kvs, reads, pos).0 is Ok {
        lemma_member_and_chain(
            op,
            reads,
            pos + 2,
            users,
            retention,
            InviteUserOp::outcome(uid, kvs, reads, pos).0->Ok_0,
        );
    }
}

proof fn lemma_binding_refused(kvs: Seq<KvView>, invitee: int)
    requires
        grants::invite_binding_error(OpType::InviteUser, kvs, invitee) is Some,
    ensures
        !grants_only_to(kvs, invitee),
{
    law_invite_grants_are_checked(kvs, invitee);
    let e = grants::invite_binding_error(OpType::InviteUser, kvs, invitee)->Some_0;
    let i = choose|i: int|
        {
            &&& 0 <= i < kvs.len()
            &&& row_laws::names_grant(#[trigger] kvs[i])
            &&& grants_only_to(kvs.take(i), invitee)
            &&& e.op == OpType::InviteUser
            &&& is_binding_refusal(e, kvs[i].value->Text_0, invitee)
        };
    let key = kvs[i].value->Text_0;
    assert forall|u: i64, c: i64, v: i64, d: i64|
        #[trigger] row_laws::spells_grant(key, u, c) && #[trigger] row_laws::spells_grant(
            key,
            v,
            d,
        ) implies u == v by {
        row_laws::law_canonical_grants_have_one_spelling(key, u, c);
        row_laws::law_canonical_grants_have_one_spelling(key, v, d);
    }
}

/// How many of the writes before position `i` are grants.
pub open spec fn grants_before(kvs: Seq<KvView>, i: int) -> int {
    kvs.take(i).filter(|kv: KvView| row_laws::names_grant(kv)).len() as int
}

/// Whether each grant is canonical, and the read for it, one for each grant in
/// order from `pos` on, found that its user is a scoped member.
pub open spec fn grants_only_to_scoped(
    kvs: Seq<KvView>,
    reads: Seq<ProvenRead>,
    pos: int,
) -> bool {
    forall|i: int|
        0 <= i < kvs.len() && row_laws::names_grant(#[trigger] kvs[i]) ==> exists|
            u: i64,
            c: i64,
            status: i64,
        |
            {
                &&& #[trigger] row_laws::spells_grant(kvs[i].value->Text_0, u, c)
                &&& #[trigger] row_laws::reads_status(
                    reads,
                    pos + grants_before(kvs, i),
                    u as int,
                    status,
                )
                &&& status == 2 || status == 3
            }
}

pub proof fn lemma_grants_before(kvs: Seq<KvView>, i: int)
    requires
        0 < i <= kvs.len(),
    ensures
        grants_before(kvs, i) == grants_before(kvs.skip(1), i - 1) + (if row_laws::names_grant(
            kvs[0],
        ) {
            1int
        } else {
            0int
        }),
{
    let pred = |kv: KvView| row_laws::names_grant(kv);
    let head = seq![kvs[0]];
    let tail = kvs.skip(1).take(i - 1);
    assert(kvs.take(i) =~= head + tail);
    Seq::filter_distributes_over_add(head, tail, pred);
    reveal(Seq::filter);
    assert(head.drop_last() =~= Seq::<KvView>::empty());
    assert(head.drop_last().filter(pred).len() == 0);
}

/// The grants of a rekey are accepted exactly where each is canonical and its
/// own read shows that its user is a scoped member.
pub proof fn law_rekey_grants_are_checked(kvs: Seq<KvView>, reads: Seq<ProvenRead>, pos: int)
    requires
        0 <= pos,
    ensures
        ({
            let step = grants::scoped_bindings_step(OpType::Rekey, reads, pos, kvs);
            &&& step.0 is Ok <==> grants_only_to_scoped(kvs, reads, pos)
            &&& step.0 is Ok ==> step.1 == pos + grants_before(kvs, kvs.len() as int)
        }),
    decreases kvs.len(),
{
    let op = OpType::Rekey;
    let step = grants::scoped_bindings_step(op, reads, pos, kvs);
    reveal(Seq::filter);
    assert(grants_before(kvs, 0) == 0) by {
        assert(kvs.take(0).len() == 0);
    }
    if kvs.len() > 0 {
        let rest = kvs.skip(1);
        let key = kvs[0].value->Text_0;
        row_laws::law_grants_are_recognised(kvs[0]);
        lemma_grants_before(kvs, kvs.len() as int);
        assert forall|i: int| 0 < i < kvs.len() implies #[trigger] kvs[i] == rest[i - 1]
            && grants_before(kvs, i) == grants_before(rest, i - 1) + (if row_laws::names_grant(
            kvs[0],
        ) {
            1int
        } else {
            0int
        }) by {
            lemma_grants_before(kvs, i);
        }
        if !grants::is_grant(kvs[0]) {
            law_rekey_grants_are_checked(rest, reads, pos);
            lemma_shift(kvs, reads, pos, pos);
        } else {
            law_rekey_grants_are_checked(rest, reads, pos + 1);
            lemma_shift(kvs, reads, pos, pos + 1);
            assert forall|u: i64, c: i64| grants::canonical_ids(key) == Some((u, c))
                <==> #[trigger] row_laws::spells_grant(key, u, c) by {
                row_laws::law_canonical_grants_have_one_spelling(key, u, c);
            }
            if grants::canonical_ids(key) is Some {
                let (u, c) = grants::canonical_ids(key)->Some_0;
                row_laws::law_reads_are_taken_in_order(op, reads, pos, Table::Users, u as int);
                assert(row_laws::spells_grant(key, u, c));
                if let Ok(Some(status)) = reader::status_step(op, reads, pos, u as int).0 {
                    assert(row_laws::reads_status(reads, pos, u as int, status));
                }
            }
        }
    }
}

/// Whether the first write passes, where it is a grant, by the read at `pos`.
pub open spec fn first_grant_passes(kvs: Seq<KvView>, reads: Seq<ProvenRead>, pos: int) -> bool {
    row_laws::names_grant(kvs[0]) ==> exists|u: i64, c: i64, status: i64|
        {
            &&& #[trigger] row_laws::spells_grant(kvs[0].value->Text_0, u, c)
            &&& #[trigger] row_laws::reads_status(reads, pos, u as int, status)
            &&& status == 2 || status == 3
        }
}

pub proof fn lemma_shift(kvs: Seq<KvView>, reads: Seq<ProvenRead>, pos: int, next: int)
    requires
        kvs.len() > 0,
        next == (if row_laws::names_grant(kvs[0]) {
            pos + 1
        } else {
            pos
        }),
    ensures
        grants_only_to_scoped(kvs, reads, pos) <==> first_grant_passes(kvs, reads, pos)
            && grants_only_to_scoped(kvs.skip(1), reads, next),
{
    let rest = kvs.skip(1);
    assert(grants_before(kvs, 0) == 0) by {
        reveal(Seq::filter);
        assert(kvs.take(0).len() == 0);
    }
    assert forall|i: int| 0 < i < kvs.len() implies #[trigger] kvs[i] == rest[i - 1] && pos
        + grants_before(kvs, i) == next + grants_before(rest, i - 1) by {
        lemma_grants_before(kvs, i);
    }
    if grants_only_to_scoped(kvs, reads, pos) {
        assert(row_laws::names_grant(kvs[0]) ==> first_grant_passes(kvs, reads, pos));
        assert forall|k: int| 0 <= k < rest.len() && row_laws::names_grant(#[trigger] rest[k])
            implies exists|u: i64, c: i64, status: i64|
            {
                &&& #[trigger] row_laws::spells_grant(rest[k].value->Text_0, u, c)
                &&& #[trigger] row_laws::reads_status(
                    reads,
                    next + grants_before(rest, k),
                    u as int,
                    status,
                )
                &&& status == 2 || status == 3
            } by {
            assert(kvs[k + 1] == rest[k]);
        }
    }
    if first_grant_passes(kvs, reads, pos) && grants_only_to_scoped(rest, reads, next) {
        assert forall|i: int| 0 <= i < kvs.len() && row_laws::names_grant(#[trigger] kvs[i])
            implies exists|u: i64, c: i64, status: i64|
            {
                &&& #[trigger] row_laws::spells_grant(kvs[i].value->Text_0, u, c)
                &&& #[trigger] row_laws::reads_status(
                    reads,
                    pos + grants_before(kvs, i),
                    u as int,
                    status,
                )
                &&& status == 2 || status == 3
            } by {
            if i > 0 {
                assert(kvs[i] == rest[i - 1]);
            }
        }
    }
}

/// Whether the entry and the reads are those of a rekey that the signer can make:
/// all writes are to the retention table, the signer is a full member, every
/// grant is canonical and to a scoped member, and the rows can be inserted.
pub open spec fn can_rekey(uid: int, kvs: Seq<KvView>, reads: Seq<ProvenRead>, pos: int) -> bool {
    let total = grants_before(kvs, kvs.len() as int);
    &&& kvs.len() > 0
    &&& forall|i: int| 0 <= i < kvs.len() ==> (#[trigger] kvs[i]).table == "_retention"@
    &&& signer_may(reads, pos, uid, true)
    &&& grants_only_to_scoped(kvs, reads, pos + 1)
    &&& row_laws::fits_chain(reads, pos + 1 + total, kvs)
}

/// A rekey is accepted exactly where it can be made, and then writes the rows
/// that the entry gives.
pub proof fn law_rekey_accepts_exactly(
    uid: int,
    kvs: Seq<KvView>,
    reads: Seq<ProvenRead>,
    pos: int,
)
    requires
        0 <= pos,
    ensures
        RekeyOp::outcome(uid, kvs, reads, pos).0 is Ok <==> can_rekey(uid, kvs, reads, pos),
        can_rekey(uid, kvs, reads, pos) ==> {
            let from = pos + 1 + grants_before(kvs, kvs.len() as int);
            &&& RekeyOp::outcome(uid, kvs, reads, pos).1 == from + 3
            &&& row_laws::writes_chain(
                RekeyOp::outcome(uid, kvs, reads, pos).0->Ok_0,
                kvs,
                row_laws::counter_read(reads, from + 1),
                row_laws::columns_at(reads, from).len() as int,
                |column: Seq<char>| row_laws::is_indexed(reads, from + 2, column),
            )
        },
{
    let op = OpType::Rekey;
    let from = pos + 1 + grants_before(kvs, kvs.len() as int);
    lemma_signer(op, reads, pos, uid);
    law_rekey_grants_are_checked(kvs, reads, pos + 1);
    row_laws::law_retention_rows_are_written_in_sequence(op, reads, from, kvs);
    if rekey_op::shape_error(kvs) is None {
        assert forall|i: int| 0 <= i < kvs.len() implies (#[trigger] kvs[i]).table
            == "_retention"@ by {}
    } else if kvs.len() > 0 && forall|i: int|
        0 <= i < kvs.len() ==> (#[trigger] kvs[i]).table == "_retention"@ {
        assert(kvs[0].table == "_retention"@);
        assert(rekey_op::single_table(kvs));
    }
}

} // verus!
