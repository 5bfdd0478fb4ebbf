//! The entry that invites a member.

use crate::changelog;
use crate::changelog::{
    BatchOp, BatchOpView, ChangelogEntry, ChangelogError, ErrorKind, ErrorView, KvData, KvView,
    OpType, ProvenRead, StoredValue, Table, ValueView,
};
use crate::ops::grants;
use crate::ops::grants::{
    any_grant, is_provisional_status, require_full_member_signer, validate_invite_grant_bindings,
    validate_user_access, STATUS_SCOPED_PROVISIONAL,
};
use crate::ops::reader;
use crate::ops::reader::VerifierReader;
use crate::ops::rows;
use crate::ops::rows::{
    insert_retention_rows, insert_user_row, partition_composite_entry, require_schema_columns,
};
use crate::ops::{OpVerifier, OpVerifyResult};
use crate::text::text_eq;
use vstd::prelude::*;
use vstd::string::*;

verus! {

/// The members column that holds a member's status.
pub const STATUS_COLUMN: &'static str = "status";

/// InviteUser operation verifier.
///
/// New member ids are allocated as any other row id: read from the members
/// table's counter, which is then bumped. They are therefore sequential and
/// monotonically increasing.
pub struct InviteUserOp;

/// The value of the first write to `column`.
pub open spec fn column_value(kvs: Seq<KvView>, column: Seq<char>) -> Option<ValueView>
    decreases kvs.len(),
{
    if kvs.len() == 0 {
        None
    } else if kvs[0].column == column {
        Some(kvs[0].value)
    } else {
        column_value(kvs.skip(1), column)
    }
}

/// Why the shape of the entry alone is refused, if it is.
pub open spec fn shape_error(kvs: Seq<KvView>) -> Option<ErrorView> {
    let op = OpType::InviteUser;
    if let Some(name) = rows::foreign_table(kvs) {
        Some(changelog::refusal_naming(op, ErrorKind::UnknownTable, name))
    } else if rows::of_table(kvs, Table::KeyHistory).len() > 0 {
        Some(changelog::refusal(op, ErrorKind::UnexpectedKeyHistory))
    } else if rows::of_table(kvs, Table::Users).len() == 0 {
        Some(changelog::refusal(op, ErrorKind::NoUserEntries))
    } else {
        None
    }
}

/// Reads the signer's status: they must have joined, and be a full member
/// where the invite carries grants.
pub open spec fn signer_step(reads: Seq<ProvenRead>, pos: int, uid: int, with_grants: bool) -> (
    Result<(), ErrorView>,
    int,
) {
    let op = OpType::InviteUser;
    match grants::access_step(op, reads, pos, uid) {
        (Err(e), p) => (Err(e), p),
        (Ok(status), p) => match grants::full_member_error(op, uid, status as int) {
            Some(e) => if with_grants {
                (Err(e), p)
            } else {
                (Ok(()), p)
            },
            None => (Ok(()), p),
        },
    }
}

/// Why the status that the invite inserts is refused, if it is: it must be
/// provisional, and scoped where the invite carries grants.
pub open spec fn status_error(users: Seq<KvView>, with_grants: bool) -> Option<ErrorView> {
    let op = OpType::InviteUser;
    match column_value(users, STATUS_COLUMN@) {
        Some(ValueView::Integer(status)) => if !grants::provisional(status as int) {
            Some(changelog::refusal(op, ErrorKind::NotProvisional { status }))
        } else if with_grants && status != STATUS_SCOPED_PROVISIONAL {
            Some(changelog::refusal(op, ErrorKind::GrantOnFullInvite { status }))
        } else {
            None
        },
        _ => Some(changelog::refusal(op, ErrorKind::StatusNotInserted)),
    }
}

/// Checks the invited member's columns and status.
pub open spec fn invitee_step(
    reads: Seq<ProvenRead>,
    pos: int,
    users: Seq<KvView>,
    with_grants: bool,
) -> (Result<(), ErrorView>, int) {
    let op = OpType::InviteUser;
    match reader::columns_step(op, reads, pos, Table::Users) {
        (Err(e), p) => (Err(e), p),
        (Ok(schema), p) => if let Some(e) = rows::columns_error(op, Table::Users, users, schema) {
            (Err(e), p)
        } else if let Some(e) = status_error(users, with_grants) {
            (Err(e), p)
        } else {
            (Ok(()), p)
        },
    }
}

/// The invited member's row and, where there are any, the retention rows,
/// whose grants must all name the invited member.
pub open spec fn inserts_step(
    reads: Seq<ProvenRead>,
    pos: int,
    users: Seq<KvView>,
    retention: Seq<KvView>,
) -> (Result<Seq<BatchOpView>, ErrorView>, int) {
    let op = OpType::InviteUser;
    match rows::user_row_step(op, reads, pos, users) {
        (Err(e), p) => (Err(e), p),
        (Ok((row_id, user_ops)), p) => if retention.len() == 0 {
            (Ok(user_ops), p)
        } else if let Some(e) = grants::invite_binding_error(op, retention, row_id) {
            (Err(e), p)
        } else {
            match rows::retention_step(op, reads, p, retention) {
                (Err(e), q) => (Err(e), q),
                (Ok(retention_ops), q) => (Ok(user_ops + retention_ops), q),
            }
        },
    }
}

/// The value of the first write to `column`, as an integer.
fn extract_i64_column<'a>(kvs: &Vec<&'a KvData>, column: &str) -> (r: Option<i64>)
    ensures
        r == (match column_value(grants::kv_views(kvs@), column@) {
            Some(ValueView::Integer(n)) => Some(n),
            _ => None,
        }),
{
    let ghost views = grants::kv_views(kvs@);
    let mut i: usize = 0;
    assert(views.skip(0) =~= views);
    while i < kvs.len()
        invariant
            views == grants::kv_views(kvs@),
            i <= kvs@.len(),
            column_value(views, column@) == column_value(views.skip(i as int), column@),
        decreases kvs@.len() - i,
    {
        assert(views.skip(i as int)[0] == kvs@[i as int]@);
        assert(views.skip(i as int).skip(1) =~= views.skip(i + 1));
        if text_eq(kvs[i].key.column.as_str(), column) {
            return match &kvs[i].value {
                StoredValue::Integer(n) => Some(*n),
                _ => None,
            };
        }
        i = i + 1;
    }
    None
}

/// The inserted status must be provisional, and scoped where the invite
/// carries grants: those hand the invitee channel keys in lieu of the group
/// key, which a full invite delivers.
fn require_invited_status(users: &Vec<&KvData>, with_grants: bool) -> (r: Result<
    (),
    ChangelogError,
>)
    ensures
        match status_error(grants::kv_views(users@), with_grants) {
            Some(error) => r is Err && r->Err_0@ == error,
            None => r is Ok,
        },
{
    let op = OpType::InviteUser;
    match extract_i64_column(users, STATUS_COLUMN) {
        Some(status) => {
            if !is_provisional_status(status) {
                Err(ChangelogError::new(op, ErrorKind::NotProvisional { status }))
            } else if with_grants && status != STATUS_SCOPED_PROVISIONAL {
                Err(ChangelogError::new(op, ErrorKind::GrantOnFullInvite { status }))
            } else {
                Ok(())
            }
        },
        None => Err(ChangelogError::new(op, ErrorKind::StatusNotInserted)),
    }
}

impl OpVerifier for InviteUserOp {
    open spec fn outcome(uid: int, kvs: Seq<KvView>, reads: Seq<ProvenRead>, pos: int) -> (
        Result<Seq<BatchOpView>, ErrorView>,
        int,
    ) {
        let users = rows::of_table(kvs, Table::Users);
        let retention = rows::of_table(kvs, Table::Retention);
        let with_grants = grants::has_grants(retention);
        if let Some(e) = shape_error(kvs) {
            (Err(e), pos)
        } else {
            match signer_step(reads, pos, uid, with_grants) {
                (Err(e), p) => (Err(e), p),
                (Ok(_), p) => match invitee_step(reads, p, users, with_grants) {
                    (Err(e), q) => (Err(e), q),
                    (Ok(_), q) => inserts_step(reads, q, users, retention),
                },
            }
        }
    }

    fn extract_and_validate<F: Fn(&BatchOp) -> Vec<u8>>(
        entry: &ChangelogEntry,
        reader: &mut VerifierReader,
        key_of: F,
    ) -> (r: Result<OpVerifyResult, ChangelogError>) {
        let op = OpType::InviteUser;
        let parts = match partition_composite_entry(op, entry) {
            Ok(parts) => parts,
            Err(e) => return Err(e),
        };
        assert(grants::kv_views(parts.users@).len() == parts.users@.len());
        assert(grants::kv_views(parts.retention@).len() == parts.retention@.len());
        assert(grants::kv_views(parts.key_history@).len() == parts.key_history@.len());
        if parts.key_history.len() > 0 {
            return Err(ChangelogError::new(op, ErrorKind::UnexpectedKeyHistory));
        }
        if parts.users.len() == 0 {
            return Err(ChangelogError::new(op, ErrorKind::NoUserEntries));
        }
        let signer_status: i64 = match validate_user_access(op, entry.uid, reader) {
            Ok(status) => status,
            Err(e) => return Err(e),
        };
        // Only a full member may issue grants: a scoped signer must not be able
        // to hand them out by inviting somebody.
        let with_grants = any_grant(&parts.retention);
        if with_grants {
            match require_full_member_signer(op, signer_status, entry.uid) {
                Ok(()) => {},
                Err(e) => return Err(e),
            }
        }
        let schema = match reader.read_schema_columns(op, Table::Users) {
            Ok(schema) => schema,
            Err(e) => return Err(e),
        };
        match require_schema_columns(op, Table::Users, &parts.users, schema) {
            Ok(()) => {},
            Err(e) => return Err(e),
        }
        match require_invited_status(&parts.users, with_grants) {
            Ok(()) => {},
            Err(e) => return Err(e),
        }
        let (row_id, mut batch_ops) = match insert_user_row(op, &parts.users, reader) {
            Ok(inserted) => inserted,
            Err(e) => return Err(e),
        };
        if parts.retention.len() > 0 {
            match validate_invite_grant_bindings(op, &parts.retention, row_id) {
                Ok(()) => {},
                Err(e) => return Err(e),
            }
            let mut retention_ops = match insert_retention_rows(op, &parts.retention, reader) {
                Ok(retention_ops) => retention_ops,
                Err(e) => return Err(e),
            };
            proof {
                changelog::lemma_batch_views_append(batch_ops@, retention_ops@);
            }
            batch_ops.append(&mut retention_ops);
        }
        Ok(OpVerifyResult::from_batch(batch_ops, key_of))
    }
}

} // verus!
