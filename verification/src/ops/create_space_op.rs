//! The entry that creates a space: its first member and the initial retention
//! rows.

use crate::changelog;
use crate::changelog::{
    BatchOp, BatchOpView, ChangelogEntry, ChangelogError, ErrorKind, ErrorView, KvView, OpType,
    ProvenRead, ReadOp, Table,
};
use crate::ops::grants;
use crate::ops::grants::reject_channel_grant_entries;
use crate::ops::reader;
use crate::ops::reader::VerifierReader;
use crate::ops::rows;
use crate::ops::rows::{
    insert_retention_rows, insert_user_row, partition_composite_entry, require_schema_columns,
};
use crate::ops::{OpVerifier, OpVerifyResult};
use vstd::prelude::*;

verus! {

/// CreateSpace operation verifier.
pub struct CreateSpaceOp;

/// Why the shape of the entry alone is refused, if it is.
pub open spec fn shape_error(kvs: Seq<KvView>) -> Option<ErrorView> {
    let op = OpType::CreateSpace;
    if let Some(name) = rows::foreign_table(kvs) {
        Some(changelog::refusal_naming(op, ErrorKind::UnknownTable, name))
    } else if rows::of_table(kvs, Table::KeyHistory).len() > 0 {
        Some(changelog::refusal(op, ErrorKind::UnexpectedKeyHistory))
    } else if rows::of_table(kvs, Table::Users).len() == 0 {
        Some(changelog::refusal(op, ErrorKind::NoUserEntries))
    } else if grants::has_grants(rows::of_table(kvs, Table::Retention)) {
        Some(changelog::refusal(op, ErrorKind::GrantNotAllowed))
    } else {
        None
    }
}

/// Checks that there are no members yet and that the new member's columns are
/// those of the schema.
pub open spec fn genesis_step(reads: Seq<ProvenRead>, pos: int, users: Seq<KvView>) -> (
    Result<(), ErrorView>,
    int,
) {
    let op = OpType::CreateSpace;
    match reader::read_step(op, reads, pos, ReadOp::Rows(Table::Users)) {
        (Err(e), p) => (Err(e), p),
        (Ok(results), p) => if results.len() > 0 {
            (Err(changelog::refusal(op, ErrorKind::UsersNotEmpty)), p)
        } else {
            match reader::columns_step(op, reads, p, Table::Users) {
                (Err(e), q) => (Err(e), q),
                (Ok(schema), q) => match rows::columns_error(op, Table::Users, users, schema) {
                    Some(e) => (Err(e), q),
                    None => (Ok(()), q),
                },
            }
        },
    }
}

/// The new member's row and, where there are any, the retention rows.
pub open spec fn inserts_step(
    reads: Seq<ProvenRead>,
    pos: int,
    users: Seq<KvView>,
    retention: Seq<KvView>,
) -> (Result<Seq<BatchOpView>, ErrorView>, int) {
    let op = OpType::CreateSpace;
    match rows::user_row_step(op, reads, pos, users) {
        (Err(e), p) => (Err(e), p),
        (Ok((row_id, user_ops)), p) => if retention.len() == 0 {
            (Ok(user_ops), p)
        } else {
            match rows::retention_step(op, reads, p, retention) {
                (Err(e), q) => (Err(e), q),
                (Ok(retention_ops), q) => (Ok(user_ops + retention_ops), q),
            }
        },
    }
}

impl OpVerifier for CreateSpaceOp {
    open spec fn outcome(uid: int, kvs: Seq<KvView>, reads: Seq<ProvenRead>, pos: int) -> (
        Result<Seq<BatchOpView>, ErrorView>,
        int,
    ) {
        let users = rows::of_table(kvs, Table::Users);
        if let Some(e) = shape_error(kvs) {
            (Err(e), pos)
        } else {
            match genesis_step(reads, pos, users) {
                (Err(e), p) => (Err(e), p),
                (Ok(_), p) => inserts_step(
                    reads,
                    p,
                    users,
                    rows::of_table(kvs, Table::Retention),
                ),
            }
        }
    }

    fn extract_and_validate<F: Fn(&BatchOp) -> Vec<u8>>(
        entry: &ChangelogEntry,
        reader: &mut VerifierReader,
        key_of: F,
    ) -> (r: Result<OpVerifyResult, ChangelogError>) {
        let op = OpType::CreateSpace;
        let parts = match partition_composite_entry(op, entry) {
            Ok(parts) => parts,
            Err(e) => return Err(e),
        };
        assert(grants::kv_views(parts.users@).len() == parts.users@.len());
        assert(grants::kv_views(parts.retention@).len() == parts.retention@.len());
        assert(grants::kv_views(parts.key_history@).len() == parts.key_history@.len());
        if parts.key_history.len() > 0 {
            return Err(ChangelogError::new(op, ErrorKind::UnexpectedKeyHistory));
        }
        if parts.users.len() == 0 {
            return Err(ChangelogError::new(op, ErrorKind::NoUserEntries));
        }
        // Genesis has exactly one member, who is a full member, so that no
        // channel grant can be legitimate here.
        match reject_channel_grant_entries(op, &parts.retention) {
            Ok(()) => {},
            Err(e) => return Err(e),
        }
        let existing = match reader.read(op, ReadOp::Rows(Table::Users)) {
            Ok(results) => results,
            Err(e) => return Err(e),
        };
        if existing.len() > 0 {
            return Err(ChangelogError::new(op, ErrorKind::UsersNotEmpty));
        }
        let schema = match reader.read_schema_columns(op, Table::Users) {
            Ok(schema) => schema,
            Err(e) => return Err(e),
        };
        match require_schema_columns(op, Table::Users, &parts.users, schema) {
            Ok(()) => {},
            Err(e) => return Err(e),
        }
        let (_row_id, mut batch_ops) = match insert_user_row(op, &parts.users, reader) {
            Ok(inserted) => inserted,
            Err(e) => return Err(e),
        };
        if parts.retention.len() > 0 {
            let mut retention_ops = match insert_retention_rows(op, &parts.retention, reader) {
                Ok(retention_ops) => retention_ops,
                Err(e) => return Err(e),
            };
            proof {
                changelog::lemma_batch_views_append(batch_ops@, retention_ops@);
            }
            batch_ops.append(&mut retention_ops);
        }
        Ok(OpVerifyResult::from_batch(batch_ops, key_of))
    }
}

} // verus!
