//! The entry that rotates the group key.

use crate::changelog;
use crate::changelog::{
    BatchOp, BatchOpView, ChangelogEntry, ChangelogError, ErrorKind, ErrorView, KvData, KvView, OpType,
    ProvenRead, RETENTION_TABLE,
};
use crate::ops::grants;
use crate::ops::grants::{
    require_full_member_signer, validate_scoped_grant_bindings, validate_user_access,
};
use crate::ops::reader::VerifierReader;
use crate::ops::rows;
use crate::ops::rows::insert_retention_rows;
use crate::ops::{OpVerifier, OpVerifyResult};
use crate::text::text_eq;
use vstd::prelude::*;
use vstd::string::*;

verus! {

/// Standalone rekey operation verifier.
pub struct RekeyOp;

/// Whether all writes are to one table.
pub open spec fn single_table(kvs: Seq<KvView>) -> bool {
    forall|i: int| 0 <= i < kvs.len() ==> (#[trigger] kvs[i]).table == kvs[0].table
}

/// Why the shape of the entry alone is refused, if it is.
pub open spec fn shape_error(kvs: Seq<KvView>) -> Option<ErrorView> {
    let op = OpType::Rekey;
    if kvs.len() == 0 {
        Some(changelog::refusal(op, ErrorKind::NoRetentionEntries))
    } else if !single_table(kvs) {
        Some(changelog::refusal(op, ErrorKind::MixedTables))
    } else if kvs[0].table != RETENTION_TABLE@ {
        Some(changelog::refusal_naming(op, ErrorKind::NotRetention, kvs[0].table))
    } else {
        None
    }
}

/// Reads the signer's status: a rekey rotates the group key, which only full
/// members hold.
pub open spec fn signer_step(reads: Seq<ProvenRead>, pos: int, uid: int) -> (
    Result<(), ErrorView>,
    int,
) {
    let op = OpType::Rekey;
    match grants::access_step(op, reads, pos, uid) {
        (Err(e), p) => (Err(e), p),
        (Ok(status), p) => match grants::full_member_error(op, uid, status as int) {
            Some(e) => (Err(e), p),
            None => (Ok(()), p),
        },
    }
}

/// References to all writes of an entry, in order.
fn all_writes<'a>(entry: &'a ChangelogEntry) -> (r: Vec<&'a KvData>)
    ensures
        grants::kv_views(r@) == entry.writes(),
{
    let mut kvs: Vec<&'a KvData> = Vec::new();
    let mut i: usize = 0;
    while i < entry.entries.len()
        invariant
            i <= entry.entries@.len(),
            kvs@.len() == i,
            forall|j: int| 0 <= j < i ==> #[trigger] kvs@[j]@ == entry.entries@[j]@,
        decreases entry.entries@.len() - i,
    {
        kvs.push(&entry.entries[i]);
        i = i + 1;
    }
    assert(grants::kv_views(kvs@) =~= entry.writes());
    kvs
}

/// All writes must be to the retention table.
fn require_retention_table(entry: &ChangelogEntry) -> (r: Result<(), ChangelogError>)
    ensures
        match shape_error(entry.writes()) {
            Some(error) => r is Err && r->Err_0@ == error,
            None => r is Ok,
        },
{
    let op = OpType::Rekey;
    let ghost writes = entry.writes();
    if entry.entries.len() == 0 {
        return Err(ChangelogError::new(op, ErrorKind::NoRetentionEntries));
    }
    let table = entry.entries[0].key.table.as_str();
    let mut i: usize = 0;
    while i < entry.entries.len()
        invariant
            writes == entry.writes(),
            entry.entries@.len() > 0,
            op == OpType::Rekey,
            table@ == writes[0].table,
            i <= entry.entries@.len(),
            forall|j: int| 0 <= j < i ==> (#[trigger] writes[j]).table == table@,
        decreases entry.entries@.len() - i,
    {
        assert(writes[i as int] == entry.entries@[i as int]@);
        if !text_eq(entry.entries[i].key.table.as_str(), table) {
            return Err(ChangelogError::new(op, ErrorKind::MixedTables));
        }
        i = i + 1;
    }
    if !text_eq(table, RETENTION_TABLE) {
        return Err(ChangelogError::naming(op, ErrorKind::NotRetention, table));
    }
    Ok(())
}

impl OpVerifier for RekeyOp {
    open spec fn outcome(uid: int, kvs: Seq<KvView>, reads: Seq<ProvenRead>, pos: int) -> (
        Result<Seq<BatchOpView>, ErrorView>,
        int,
    ) {
        if let Some(e) = shape_error(kvs) {
            (Err(e), pos)
        } else {
            match signer_step(reads, pos, uid) {
                (Err(e), p) => (Err(e), p),
                (Ok(_), p) => match grants::scoped_bindings_step(OpType::Rekey, reads, p, kvs) {
                    (Err(e), q) => (Err(e), q),
                    (Ok(_), q) => rows::retention_step(OpType::Rekey, reads, q, kvs),
                },
            }
        }
    }

    fn extract_and_validate<F: Fn(&BatchOp) -> Vec<u8>>(
        entry: &ChangelogEntry,
        reader: &mut VerifierReader,
        key_of: F,
    ) -> (r: Result<OpVerifyResult, ChangelogError>) {
        let op = OpType::Rekey;
        match require_retention_table(entry) {
            Ok(()) => {},
            Err(e) => return Err(e),
        }
        let signer_status: i64 = match validate_user_access(op, entry.uid, reader) {
            Ok(status) => status,
            Err(e) => return Err(e),
        };
        // The signer must be a full member whether or not there are grants.
        // Otherwise a scoped signer could grant itself a channel: its own
        // status would satisfy the check of the grant's user below.
        match require_full_member_signer(op, signer_status, entry.uid) {
            Ok(()) => {},
            Err(e) => return Err(e),
        }
        let kvs = all_writes(entry);
        match validate_scoped_grant_bindings(op, &kvs, reader) {
            Ok(()) => {},
            Err(e) => return Err(e),
        }
        match insert_retention_rows(op, &kvs, reader) {
            Ok(batch_ops) => Ok(OpVerifyResult::from_batch(batch_ops, key_of)),
            Err(e) => Err(e),
        }
    }
}

} // verus!
