//! Verification of change log entries against proven reads.
//!
//! A verifier replays an operation: it takes the reads of the state before the
//! entry from a proof, in a fixed order, checks the entry against them, and
//! derives the writes. Each step is stated as a function from the reads and the
//! position among them to a result and the position after.

pub mod batch_order;
pub mod create_space_op;
pub mod entry_laws;
pub mod grants;
pub mod invite_user_op;
pub mod laws;
pub mod reader;
pub mod refusal_laws;
pub mod rekey_op;
pub mod row_laws;
pub mod rows;

use crate::changelog;
use crate::changelog::{
    BatchOp, BatchOpView, ChangelogEntry, ChangelogError, ErrorView, KvView, ProvenRead,
};
use batch_order::{order_batch, KeyedOp};
use reader::VerifierReader;
use vstd::prelude::*;

verus! {

/// A step by which an entry changes the state.
#[derive(Debug, PartialEq, Eq)]
pub enum TraceStep {
    /// Writes, in the order in which they are applied.
    Write(Vec<KeyedOp>),
}

/// What an accepted entry does to the state.
#[derive(Debug, PartialEq, Eq)]
pub struct OpVerifyResult {
    pub write_steps: Vec<TraceStep>,
}

impl OpVerifyResult {
    /// Whether the writes `ops` are made, in one step, in the order of the keys
    /// that `key_of` gives them.
    pub open spec fn writes<F: Fn(&BatchOp) -> Vec<u8>>(
        &self,
        key_of: F,
        ops: Seq<BatchOpView>,
    ) -> bool {
        &&& self.write_steps@.len() == 1
        &&& batch_order::is_write_step(key_of, ops, self.write_steps@[0]->Write_0@)
    }

    /// The single step that makes the writes `ops`.
    pub fn from_batch<F: Fn(&BatchOp) -> Vec<u8>>(ops: Vec<BatchOp>, key_of: F) -> (r: Self)
        requires
            forall|op: &BatchOp| #[trigger] call_requires(key_of, (op,)),
        ensures
            r.writes(key_of, changelog::batch_views(ops@)),
    {
        let step = order_batch(ops, key_of);
        let mut write_steps: Vec<TraceStep> = Vec::new();
        write_steps.push(TraceStep::Write(step));
        OpVerifyResult { write_steps }
    }
}

/// An operation that verifies entries of its type.
pub trait OpVerifier {
    /// The writes or the refusal for an entry signed by `uid` that writes
    /// `kvs`, given the proven reads from `pos` on, and the position after the
    /// reads that were taken.
    spec fn outcome(
        uid: int,
        kvs: Seq<KvView>,
        reads: Seq<ProvenRead>,
        pos: int,
    ) -> (Result<Seq<BatchOpView>, ErrorView>, int);

    /// Checks the entry against the proven reads and derives its writes, which
    /// are made in one step in the order of the keys that `key_of` encodes.
    fn extract_and_validate<F: Fn(&BatchOp) -> Vec<u8>>(
        entry: &ChangelogEntry,
        reader: &mut VerifierReader,
        key_of: F,
    ) -> (r: Result<OpVerifyResult, ChangelogError>)
        requires
            forall|op: &BatchOp| #[trigger] call_requires(key_of, (op,)),
        ensures
            final(reader).reads == old(reader).reads,
            final(reader).pos as int == Self::outcome(
                entry.uid as int,
                entry.writes(),
                old(reader).reads@,
                old(reader).pos as int,
            ).1,
            match Self::outcome(
                entry.uid as int,
                entry.writes(),
                old(reader).reads@,
                old(reader).pos as int,
            ).0 {
                Ok(ops) => r is Ok && r->Ok_0.writes(key_of, ops),
                Err(e) => r is Err && r->Err_0@ == e,
            },
    ;
}

/// An accepted entry makes its writes in one step, and those are sorted by key:
/// what the step is made of is all that the entry does.
pub proof fn law_result_is_one_write_step<F: Fn(&BatchOp) -> Vec<u8>>(
    result: OpVerifyResult,
    key_of: F,
    ops: Seq<BatchOpView>,
)
    requires
        result.writes(key_of, ops),
    ensures
        result.write_steps@.len() == 1,
        result.write_steps@[0] is Write,
        result.write_steps@[0]->Write_0@.len() == ops.len(),
        batch_order::is_write_step(key_of, ops, result.write_steps@[0]->Write_0@),
{
    let step = result.write_steps@[0]->Write_0@;
    let pairs = choose|pairs: Seq<batch_order::KeyedOp>| #[trigger]
        batch_order::is_keyed(key_of, ops, pairs) && batch_order::same_by_key(step, pairs);
    batch_order::law_order_keeps_writes(step, pairs);
    step.to_multiset_ensures();
    pairs.to_multiset_ensures();
    assert(batch_order::op_views(pairs).len() == pairs.len());
}

} // verus!
