//! Proven reads, replayed in order, and the values the operations take from
//! them.

use crate::changelog;
use crate::changelog::{
    ChangelogError, ColumnSet, ErrorKind, ErrorView, OpType, ProvenRead, ReadOp, ReadValue, StoredValue, Table,
};
use vstd::prelude::*;

verus! {

/// Replays the reads of a proof: each must be the one asked for next.
pub struct VerifierReader<'a> {
    pub reads: &'a Vec<ProvenRead>,
    pub pos: usize,
}

/// A result whose error is taken by what it says.
pub open spec fn outcome<T>(r: Result<T, ChangelogError>) -> Result<T, ErrorView> {
    match r {
        Ok(t) => Ok(t),
        Err(e) => Err(e@),
    }
}

/// The next read, if it is `op`.
pub open spec fn read_step(op_type: OpType, reads: Seq<ProvenRead>, pos: int, op: ReadOp) -> (
    Result<Seq<ReadValue>, ErrorView>,
    int,
) {
    if pos >= reads.len() {
        (Err(changelog::refusal(op_type, ErrorKind::ReadsExhausted)), pos)
    } else if reads[pos].op != op {
        (Err(changelog::refusal(op_type, ErrorKind::ReadMismatch)), pos)
    } else {
        (Ok(reads[pos].results@), pos + 1)
    }
}

/// A member's status, `None` where there is no such member.
pub open spec fn status_step(op_type: OpType, reads: Seq<ProvenRead>, pos: int, uid: int) -> (
    Result<Option<i64>, ErrorView>,
    int,
) {
    match read_step(op_type, reads, pos, ReadOp::UserStatus(uid as i64)) {
        (Err(e), p) => (Err(e), p),
        (Ok(results), p) => if results.len() == 0 {
            (Ok(None), p)
        } else {
            match results[0] {
                ReadValue::Stored(StoredValue::Integer(status)) => (Ok(Some(status)), p),
                _ => (
                    Err(
                        changelog::refusal(
                            op_type,
                            ErrorKind::MalformedStatus(uid as i64),
                        ),
                    ),
                    p,
                ),
            }
        },
    }
}

/// The next row id of a table.
pub open spec fn next_id_step(op_type: OpType, reads: Seq<ProvenRead>, pos: int, table: Table) -> (
    Result<i64, ErrorView>,
    int,
) {
    match read_step(op_type, reads, pos, ReadOp::SchemaNextId(table)) {
        (Err(e), p) => (Err(e), p),
        (Ok(results), p) => if results.len() > 0 && results[0] is Counter {
            (Ok(results[0]->Counter_0), p)
        } else {
            (Err(changelog::refusal(op_type, ErrorKind::NextIdMissing(table))), p)
        },
    }
}

/// The column names of a table.
pub open spec fn columns_step(op_type: OpType, reads: Seq<ProvenRead>, pos: int, table: Table) -> (
    Result<Seq<Seq<char>>, ErrorView>,
    int,
) {
    match read_step(op_type, reads, pos, ReadOp::SchemaColumns(table)) {
        (Err(e), p) => (Err(e), p),
        (Ok(results), p) => if results.len() > 0 && results[0] is Columns {
            (Ok(results[0]->Columns_0@), p)
        } else {
            (Err(changelog::refusal(op_type, ErrorKind::SchemaMissing(table))), p)
        },
    }
}

/// The indexed columns of a table; none where nothing is recorded.
pub open spec fn indexes_step(op_type: OpType, reads: Seq<ProvenRead>, pos: int, table: Table) -> (
    Result<Seq<Seq<char>>, ErrorView>,
    int,
) {
    match read_step(op_type, reads, pos, ReadOp::SchemaIndexes(table)) {
        (Err(e), p) => (Err(e), p),
        (Ok(results), p) => if results.len() == 0 {
            (Ok(Seq::empty()), p)
        } else if results[0] is Columns {
            (Ok(results[0]->Columns_0@), p)
        } else {
            (Err(changelog::refusal(op_type, ErrorKind::SchemaMissing(table))), p)
        },
    }
}

impl<'a> VerifierReader<'a> {
    /// A reader at the first read.
    pub fn new(reads: &'a Vec<ProvenRead>) -> (r: Self)
        ensures
            r.reads == reads,
            r.pos == 0,
    {
        VerifierReader { reads, pos: 0 }
    }

    /// Takes the next read, which must be `op`.
    pub fn read(&mut self, op_type: OpType, op: ReadOp) -> (r: Result<
        &'a Vec<ReadValue>,
        ChangelogError,
    >)
        ensures
            final(self).reads == old(self).reads,
            (
                match r {
                    Ok(results) => Ok(results@),
                    Err(e) => Err(e@),
                },
                final(self).pos as int,
            ) == read_step(op_type, old(self).reads@, old(self).pos as int, op),
    {
        if self.pos >= self.reads.len() {
            return Err(ChangelogError::new(op_type, ErrorKind::ReadsExhausted));
        }
        let read: &'a ProvenRead = &self.reads[self.pos];
        if read.op != op {
            return Err(ChangelogError::new(op_type, ErrorKind::ReadMismatch));
        }
        self.pos = self.pos + 1;
        Ok(&read.results)
    }

    /// Reads a member's status.
    pub fn read_user_status(&mut self, op_type: OpType, uid: i64) -> (r: Result<
        Option<i64>,
        ChangelogError,
    >)
        ensures
            final(self).reads == old(self).reads,
            (outcome(r), final(self).pos as int) == status_step(
                op_type,
                old(self).reads@,
                old(self).pos as int,
                uid as int,
            ),
    {
        let results = match self.read(op_type, ReadOp::UserStatus(uid)) {
            Ok(results) => results,
            Err(e) => return Err(e),
        };
        if results.len() == 0 {
            return Ok(None);
        }
        match &results[0] {
            ReadValue::Stored(StoredValue::Integer(status)) => Ok(Some(*status)),
            _ => Err(ChangelogError::new(op_type, ErrorKind::MalformedStatus(uid))),
        }
    }

    /// Reads the next row id of a table.
    pub fn read_next_id(&mut self, op_type: OpType, table: Table) -> (r: Result<
        i64,
        ChangelogError,
    >)
        ensures
            final(self).reads == old(self).reads,
            (outcome(r), final(self).pos as int) == next_id_step(
                op_type,
                old(self).reads@,
                old(self).pos as int,
                table,
            ),
    {
        let results = match self.read(op_type, ReadOp::SchemaNextId(table)) {
            Ok(results) => results,
            Err(e) => return Err(e),
        };
        if results.len() > 0 {
            if let ReadValue::Counter(next_id) = &results[0] {
                return Ok(*next_id);
            }
        }
        Err(ChangelogError::new(op_type, ErrorKind::NextIdMissing(table)))
    }

    /// Reads the column names of a table.
    pub fn read_schema_columns(&mut self, op_type: OpType, table: Table) -> (r: Result<
        &'a ColumnSet,
        ChangelogError,
    >)
        ensures
            final(self).reads == old(self).reads,
            (
                match r {
                    Ok(columns) => Ok(columns@),
                    Err(e) => Err(e@),
                },
                final(self).pos as int,
            ) == columns_step(op_type, old(self).reads@, old(self).pos as int, table),
    {
        let results = match self.read(op_type, ReadOp::SchemaColumns(table)) {
            Ok(results) => results,
            Err(e) => return Err(e),
        };
        if results.len() > 0 {
            if let ReadValue::Columns(columns) = &results[0] {
                return Ok(columns);
            }
        }
        Err(ChangelogError::new(op_type, ErrorKind::SchemaMissing(table)))
    }

    /// Reads the indexed columns of a table; `None` stands for no index.
    pub fn read_schema_indexes(&mut self, op_type: OpType, table: Table) -> (r: Result<
        Option<&'a ColumnSet>,
        ChangelogError,
    >)
        ensures
            final(self).reads == old(self).reads,
            (
                match r {
                    Ok(Some(columns)) => Ok(columns@),
                    Ok(None) => Ok(Seq::empty()),
                    Err(e) => Err(e@),
                },
                final(self).pos as int,
            ) == indexes_step(op_type, old(self).reads@, old(self).pos as int, table),
    {
        let results = match self.read(op_type, ReadOp::SchemaIndexes(table)) {
            Ok(results) => results,
            Err(e) => return Err(e),
        };
        if results.len() == 0 {
            return Ok(None);
        }
        if let ReadValue::Columns(columns) = &results[0] {
            return Ok(Some(columns));
        }
        Err(ChangelogError::new(op_type, ErrorKind::SchemaMissing(table)))
    }
}

} // verus!
