//! Durable storage for accepted changes and proof checkpoints.
//!
//! A store keeps opaque bytes keyed by space and knows nothing about the
//! meaning of changes. How a stored space is put together from the rows of a
//! database, and how numbers fit its integer columns, is decided here; the
//! database itself is outside.

use crate::keys::copy_bytes;
use vstd::prelude::*;
use vstd::string::*;

verus! {

/// The identifier of a space.
#[derive(Clone, Copy, Debug, PartialEq, Eq)]
pub struct SpaceId {
    pub bytes: [u8; 16],
}

impl View for SpaceId {
    type V = Seq<u8>;

    open spec fn view(&self) -> Seq<u8> {
        self.bytes@
    }
}

impl SpaceId {
    pub fn new(bytes: [u8; 16]) -> (r: Self)
        ensures
            r@ == bytes@,
    {
        SpaceId { bytes }
    }

    pub fn as_bytes(&self) -> (r: &[u8; 16])
        ensures
            r@ == self@,
    {
        &self.bytes
    }
}

/// Why a store failed.
#[derive(Debug, PartialEq, Eq)]
pub struct PersistError(pub String);

impl PersistError {
    /// The failure in words.
    pub fn message(&self) -> (r: String)
        ensures
            r@ == "persistence error: "@ + self.0@,
    {
        let mut out = "persistence error: ".to_owned();
        out.append(self.0.as_str());
        out
    }
}

/// An accepted change as it is stored.
#[derive(Debug, PartialEq, Eq)]
pub struct PersistedChangeRow {
    pub change_id: u32,
    pub entry_bytes: Vec<u8>,
    pub hashed_values_bytes: Vec<u8>,
    pub accepted_at: u64,
}

/// Everything stored of a space.
#[derive(Debug, PartialEq, Eq)]
pub struct PersistedSpace {
    /// In the order in which the store gave the rows: ascending by `change_id`.
    pub changes: Vec<PersistedChangeRow>,
    /// The bytes of the proof checkpoint, if there is one.
    pub ff_proof: Option<Vec<u8>>,
    /// How far the proof checkpoint reaches, 0 without one.
    pub proven_up_to: usize,
}

/// What a change row holds.
#[verifier::ext_equal]
pub struct ChangeView {
    pub change_id: u32,
    pub entry: Seq<u8>,
    pub hashed_values: Seq<u8>,
    pub accepted_at: u64,
}

impl View for PersistedChangeRow {
    type V = ChangeView;

    open spec fn view(&self) -> ChangeView {
        ChangeView {
            change_id: self.change_id,
            entry: self.entry_bytes@,
            hashed_values: self.hashed_values_bytes@,
            accepted_at: self.accepted_at,
        }
    }
}

/// What several change rows hold.
pub open spec fn change_views(rows: Seq<PersistedChangeRow>) -> Seq<ChangeView> {
    rows.map_values(|row: PersistedChangeRow| row@)
}

/// Whether each change has a greater id than those before it.
pub open spec fn ascending(changes: Seq<ChangeView>) -> bool {
    forall|i: int, j: int|
        #![trigger changes[i], changes[j]]
        0 <= i < j < changes.len() ==> changes[i].change_id < changes[j].change_id
}

/// What is stored of a space.
#[verifier::ext_equal]
pub struct SpaceView {
    pub changes: Seq<ChangeView>,
    pub ff_proof: Option<Seq<u8>>,
    pub proven_up_to: usize,
}

impl View for PersistedSpace {
    type V = SpaceView;

    open spec fn view(&self) -> SpaceView {
        SpaceView {
            changes: change_views(self.changes@),
            ff_proof: match self.ff_proof {
                Some(bytes) => Some(bytes@),
                None => None,
            },
            proven_up_to: self.proven_up_to,
        }
    }
}

impl Clone for PersistedChangeRow {
    fn clone(&self) -> (r: Self)
        ensures
            r@ == self@,
    {
        PersistedChangeRow {
            change_id: self.change_id,
            entry_bytes: copy_bytes(self.entry_bytes.as_slice()),
            hashed_values_bytes: copy_bytes(self.hashed_values_bytes.as_slice()),
            accepted_at: self.accepted_at,
        }
    }
}

impl Clone for PersistedSpace {
    fn clone(&self) -> (r: Self)
        ensures
            r@ == self@,
    {
        let ghost views = change_views(self.changes@);
        let mut changes: Vec<PersistedChangeRow> = Vec::new();
        let mut i: usize = 0;
        assert(change_views(changes@) =~= views.take(0));
        while i < self.changes.len()
            invariant
                views == change_views(self.changes@),
                i <= self.changes@.len(),
                change_views(changes@) == views.take(i as int),
            decreases self.changes@.len() - i,
        {
            let ghost before = changes@;
            let change = self.changes[i].clone();
            changes.push(change);
            assert(change_views(changes@) =~= change_views(before).push(views[i as int]));
            assert(views.take(i + 1) =~= views.take(i as int).push(views[i as int]));
            i = i + 1;
        }
        assert(views.take(i as int) =~= views);
        let ff_proof = match &self.ff_proof {
            Some(bytes) => Some(copy_bytes(bytes.as_slice())),
            None => None,
        };
        PersistedSpace { changes, ff_proof, proven_up_to: self.proven_up_to }
    }
}

/// A durable store of changes and proof checkpoints. What a store that does
/// I/O returns depends on the outside; nothing is promised of it here.
pub trait ChangeStore: Send + Sync {
    fn append_change(
        &self,
        space_id: SpaceId,
        change_id: u32,
        entry: &[u8],
        hashed_values: &[u8],
        accepted_at: u64,
    ) -> Result<(), PersistError>;

    fn save_ff_proof(&self, space_id: SpaceId, proven_up_to: usize, proof_bytes: &[u8]) -> Result<
        (),
        PersistError,
    >;

    fn load_space(&self, space_id: SpaceId) -> Result<Option<PersistedSpace>, PersistError>;
}

/// No-op store: nothing is persisted, nothing is ever loaded.
#[derive(Clone, Copy, Debug, PartialEq, Eq, Structural)]
pub struct NullChangeStore;

impl ChangeStore for NullChangeStore {
    fn append_change(
        &self,
        space_id: SpaceId,
        change_id: u32,
        entry: &[u8],
        hashed_values: &[u8],
        accepted_at: u64,
    ) -> (r: Result<(), PersistError>)
        ensures
            r is Ok,
    {
        Ok(())
    }

    fn save_ff_proof(&self, space_id: SpaceId, proven_up_to: usize, proof_bytes: &[u8]) -> (r: Result<
        (),
        PersistError,
    >)
        ensures
            r is Ok,
    {
        Ok(())
    }

    fn load_space(&self, space_id: SpaceId) -> (r: Result<Option<PersistedSpace>, PersistError>)
        ensures
            r is Ok,
            r->Ok_0 is None,
    {
        Ok(None)
    }
}

/// Puts a stored space together from its change rows, in the order given, and
/// its proof checkpoint. A space of which nothing is stored does not exist.
pub fn assemble_space(rows: Vec<PersistedChangeRow>, checkpoint: Option<(usize, Vec<u8>)>) -> (r: Option<
    PersistedSpace,
>)
    ensures
        r is None <==> rows@.len() == 0 && checkpoint is None,
        r is Some ==> r->Some_0.changes == rows,
        r is Some && ascending(change_views(rows@)) ==> ascending(r->Some_0@.changes),
        r is Some ==> r->Some_0.ff_proof == (match checkpoint {
            Some((_, bytes)) => Some(bytes),
            None => None,
        }),
        r is Some ==> r->Some_0.proven_up_to == (match checkpoint {
            Some((proven_up_to, _)) => proven_up_to,
            None => 0,
        }),
{
    if rows.len() == 0 && checkpoint.is_none() {
        return None;
    }
    match checkpoint {
        Some((proven_up_to, bytes)) => Some(
            PersistedSpace { changes: rows, ff_proof: Some(bytes), proven_up_to },
        ),
        None => Some(PersistedSpace { changes: rows, ff_proof: None, proven_up_to: 0 }),
    }
}

/// A time as it is stored in an integer column.
pub fn accepted_at_to_column(accepted_at: u64) -> (r: i64)
    ensures
        r == accepted_at as i64,
{
    #[verifier::truncate]
    (accepted_at as i64)
}

/// A time as it is read from an integer column.
pub fn accepted_at_from_column(column: i64) -> (r: u64)
    ensures
        r == column as u64,
{
    #[verifier::truncate]
    (column as u64)
}

/// A change id as it is stored in an integer column.
pub fn change_id_to_column(change_id: u32) -> (r: i64)
    ensures
        r == change_id,
{
    change_id as i64
}

/// A change id as it is read from an integer column.
pub fn change_id_from_column(column: i64) -> (r: u32)
    ensures
        r == column as u32,
{
    #[verifier::truncate]
    (column as u32)
}

/// A checkpoint's reach as it is stored in an integer column.
pub fn proven_up_to_to_column(proven_up_to: usize) -> (r: i64)
    ensures
        r == proven_up_to as i64,
{
    #[verifier::truncate]
    (proven_up_to as i64)
}

/// A checkpoint's reach as it is read from an integer column.
pub fn proven_up_to_from_column(column: i64) -> (r: usize)
    ensures
        r == column as usize,
{
    #[verifier::truncate]
    (column as usize)
}

/// Numbers come back from integer columns as they were stored, also those
/// beyond the range of signed integers.
pub proof fn law_columns_round_trip(change_id: u32, accepted_at: u64, proven_up_to: usize)
    ensures
        (change_id as i64) as u32 == change_id,
        (accepted_at as i64) as u64 == accepted_at,
        (proven_up_to as i64) as usize == proven_up_to,
{
    assert((change_id as i64) as u32 == change_id) by (bit_vector);
    assert((accepted_at as i64) as u64 == accepted_at) by (bit_vector);
    assert((proven_up_to as i64) as usize == proven_up_to) by (bit_vector);
}

/// A change row as the columns of a database hold it.
#[derive(Debug, PartialEq, Eq)]
pub struct ChangeColumns {
    pub change_id: i64,
    pub entry: Vec<u8>,
    pub hashed_values: Vec<u8>,
    pub accepted_at: i64,
}

/// What the columns of a change row hold.
#[verifier::ext_equal]
pub struct ColumnsView {
    pub change_id: i64,
    pub entry: Seq<u8>,
    pub hashed_values: Seq<u8>,
    pub accepted_at: i64,
}

impl View for ChangeColumns {
    type V = ColumnsView;

    open spec fn view(&self) -> ColumnsView {
        ColumnsView {
            change_id: self.change_id,
            entry: self.entry@,
            hashed_values: self.hashed_values@,
            accepted_at: self.accepted_at,
        }
    }
}

/// The columns in which a change is stored.
pub open spec fn columns_of(change: ChangeView) -> ColumnsView {
    ColumnsView {
        change_id: change.change_id as i64,
        entry: change.entry,
        hashed_values: change.hashed_values,
        accepted_at: change.accepted_at as i64,
    }
}

/// The change that columns are read as.
pub open spec fn change_in(columns: ColumnsView) -> ChangeView {
    ChangeView {
        change_id: columns.change_id as u32,
        entry: columns.entry,
        hashed_values: columns.hashed_values,
        accepted_at: columns.accepted_at as u64,
    }
}

impl ChangeColumns {
    /// The columns in which a change is stored.
    pub fn new(change_id: u32, entry: &[u8], hashed_values: &[u8], accepted_at: u64) -> (r: Self)
        ensures
            r@ == columns_of(
                (ChangeView {
                    change_id,
                    entry: entry@,
                    hashed_values: hashed_values@,
                    accepted_at,
                }),
            ),
    {
        ChangeColumns {
            change_id: change_id_to_column(change_id),
            entry: copy_bytes(entry),
            hashed_values: copy_bytes(hashed_values),
            accepted_at: accepted_at_to_column(accepted_at),
        }
    }

    /// The change that the columns are read as.
    pub fn into_row(self) -> (r: PersistedChangeRow)
        ensures
            r@ == change_in(self@),
    {
        PersistedChangeRow {
            change_id: change_id_from_column(self.change_id),
            entry_bytes: self.entry,
            hashed_values_bytes: self.hashed_values,
            accepted_at: accepted_at_from_column(self.accepted_at),
        }
    }
}

/// What the columns of several change rows hold.
pub open spec fn columns_views(rows: Seq<ChangeColumns>) -> Seq<ColumnsView> {
    rows.map_values(|row: ChangeColumns| row@)
}

/// The space that the columns of its change rows and of its proof checkpoint
/// are read as.
pub open spec fn loaded_space(
    rows: Seq<ColumnsView>,
    checkpoint: Option<(i64, Seq<u8>)>,
) -> Option<SpaceView> {
    let changes = rows.map_values(|columns: ColumnsView| change_in(columns));
    match checkpoint {
        Some((proven_up_to, proof_bytes)) => Some(
            SpaceView {
                changes,
                ff_proof: Some(proof_bytes),
                proven_up_to: proven_up_to as usize,
            },
        ),
        None => if rows.len() == 0 {
            None
        } else {
            Some(SpaceView { changes, ff_proof: None, proven_up_to: 0 })
        },
    }
}

/// Puts a stored space together from the columns of a database: those of its
/// change rows, in the order given, and of its proof checkpoint.
pub fn load_columns(rows: Vec<ChangeColumns>, checkpoint: Option<(i64, Vec<u8>)>) -> (r: Option<
    PersistedSpace,
>)
    ensures
        (match r {
            Some(space) => Some(space@),
            None => None,
        }) == loaded_space(
            columns_views(rows@),
            match checkpoint {
                Some((column, bytes)) => Some((column, bytes@)),
                None => None,
            },
        ),
{
    let ghost views = columns_views(rows@);
    let ghost changes = views.map_values(|columns: ColumnsView| change_in(columns));
    let mut read: Vec<PersistedChangeRow> = Vec::new();
    assert(change_views(read@) =~= changes.take(0));
    for row in it: rows
        invariant
            it.seq() == rows@,
            views == columns_views(rows@),
            changes == views.map_values(|columns: ColumnsView| change_in(columns)),
            change_views(read@) == changes.take(it.index() as int),
    {
        let ghost n = it.index() as int;
        let ghost before = read@;
        assert(changes[n] == change_in(row@));
        let change = row.into_row();
        read.push(change);
        assert(change_views(read@) =~= change_views(before).push(changes[n]));
        assert(changes.take(n + 1) =~= changes.take(n).push(changes[n]));
    }
    assert(changes.take(changes.len() as int) =~= changes);
    assert(change_views(read@).len() == read@.len());
    match checkpoint {
        Some((column, bytes)) => assemble_space(
            read,
            Some((proven_up_to_from_column(column), bytes)),
        ),
        None => assemble_space(read, None),
    }
}

/// A call that a store accepted.
pub enum StoreCall {
    AppendChange { space: Seq<u8>, change: ChangeView },
    SaveProof { space: Seq<u8>, proven_up_to: usize, proof_bytes: Seq<u8> },
}

impl StoreCall {
    /// The space that the call is about.
    pub open spec fn space(self) -> Seq<u8> {
        match self {
            StoreCall::AppendChange { space, .. } => space,
            StoreCall::SaveProof { space, .. } => space,
        }
    }
}

/// The proof checkpoint that was saved last for a space.
pub open spec fn last_proof(history: Seq<StoreCall>, space: Seq<u8>) -> Option<(usize, Seq<u8>)>
    decreases history.len(),
{
    if history.len() == 0 {
        None
    } else {
        match history.last() {
            StoreCall::SaveProof { space: of, proven_up_to, proof_bytes } if of == space => Some(
                (proven_up_to, proof_bytes),
            ),
            _ => last_proof(history.drop_last(), space),
        }
    }
}

/// Whether a change was appended to a space.
pub open spec fn was_appended(
    history: Seq<StoreCall>,
    space: Seq<u8>,
    change: ChangeView,
) -> bool {
    history.contains(StoreCall::AppendChange { space, change })
}

/// Whether columns are what a database holds of a space after the calls in
/// `history`: one row for each appended change, ascending by the id column, and
/// the checkpoint that was saved last.
pub open spec fn holds(
    history: Seq<StoreCall>,
    space: Seq<u8>,
    rows: Seq<ColumnsView>,
    checkpoint: Option<(i64, Seq<u8>)>,
) -> bool {
    &&& forall|i: int, j: int|
        #![trigger rows[i], rows[j]]
        0 <= i < j < rows.len() ==> rows[i].change_id < rows[j].change_id
    &&& forall|change: ChangeView| #[trigger]
        was_appended(history, space, change) ==> rows.contains(columns_of(change))
    &&& forall|i: int|
        0 <= i < rows.len() ==> exists|change: ChangeView| #[trigger]
            was_appended(history, space, change) && #[trigger] rows[i] == columns_of(change)
    &&& checkpoint == match last_proof(history, space) {
        Some((proven_up_to, proof_bytes)) => Some((proven_up_to as i64, proof_bytes)),
        None => None,
    }
}

proof fn lemma_last_proof(history: Seq<StoreCall>, space: Seq<u8>)
    ensures
        last_proof(history, space) is None <==> forall|i: int|
            0 <= i < history.len() ==> !((#[trigger] history[i]) is SaveProof
                && history[i].space() == space),
    decreases history.len(),
{
    if history.len() > 0 {
        let rest = history.drop_last();
        lemma_last_proof(rest, space);
        assert(history[history.len() - 1] == history.last());
        assert forall|i: int| 0 <= i < rest.len() implies #[trigger] history[i] == rest[i] by {}
        if last_proof(rest, space) is Some {
            let i = choose|i: int|
                0 <= i < rest.len() && (#[trigger] rest[i]) is SaveProof && rest[i].space()
                    == space;
            assert(history[i] == rest[i]);
        }
    }
}

/// The checkpoint saved last wins, its reach and its bytes together, also where
/// it reaches less far than the one before. No change and nothing of another
/// space is touched.
pub proof fn law_last_saved_proof_wins(
    history: Seq<StoreCall>,
    space: Seq<u8>,
    proven_up_to: usize,
    proof_bytes: Seq<u8>,
)
    ensures
        ({
            let after = history.push(StoreCall::SaveProof { space, proven_up_to, proof_bytes });
            &&& last_proof(after, space) == Some((proven_up_to, proof_bytes))
            &&& forall|other: Seq<u8>|
                other != space ==> #[trigger] last_proof(after, other) == last_proof(
                    history,
                    other,
                )
            &&& forall|of: Seq<u8>, change: ChangeView| #[trigger]
                was_appended(after, of, change) <==> was_appended(history, of, change)
        }),
{
    let call = StoreCall::SaveProof { space, proven_up_to, proof_bytes };
    let after = history.push(call);
    assert(after.drop_last() =~= history);
    assert(after.last() == call);
    assert forall|of: Seq<u8>, change: ChangeView| #[trigger]
        was_appended(after, of, change) <==> was_appended(history, of, change) by {
        lemma_push_contains(history, call, StoreCall::AppendChange { space: of, change });
    }
}

/// An appended change is added to those of its space; no other change and no
/// checkpoint is touched.
pub proof fn law_append_adds_one_change(
    history: Seq<StoreCall>,
    space: Seq<u8>,
    change: ChangeView,
)
    ensures
        ({
            let after = history.push(StoreCall::AppendChange { space, change });
            &&& forall|of: Seq<u8>| #[trigger] last_proof(after, of) == last_proof(history, of)
            &&& forall|of: Seq<u8>, other: ChangeView| #[trigger]
                was_appended(after, of, other) <==> was_appended(history, of, other) || (of
                    == space && other == change)
        }),
{
    let call = StoreCall::AppendChange { space, change };
    let after = history.push(call);
    assert(after.drop_last() =~= history);
    assert(after.last() == call);
    assert forall|of: Seq<u8>, other: ChangeView| #[trigger]
        was_appended(after, of, other) <==> was_appended(history, of, other) || (of == space
            && other == change) by {
        lemma_push_contains(history, call, StoreCall::AppendChange { space: of, change: other });
    }
}

proof fn lemma_push_contains(history: Seq<StoreCall>, call: StoreCall, sought: StoreCall)
    ensures
        history.push(call).contains(sought) <==> history.contains(sought) || sought == call,
{
    let after = history.push(call);
    if history.contains(sought) {
        assert(after[history.index_of(sought)] == sought);
    }
    assert(after[history.len() as int] == call);
    if after.contains(sought) && sought != call {
        assert(history[after.index_of(sought)] == sought);
    }
}

/// A change comes back from the columns in which it is stored.
pub proof fn law_change_reads_back(change: ChangeView)
    ensures
        change_in(columns_of(change)) == change,
{
    law_columns_round_trip(change.change_id, change.accepted_at, 0);
}

/// A space is loaded as it was written: it exists where some call was about it;
/// its changes are those that were appended to it, each once, ascending by id;
/// its checkpoint is the one saved last, and reaches nowhere where none was.
pub proof fn law_space_reads_back(
    history: Seq<StoreCall>,
    space: Seq<u8>,
    rows: Seq<ColumnsView>,
    checkpoint: Option<(i64, Seq<u8>)>,
)
    requires
        holds(history, space, rows, checkpoint),
    ensures
        loaded_space(rows, checkpoint) is None <==> forall|i: int|
            0 <= i < history.len() ==> (#[trigger] history[i]).space() != space,
        match loaded_space(rows, checkpoint) {
            Some(loaded) => {
                &&& ascending(loaded.changes)
                &&& loaded.changes.no_duplicates()
                &&& forall|change: ChangeView| #[trigger]
                    loaded.changes.contains(change) <==> was_appended(history, space, change)
                &&& match last_proof(history, space) {
                    Some((proven_up_to, proof_bytes)) => loaded.ff_proof == Some(proof_bytes)
                        && loaded.proven_up_to == proven_up_to,
                    None => loaded.ff_proof is None && loaded.proven_up_to == 0,
                }
            },
            None => true,
        },
{
    let changes = rows.map_values(|columns: ColumnsView| change_in(columns));
    lemma_last_proof(history, space);
    assert forall|i: int| 0 <= i < rows.len() implies {
        &&& was_appended(history, space, #[trigger] changes[i])
        &&& rows[i] == columns_of(changes[i])
    } by {
        let change = choose|change: ChangeView| #[trigger]
            was_appended(history, space, change) && rows[i] == columns_of(change);
        law_change_reads_back(change);
    }
    assert forall|i: int, j: int|
        #![trigger changes[i], changes[j]]
        0 <= i < j < changes.len() implies changes[i].change_id < changes[j].change_id by {
        assert(rows[i].change_id < rows[j].change_id);
    }
    assert forall|change: ChangeView| #[trigger] changes.contains(change) <==> was_appended(
        history,
        space,
        change,
    ) by {
        if was_appended(history, space, change) {
            law_change_reads_back(change);
            let i = rows.index_of(columns_of(change));
            assert(changes[i] == change);
        }
        if changes.contains(change) {
            let i = changes.index_of(change);
            assert(was_appended(history, space, changes[i]));
        }
    }
    if let Some((proven_up_to, _)) = last_proof(history, space) {
        law_columns_round_trip(0, 0, proven_up_to);
    }
    if loaded_space(rows, checkpoint) is None {
        assert forall|i: int| 0 <= i < history.len() implies (#[trigger] history[i]).space()
            != space by {
            if history[i] is AppendChange && history[i].space() == space {
                let change = history[i]->change;
                assert(history[i] == StoreCall::AppendChange { space, change });
                assert(was_appended(history, space, change));
                assert(rows.contains(columns_of(change)));
            }
        }
    } else if rows.len() > 0 {
        assert(was_appended(history, space, changes[0]));
        let k = history.index_of(StoreCall::AppendChange { space, change: changes[0] });
        assert(history[k].space() == space);
    }
}

/// A change is stored in four columns: its id, its bytes and its time, each in
/// its own. Times beyond the range of the column are stored as negative numbers
/// that stand for them.
pub proof fn law_columns_hold_the_change(change: ChangeView)
    ensures
        columns_of(change).change_id == change.change_id,
        columns_of(change).entry == change.entry,
        columns_of(change).hashed_values == change.hashed_values,
        columns_of(change).accepted_at == (if change.accepted_at <= i64::MAX {
            change.accepted_at as int
        } else {
            change.accepted_at - 0x1_0000_0000_0000_0000
        }),
{
    let t = change.accepted_at;
    assert(t <= 0x7fff_ffff_ffff_ffff ==> t as i64 == t) by (bit_vector);
    assert(t > 0x7fff_ffff_ffff_ffff ==> t as i64 == t - 0x1_0000_0000_0000_0000) by (bit_vector);
}

/// Columns are read as the change that they hold, also the bytes.
pub proof fn law_columns_are_read(columns: ColumnsView)
    ensures
        change_in(columns).entry == columns.entry,
        change_in(columns).hashed_values == columns.hashed_values,
        0 <= columns.change_id <= u32::MAX ==> change_in(columns).change_id == columns.change_id,
        change_in(columns).accepted_at == (if columns.accepted_at >= 0 {
            columns.accepted_at as int
        } else {
            columns.accepted_at + 0x1_0000_0000_0000_0000
        }),
{
    let t = columns.accepted_at;
    assert(t >= 0 ==> t as u64 == t) by (bit_vector);
    assert(t < 0 ==> t as u64 == t + 0x1_0000_0000_0000_0000) by (bit_vector);
}

/// A space is loaded with one change for each row, in the order of the rows, and
/// with the checkpoint that is given; without either it does not exist.
pub proof fn law_every_row_is_loaded(rows: Seq<ColumnsView>, checkpoint: Option<(i64, Seq<u8>)>)
    ensures
        loaded_space(rows, checkpoint) is None <==> rows.len() == 0 && checkpoint is None,
        match loaded_space(rows, checkpoint) {
            Some(space) => {
                &&& space.changes.len() == rows.len()
                &&& forall|i: int|
                    0 <= i < rows.len() ==> {
                        &&& (#[trigger] space.changes[i]).change_id == rows[i].change_id as u32
                        &&& space.changes[i].entry == rows[i].entry
                        &&& space.changes[i].hashed_values == rows[i].hashed_values
                        &&& space.changes[i].accepted_at == rows[i].accepted_at as u64
                    }
                &&& match checkpoint {
                    Some((column, bytes)) => {
                        &&& space.ff_proof == Some(bytes)
                        &&& space.proven_up_to == column as usize
                    },
                    None => space.ff_proof is None && space.proven_up_to == 0,
                }
            },
            None => true,
        },
{
}

} // verus!
