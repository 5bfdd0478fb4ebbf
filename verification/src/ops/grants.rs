//! Who may issue channel grants, and to whom.
//!
//! A grant is a retention row whose key column names a user and a channel. Rows
//! are recognised by the key's prefix alone, so that no spelling escapes the
//! checks, and must then be spelled canonically.

use crate::changelog;
use crate::changelog::{
    ChangelogError, ErrorKind, ErrorView, KvData, KvView, OpType, ProvenRead, StoredValue,
};
use crate::channel_grant;
use crate::channel_grant::{grant_row_key, parse_grant_row_key, starts_with_grant_prefix};
use crate::ops::reader;
use crate::ops::reader::VerifierReader;
use crate::text::text_eq;
use vstd::prelude::*;
use vstd::string::*;

verus! {

/// The retention column that holds a row's key.
pub const KEY_COLUMN: &'static str = "key";

/// Status of an invited member that has not joined yet.
pub const STATUS_PROVISIONAL: i64 = 0;

/// Status of a member that holds the group key.
pub const STATUS_FULL: i64 = 1;

/// Status of a member that holds keys of single channels only.
pub const STATUS_SCOPED: i64 = 2;

/// Status of an invited scoped member that has not joined yet.
pub const STATUS_SCOPED_PROVISIONAL: i64 = 3;

pub open spec fn provisional(status: int) -> bool {
    status == STATUS_PROVISIONAL || status == STATUS_SCOPED_PROVISIONAL
}

pub open spec fn scoped(status: int) -> bool {
    status == STATUS_SCOPED || status == STATUS_SCOPED_PROVISIONAL
}

/// Whether a member of this status has been invited and not joined yet.
pub fn is_provisional_status(status: i64) -> (r: bool)
    ensures
        r == provisional(status as int),
{
    status == STATUS_PROVISIONAL || status == STATUS_SCOPED_PROVISIONAL
}

/// The writes that a vector of references speaks of.
pub open spec fn kv_views(kvs: Seq<&KvData>) -> Seq<KvView> {
    kvs.map_values(|kv: &KvData| kv@)
}

/// Whether a column write is the key of a channel-grant row.
pub open spec fn is_grant(kv: KvView) -> bool {
    kv.column == KEY_COLUMN@ && kv.value is Text && channel_grant::has_grant_prefix(
        kv.value->Text_0,
    )
}

/// The text of a grant row's key column.
pub open spec fn grant_text(kv: KvView) -> Seq<char> {
    kv.value->Text_0
}

/// The user and channel of a grant key in canonical form: both non-negative,
/// and spelled as `grant_row_key` spells them.
pub open spec fn canonical_ids(key: Seq<char>) -> Option<(i64, i64)> {
    match channel_grant::grant_key_ids(key) {
        Some((uid, channel)) => if uid >= 0 && channel >= 0 && key
            == channel_grant::grant_key_text(uid as int, channel as int) {
            Some((uid, channel))
        } else {
            None
        },
        None => None,
    }
}

/// Whether some write is a grant key.
pub open spec fn has_grants(kvs: Seq<KvView>) -> bool {
    exists|i: int| 0 <= i < kvs.len() && is_grant(#[trigger] kvs[i])
}

/// The first grant, in order, that is not a canonical grant to `invitee`.
pub open spec fn invite_binding_error(op: OpType, kvs: Seq<KvView>, invitee: int) -> Option<
    ErrorView,
>
    decreases kvs.len(),
{
    if kvs.len() == 0 {
        None
    } else if !is_grant(kvs[0]) {
        invite_binding_error(op, kvs.skip(1), invitee)
    } else {
        match canonical_ids(grant_text(kvs[0])) {
            None => Some(
                changelog::refusal_naming(
                    op,
                    ErrorKind::NonCanonicalGrant,
                    grant_text(kvs[0]),
                ),
            ),
            Some((uid, channel)) => if uid != invitee {
                Some(
                    changelog::refusal(
                        op,
                        ErrorKind::GrantNotForInvitee { uid, invitee: invitee as i64 },
                    ),
                )
            } else {
                invite_binding_error(op, kvs.skip(1), invitee)
            },
        }
    }
}

/// Reads, grant by grant, the status of the user that the grant names: each
/// grant must be canonical and its user an existing scoped member.
pub open spec fn scoped_bindings_step(
    op: OpType,
    reads: Seq<ProvenRead>,
    pos: int,
    kvs: Seq<KvView>,
) -> (Result<(), ErrorView>, int)
    decreases kvs.len(),
{
    if kvs.len() == 0 {
        (Ok(()), pos)
    } else if !is_grant(kvs[0]) {
        scoped_bindings_step(op, reads, pos, kvs.skip(1))
    } else {
        match canonical_ids(grant_text(kvs[0])) {
            None => (
                Err(
                    changelog::refusal_naming(
                        op,
                        ErrorKind::NonCanonicalGrant,
                        grant_text(kvs[0]),
                    ),
                ),
                pos,
            ),
            Some((uid, channel)) => match reader::status_step(op, reads, pos, uid as int) {
                (Err(e), p) => (Err(e), p),
                (Ok(status), p) => if status is Some && scoped(status->0 as int) {
                    scoped_bindings_step(op, reads, p, kvs.skip(1))
                } else {
                    (Err(changelog::refusal(op, ErrorKind::GrantNotScoped { uid })), p)
                },
            },
        }
    }
}

/// Reads the signer's status: the signer must exist and have joined.
pub open spec fn access_step(op: OpType, reads: Seq<ProvenRead>, pos: int, uid: int) -> (
    Result<i64, ErrorView>,
    int,
) {
    match reader::status_step(op, reads, pos, uid) {
        (Err(e), p) => (Err(e), p),
        (Ok(None), p) => (Err(changelog::refusal(op, ErrorKind::UnknownUser(uid as i64))), p),
        (Ok(Some(status)), p) => if provisional(status as int) {
            (Err(changelog::refusal(op, ErrorKind::ProvisionalUser(uid as i64))), p)
        } else {
            (Ok(status), p)
        },
    }
}

/// Whether `kv` is the key of a channel-grant row.
pub fn is_grant_key_column_entry(kv: &KvData) -> (r: bool)
    ensures
        r == is_grant(kv@),
{
    if !text_eq(kv.key.column.as_str(), KEY_COLUMN) {
        return false;
    }
    match &kv.value {
        StoredValue::Text(key) => starts_with_grant_prefix(key.as_str()),
        _ => false,
    }
}

/// Parses a grant key that must be in canonical form.
pub fn parse_canonical_grant_key(key: &str) -> (r: Option<(i64, i64)>)
    ensures
        r == canonical_ids(key@),
{
    match parse_grant_row_key(key) {
        Some((uid, channel)) => {
            if uid < 0 || channel < 0 {
                return None;
            }
            let canonical = grant_row_key(uid, channel);
            if text_eq(key, canonical.as_str()) {
                Some((uid, channel))
            } else {
                None
            }
        },
        None => None,
    }
}

/// Whether any of the rows is a channel grant.
pub fn any_grant(kvs: &Vec<&KvData>) -> (r: bool)
    ensures
        r == has_grants(kv_views(kvs@)),
{
    let ghost views = kv_views(kvs@);
    let mut i: usize = 0;
    while i < kvs.len()
        invariant
            views == kv_views(kvs@),
            i <= kvs@.len(),
            forall|j: int| 0 <= j < i ==> !is_grant(#[trigger] views[j]),
        decreases kvs@.len() - i,
    {
        assert(views[i as int] == kvs@[i as int]@);
        if is_grant_key_column_entry(kvs[i]) {
            return true;
        }
        i = i + 1;
    }
    false
}

/// The text of a grant row's key column.
fn grant_key_of<'a>(kv: &'a KvData) -> (r: &'a String)
    requires
        is_grant(kv@),
    ensures
        r@ == grant_text(kv@),
{
    match &kv.value {
        StoredValue::Text(key) => key,
        _ => &kv.key.column,
    }
}

/// Every grant must name the invited user.
pub fn validate_invite_grant_bindings(op: OpType, kvs: &Vec<&KvData>, invitee: i64) -> (r: Result<
    (),
    ChangelogError,
>)
    ensures
        match invite_binding_error(op, kv_views(kvs@), invitee as int) {
            Some(error) => r is Err && r->Err_0@ == error,
            None => r is Ok,
        },
{
    let ghost views = kv_views(kvs@);
    let mut i: usize = 0;
    assert(views.skip(0) =~= views);
    while i < kvs.len()
        invariant
            views == kv_views(kvs@),
            i <= kvs@.len(),
            invite_binding_error(op, views, invitee as int) == invite_binding_error(
                op,
                views.skip(i as int),
                invitee as int,
            ),
        decreases kvs@.len() - i,
    {
        assert(views.skip(i as int)[0] == kvs@[i as int]@);
        assert(views.skip(i as int).skip(1) =~= views.skip(i + 1));
        if is_grant_key_column_entry(kvs[i]) {
            let key = grant_key_of(kvs[i]);
            match parse_canonical_grant_key(key.as_str()) {
                None => {
                    return Err(
                        ChangelogError::naming(op, ErrorKind::NonCanonicalGrant, key.as_str()),
                    );
                },
                Some((uid, _channel)) => {
                    if uid != invitee {
                        return Err(
                            ChangelogError::new(
                                op,
                                ErrorKind::GrantNotForInvitee { uid, invitee },
                            ),
                        );
                    }
                },
            }
        }
        i = i + 1;
    }
    Ok(())
}

/// Every grant must name an existing scoped member.
pub fn validate_scoped_grant_bindings(
    op: OpType,
    kvs: &Vec<&KvData>,
    reader: &mut VerifierReader,
) -> (r: Result<(), ChangelogError>)
    ensures
        final(reader).reads == old(reader).reads,
        (reader::outcome(r), final(reader).pos as int) == scoped_bindings_step(
            op,
            old(reader).reads@,
            old(reader).pos as int,
            kv_views(kvs@),
        ),
{
    let ghost views = kv_views(kvs@);
    let mut i: usize = 0;
    assert(views.skip(0) =~= views);
    while i < kvs.len()
        invariant
            views == kv_views(kvs@),
            i <= kvs@.len(),
            reader.reads == old(reader).reads,
            scoped_bindings_step(op, old(reader).reads@, old(reader).pos as int, views)
                == scoped_bindings_step(
                op,
                old(reader).reads@,
                reader.pos as int,
                views.skip(i as int),
            ),
        decreases kvs@.len() - i,
    {
        assert(views.skip(i as int)[0] == kvs@[i as int]@);
        assert(views.skip(i as int).skip(1) =~= views.skip(i + 1));
        if is_grant_key_column_entry(kvs[i]) {
            let key = grant_key_of(kvs[i]);
            let uid: i64 = match parse_canonical_grant_key(key.as_str()) {
                None => {
                    return Err(
                        ChangelogError::naming(op, ErrorKind::NonCanonicalGrant, key.as_str()),
                    );
                },
                Some((uid, _channel)) => uid,
            };
            let status = match reader.read_user_status(op, uid) {
                Ok(status) => status,
                Err(e) => return Err(e),
            };
            let is_scoped = match status {
                Some(s) => s == STATUS_SCOPED || s == STATUS_SCOPED_PROVISIONAL,
                None => false,
            };
            if !is_scoped {
                return Err(ChangelogError::new(op, ErrorKind::GrantNotScoped { uid }));
            }
        }
        i = i + 1;
    }
    Ok(())
}

/// The signer must exist and have joined; returns their status.
pub fn validate_user_access(op: OpType, uid: u32, reader: &mut VerifierReader) -> (r: Result<
    i64,
    ChangelogError,
>)
    ensures
        final(reader).reads == old(reader).reads,
        (reader::outcome(r), final(reader).pos as int) == access_step(
            op,
            old(reader).reads@,
            old(reader).pos as int,
            uid as int,
        ),
{
    let id: i64 = uid as i64;
    match reader.read_user_status(op, id) {
        Err(e) => Err(e),
        Ok(None) => Err(ChangelogError::new(op, ErrorKind::UnknownUser(id))),
        Ok(Some(status)) => {
            if is_provisional_status(status) {
                Err(ChangelogError::new(op, ErrorKind::ProvisionalUser(id)))
            } else {
                Ok(status)
            }
        },
    }
}

/// The refusal of a signer of this status where a full member is needed.
pub open spec fn full_member_error(op: OpType, uid: int, status: int) -> Option<ErrorView> {
    if status == STATUS_FULL {
        None
    } else {
        Some(
            changelog::refusal(
                op,
                ErrorKind::NotFullMember { uid: uid as i64, status: status as i64 },
            ),
        )
    }
}

/// The signer must be a full member.
pub fn require_full_member_signer(op: OpType, status: i64, uid: u32) -> (r: Result<
    (),
    ChangelogError,
>)
    ensures
        match full_member_error(op, uid as int, status as int) {
            Some(error) => r is Err && r->Err_0@ == error,
            None => r is Ok,
        },
{
    if status == STATUS_FULL {
        Ok(())
    } else {
        Err(ChangelogError::new(op, ErrorKind::NotFullMember { uid: uid as i64, status }))
    }
}

/// No row may be a channel grant.
pub fn reject_channel_grant_entries(op: OpType, kvs: &Vec<&KvData>) -> (r: Result<
    (),
    ChangelogError,
>)
    ensures
        reader::outcome(r) == (if has_grants(kv_views(kvs@)) {
            Err(changelog::refusal(op, ErrorKind::GrantNotAllowed))
        } else {
            Ok(())
        }),
{
    if any_grant(kvs) {
        Err(ChangelogError::new(op, ErrorKind::GrantNotAllowed))
    } else {
        Ok(())
    }
}

} // verus!
