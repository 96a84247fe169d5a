//! Keys and values of ACL rows, laid out the same way by every backend.
//!
//! ```text
//!   forward : principal_id(16) ‖ db_id(16) ‖ table_slot(16)  -> role(1)
//!   reverse : db_id(16) ‖ table_slot(16) ‖ principal_id(16)  -> ()
//! ```
//!
//! The table slot is all zeros for a database-wide row. Every part has a fixed length
//! of 16 bytes, so a prefix scan over one principal can never reach the rows of
//! another principal whose identifier merely starts the same way.
//!
//! The forward key answers "what does this principal hold", the reverse key "who
//! holds this target"; the reverse key starts with the database, so one prefix
//! finds both the database-wide rows and the rows of every table inside it.

use vstd::prelude::*;

use super::{id_from_slice, UUID_LEN};
use crate::bytes::{append_bytes, first_diff_lt, is_prefix, lex_lt};
use crate::models::{AppError, DataRole, DataTarget, DatabaseId, PrincipalId, TableId};

verus! {

/// The key that identifies one ACL row.
#[derive(Debug, Clone, Copy, PartialEq, Eq, Hash, PartialOrd, Ord)]
pub struct AclKey {
    pub principal: PrincipalId,
    pub target: DataTarget,
}

/// The two keys of one row.
///
/// They are handed out together so that no caller writes one direction and forgets
/// the other: a row visible only one way, or one that survives the removal of its
/// target.
pub struct AclRow {
    pub forward: Vec<u8>,
    pub reverse: Vec<u8>,
}

impl AclRow {
    /// Removal treats both directions alike, so they can be handed over together.
    pub fn into_keys(self) -> (keys: [Vec<u8>; 2])
        ensures
            keys@[0] == self.forward,
            keys@[1] == self.reverse,
    {
        [self.forward, self.reverse]
    }
}

/// Byte length of a key in either direction: three identifiers.
pub const ACL_KEY_LEN: usize = 48;

impl AclKey {
    pub fn new(principal: PrincipalId, target: DataTarget) -> (k: AclKey)
        ensures
            k == (AclKey { principal, target }),
    {
        AclKey { principal, target }
    }

    pub open spec fn spec_forward(self) -> Seq<u8> {
        self.principal@ + self.target.db_id@ + self.target.spec_slot()
    }

    pub open spec fn spec_reverse(self) -> Seq<u8> {
        self.target.db_id@ + self.target.spec_slot() + self.principal@
    }

    /// `key` is a well-formed forward key naming `k`.
    pub open spec fn forward_decodes_to(key: Seq<u8>, k: AclKey) -> bool {
        &&& key.len() == ACL_KEY_LEN
        &&& k.principal@ == key.subrange(0, 16)
        &&& k.target.db_id@ == key.subrange(16, 32)
        &&& k.target.spec_slot() == key.subrange(32, 48)
        &&& k.target.well_formed()
    }

    /// `key` is a well-formed reverse key naming `k`.
    pub open spec fn reverse_decodes_to(key: Seq<u8>, k: AclKey) -> bool {
        &&& key.len() == ACL_KEY_LEN
        &&& k.target.db_id@ == key.subrange(0, 16)
        &&& k.target.spec_slot() == key.subrange(16, 32)
        &&& k.principal@ == key.subrange(32, 48)
        &&& k.target.well_formed()
    }

    /// The two keys of this row.
    pub fn rows(&self) -> (row: AclRow)
        ensures
            row.forward@ == self.spec_forward(),
            row.reverse@ == self.spec_reverse(),
    {
        let principal = self.principal.into_bytes();
        let db = self.target.db_id.into_bytes();
        let slot = self.target.slot().into_bytes();
        AclRow { forward: concat([principal, db, slot]), reverse: concat([db, slot, principal]) }
    }

    /// Looking a row up needs only the forward key.
    pub fn forward(&self) -> (key: Vec<u8>)
        ensures
            key@ == self.spec_forward(),
    {
        concat([self.principal.into_bytes(), self.target.db_id.into_bytes(), self.target.slot().into_bytes()])
    }

    /// Reads a forward key. Anything but 48 bytes is an internal error.
    pub fn decode_forward(key: &[u8]) -> (r: Result<AclKey, AppError>)
        ensures
            r is Ok <==> key@.len() == ACL_KEY_LEN,
            r matches Ok(k) ==> Self::forward_decodes_to(key@, k),
            r matches Err(e) ==> e is InternalError,
    {
        let parts = split(key)?;
        let (principal, db_id, slot) = (parts[0], parts[1], parts[2]);
        Ok(
            AclKey::new(
                PrincipalId(principal),
                DataTarget::from_slot(DatabaseId(db_id), TableId(slot)),
            ),
        )
    }

    /// Reads a reverse key. Anything but 48 bytes is an internal error.
    pub fn decode_reverse(key: &[u8]) -> (r: Result<AclKey, AppError>)
        ensures
            r is Ok <==> key@.len() == ACL_KEY_LEN,
            r matches Ok(k) ==> Self::reverse_decodes_to(key@, k),
            r matches Err(e) ==> e is InternalError,
    {
        let parts = split(key)?;
        let (db_id, slot, principal) = (parts[0], parts[1], parts[2]);
        Ok(
            AclKey::new(
                PrincipalId(principal),
                DataTarget::from_slot(DatabaseId(db_id), TableId(slot)),
            ),
        )
    }

    // --- scan prefixes ---
    /// Every row this principal holds.
    pub fn owned_by(principal: PrincipalId) -> (p: Vec<u8>)
        ensures
            p@ == principal@,
    {
        let mut out: Vec<u8> = Vec::new();
        append_bytes(&mut out, principal.into_bytes().as_slice());
        out
    }

    /// Every row this principal holds inside this database.
    pub fn owned_by_in(principal: PrincipalId, db_id: DatabaseId) -> (p: Vec<u8>)
        ensures
            p@ == principal@ + db_id@,
    {
        let mut out: Vec<u8> = Vec::new();
        append_bytes(&mut out, principal.into_bytes().as_slice());
        append_bytes(&mut out, db_id.into_bytes().as_slice());
        out
    }

    /// Every principal holding this one target (reverse direction).
    pub fn holders_of(target: DataTarget) -> (p: Vec<u8>)
        ensures
            p@ == target.db_id@ + target.spec_slot(),
    {
        let mut out: Vec<u8> = Vec::new();
        append_bytes(&mut out, target.db_id.into_bytes().as_slice());
        append_bytes(&mut out, target.slot().into_bytes().as_slice());
        out
    }

    /// Every row about this database, its tables' rows included (reverse direction).
    pub fn holders_in(db_id: DatabaseId) -> (p: Vec<u8>)
        ensures
            p@ == db_id@,
    {
        let mut out: Vec<u8> = Vec::new();
        append_bytes(&mut out, db_id.into_bytes().as_slice());
        out
    }
}

/// The role stored as the value of a forward row. An empty value, or a byte that
/// names no role, is an internal error.
pub fn decode_role(value: &[u8]) -> (r: Result<DataRole, AppError>)
    ensures
        match r {
            Ok(role) => value@.len() > 0 && DataRole::spec_from_byte(value@[0]) == Some(role),
            Err(e) => e is InternalError && (value@.len() == 0 || DataRole::spec_from_byte(
                value@[0],
            ) is None),
        },
{
    if value.len() == 0 {
        return Err(AppError::InternalError("acl row has an empty value".to_string()));
    }
    DataRole::from_byte(value[0])
}

fn concat(parts: [[u8; 16]; 3]) -> (out: Vec<u8>)
    ensures
        out@ == parts@[0]@ + parts@[1]@ + parts@[2]@,
{
    let mut out: Vec<u8> = Vec::new();
    append_bytes(&mut out, parts[0].as_slice());
    append_bytes(&mut out, parts[1].as_slice());
    append_bytes(&mut out, parts[2].as_slice());
    out
}

fn split(key: &[u8]) -> (r: Result<[[u8; 16]; 3], AppError>)
    ensures
        r is Ok <==> key@.len() == ACL_KEY_LEN,
        r matches Ok(parts) ==> parts@[0]@ == key@.subrange(0, 16) && parts@[1]@ == key@.subrange(
            16,
            32,
        ) && parts@[2]@ == key@.subrange(32, 48),
        r matches Err(e) ==> e is InternalError,
{
    if key.len() != ACL_KEY_LEN {
        return Err(AppError::InternalError("acl key has the wrong length".to_string()));
    }
    let a = id_from_slice(key, 0);
    let b = id_from_slice(key, UUID_LEN);
    let c = id_from_slice(key, 2 * UUID_LEN);
    Ok([a, b, c])
}

// --- laws ---
proof fn lemma_slot_determines_target(a: DataTarget, b: DataTarget)
    requires
        a.well_formed(),
        b.well_formed(),
        a.db_id@ == b.db_id@,
        a.spec_slot() == b.spec_slot(),
    ensures
        a == b,
{
    assert(a.db_id.0 =~= b.db_id.0);
    match (a.table, b.table) {
        (Some(x), Some(y)) => {
            assert(x.0 =~= y.0);
        },
        (Some(x), None) => {
            assert forall|i: int| 0 <= i < 16 implies #[trigger] x@[i] == 0 by {
                assert(a.spec_slot()[i] == b.spec_slot()[i]);
            }
        },
        (None, Some(y)) => {
            assert forall|i: int| 0 <= i < 16 implies #[trigger] y@[i] == 0 by {
                assert(a.spec_slot()[i] == b.spec_slot()[i]);
            }
        },
        (None, None) => {},
    }
}

proof fn lemma_slot_len(t: DataTarget)
    ensures
        t.spec_slot().len() == 16,
{
}

/// Reading back either key of a row gives back the row, and nothing else: a forward
/// (or reverse) key decodes, and whatever it decodes to is the key it was made from.
pub proof fn lemma_acl_round_trip(k: AclKey, d: AclKey)
    requires
        k.target.well_formed(),
    ensures
        AclKey::forward_decodes_to(k.spec_forward(), k),
        AclKey::reverse_decodes_to(k.spec_reverse(), k),
        AclKey::forward_decodes_to(k.spec_forward(), d) ==> d == k,
        AclKey::reverse_decodes_to(k.spec_reverse(), d) ==> d == k,
{
    lemma_slot_len(k.target);
    let f = k.spec_forward();
    let r = k.spec_reverse();
    assert(f.subrange(0, 16) =~= k.principal@);
    assert(f.subrange(16, 32) =~= k.target.db_id@);
    assert(f.subrange(32, 48) =~= k.target.spec_slot());
    assert(r.subrange(0, 16) =~= k.target.db_id@);
    assert(r.subrange(16, 32) =~= k.target.spec_slot());
    assert(r.subrange(32, 48) =~= k.principal@);
    if AclKey::forward_decodes_to(f, d) || AclKey::reverse_decodes_to(r, d) {
        lemma_slot_determines_target(d.target, k.target);
        assert(d.principal.0 =~= k.principal.0);
    }
}

/// A principal's prefix picks out exactly that principal's forward rows, and a
/// principal-and-database prefix exactly its rows inside that database.
pub proof fn lemma_owned_by_selects_principal(k: AclKey, p: PrincipalId, db: DatabaseId)
    ensures
        is_prefix(p@, k.spec_forward()) <==> k.principal == p,
        is_prefix(p@ + db@, k.spec_forward()) <==> (k.principal == p && k.target.db_id == db),
{
    lemma_slot_len(k.target);
    let f = k.spec_forward();
    assert(f.subrange(0, 16) =~= k.principal@);
    assert(f.subrange(0, 32) =~= k.principal@ + k.target.db_id@);
    if is_prefix(p@, f) {
        assert(p.0 =~= k.principal.0);
    }
    if is_prefix(p@ + db@, f) {
        assert((p@ + db@).subrange(0, 16) =~= p@);
        assert((p@ + db@).subrange(16, 32) =~= db@);
        assert(f.subrange(0, 32).subrange(0, 16) =~= k.principal@);
        assert(f.subrange(0, 32).subrange(16, 32) =~= k.target.db_id@);
        assert(p.0 =~= k.principal.0);
        assert(db.0 =~= k.target.db_id.0);
    }
}

/// In the reverse direction, a database's prefix picks out exactly the rows on that
/// database and its tables, and a target's prefix exactly the rows on that target.
pub proof fn lemma_holders_select_target(k: AclKey, db: DatabaseId, t: DataTarget)
    requires
        k.target.well_formed(),
        t.well_formed(),
    ensures
        is_prefix(db@, k.spec_reverse()) <==> k.target.db_id == db,
        is_prefix(t.db_id@ + t.spec_slot(), k.spec_reverse()) <==> k.target == t,
{
    lemma_slot_len(k.target);
    lemma_slot_len(t);
    let r = k.spec_reverse();
    assert(r.subrange(0, 16) =~= k.target.db_id@);
    assert(r.subrange(0, 32) =~= k.target.db_id@ + k.target.spec_slot());
    if is_prefix(db@, r) {
        assert(db.0 =~= k.target.db_id.0);
    }
    let h = t.db_id@ + t.spec_slot();
    if is_prefix(h, r) {
        assert(h.subrange(0, 16) =~= t.db_id@);
        assert(h.subrange(16, 32) =~= t.spec_slot());
        assert(r.subrange(0, 32).subrange(0, 16) =~= k.target.db_id@);
        assert(r.subrange(0, 32).subrange(16, 32) =~= k.target.spec_slot());
        lemma_slot_determines_target(k.target, t);
    }
}

/// Within one principal and database, the database-wide row sorts before the row of
/// any of its tables.
pub proof fn lemma_database_row_sorts_first(p: PrincipalId, db: DatabaseId, t: TableId)
    requires
        !t.spec_is_nil(),
    ensures
        lex_lt(
            (AclKey { principal: p, target: DataTarget { db_id: db, table: None } }).spec_forward(),
            (AclKey { principal: p, target: DataTarget { db_id: db, table: Some(t) } }).spec_forward(),
        ),
{
    let a = (AclKey { principal: p, target: DataTarget { db_id: db, table: None } }).spec_forward();
    let b = (AclKey { principal: p, target: DataTarget { db_id: db, table: Some(t) } }).spec_forward();
    assert(exists|i: int| 0 <= i < 16 && #[trigger] t@[i] != 0);
    // the first non-zero byte of the table identifier decides
    lemma_first_nonzero(t@);
    let m = choose|m: int| 0 <= m < 16 && t@[m] != 0 && forall|j: int| 0 <= j < m ==> t@[j] == 0;
    assert(first_diff_lt(a, b, 32 + m));
}

proof fn lemma_first_nonzero(s: Seq<u8>)
    requires
        s.len() == 16,
        exists|i: int| 0 <= i < 16 && #[trigger] s[i] != 0,
    ensures
        exists|m: int| 0 <= m < 16 && s[m] != 0 && forall|j: int| 0 <= j < m ==> s[j] == 0,
{
    let z = Seq::new(16, |i: int| 0u8);
    assert(exists|k: int| 0 <= k < 16 && s[k] != z[k]);
    crate::bytes::lemma_first_difference(s, z, 16);
    let m = choose|m: int| 0 <= m < 16 && s[m] != z[m] && forall|j: int| 0 <= j < m ==> s[j] == z[j];
    assert(0 <= m < 16 && s[m] != 0 && forall|j: int| 0 <= j < m ==> s[j] == 0);
}

} // verus!
