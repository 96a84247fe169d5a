//! The key space of the distributed backend. It has one flat key space, so the first
//! byte of every key is a namespace tag that separates the logical tables.
//!
//! ```text
//!   0x00 ‖ "initialized"                 -> cluster-initialised marker
//!   0x01 ‖ name                          -> database metadata
//!   0x02 ‖ db_id(16) ‖ table_name        -> table metadata
//!   0x03 ‖ db_id(16)                     -> database name
//!   0x04 ‖ table_id(16)                  -> table name
//!   0x05 ‖ username                      -> user metadata
//!   0x06 ‖ table_id(16) ‖ flex_id        -> shard entry
//!   0x07 ‖ table_id(16) ‖ vkey ‖ flex_id -> value index entry (no value)
//!   0x08 ‖ table_id(16) ‖ flex_id        -> count of a shard (u32 LE)
//!   0x09 ‖ table_id(16)                  -> table waiting to be reclaimed
//!   0x7F ‖ scope ‖ id                    -> lock-only key (never written)
//! ```
//!
//! With the tag first, all keys of one namespace form one contiguous range, and the
//! order inside a key is the same as in the single-node backend.

use vstd::prelude::*;
use vstd::string::StringExecFns;
use vstd::string::StringSliceAdditionalSpecFns;
use vstd::utf8::{decode_utf8, encode_utf8, encode_utf8_decode_utf8, encode_utf8_valid_utf8, valid_utf8};

use crate::bytes::{append_bytes, first_diff_lt, is_prefix, lex_le, lex_lt};
use crate::encoding::value_index::{
    lemma_range_scan_covers, make_key, make_prefix, range_scan_bounds, spec_range_scan_bounds,
};
use crate::encoding::{
    id_from_slice, in_range, lemma_prefix_end_covers_exactly, spec_prefix_end,
    not_utf8, str_from_utf8, with_detail, UUID_LEN,
};
use crate::models::{AppError, DatabaseId, FlexId, TableId, FLEX_ID_LEN};

verus! {

/// A namespace of the key space.
#[derive(Debug, Clone, Copy, PartialEq, Eq)]
pub enum Ns {
    /// Marks about the whole cluster; for now only the initialised marker.
    Meta,
    Databases,
    Tables,
    DatabaseIdIndex,
    TableIdIndex,
    Users,
    TablesData,
    ValueIndex,
    /// The counts of the shards, split off from the shards themselves.
    ShardCount,
    /// Tables waiting to be reclaimed.
    Garbage,
    /// Keys that are only ever locked, never written.
    Lock,
}

impl Ns {
    pub open spec fn spec_tag(self) -> u8 {
        match self {
            Ns::Meta => 0x00,
            Ns::Databases => 0x01,
            Ns::Tables => 0x02,
            Ns::DatabaseIdIndex => 0x03,
            Ns::TableIdIndex => 0x04,
            Ns::Users => 0x05,
            Ns::TablesData => 0x06,
            Ns::ValueIndex => 0x07,
            Ns::ShardCount => 0x08,
            Ns::Garbage => 0x09,
            Ns::Lock => 0x7F,
        }
    }

    pub fn tag(self) -> (t: u8)
        ensures
            t == self.spec_tag(),
    {
        match self {
            Ns::Meta => 0x00,
            Ns::Databases => 0x01,
            Ns::Tables => 0x02,
            Ns::DatabaseIdIndex => 0x03,
            Ns::TableIdIndex => 0x04,
            Ns::Users => 0x05,
            Ns::TablesData => 0x06,
            Ns::ValueIndex => 0x07,
            Ns::ShardCount => 0x08,
            Ns::Garbage => 0x09,
            Ns::Lock => 0x7F,
        }
    }

    pub fn prefix(self) -> (p: Vec<u8>)
        ensures
            p@ == seq![self.spec_tag()],
    {
        let mut p: Vec<u8> = Vec::new();
        p.push(self.tag());
        assert(p@ =~= seq![self.spec_tag()]);
        p
    }
}

/// Different namespaces have different tags, so their keys never collide.
pub proof fn lemma_namespace_tags_distinct(a: Ns, b: Ns)
    ensures
        a != b ==> a.spec_tag() != b.spec_tag(),
{
}

fn with_ns(ns: Ns, rest: &[u8]) -> (key: Vec<u8>)
    ensures
        key@ == seq![ns.spec_tag()] + rest@,
{
    let mut key: Vec<u8> = Vec::new();
    key.push(ns.tag());
    append_bytes(&mut key, rest);
    assert(key@ =~= seq![ns.spec_tag()] + rest@);
    key
}

/// Whether the default user must still be created is decided by this marker, not by
/// the presence of that user: a deleted administrator must not come back.
pub fn cluster_initialized() -> (key: Vec<u8>)
    ensures
        key@ == seq![Ns::Meta.spec_tag()] + "initialized".spec_bytes(),
{
    with_ns(Ns::Meta, "initialized".as_bytes())
}

/// `0x01 ‖ name`
pub fn database(name: &str) -> (key: Vec<u8>)
    ensures
        key@ == seq![Ns::Databases.spec_tag()] + encode_utf8(name@),
{
    with_ns(Ns::Databases, name.as_bytes())
}

/// `0x03 ‖ db_id`
pub fn database_id_index(db_id: DatabaseId) -> (key: Vec<u8>)
    ensures
        key@ == seq![Ns::DatabaseIdIndex.spec_tag()] + db_id@,
{
    with_ns(Ns::DatabaseIdIndex, db_id.into_bytes().as_slice())
}

pub open spec fn spec_table(db_id: DatabaseId, table_name: Seq<char>) -> Seq<u8> {
    seq![Ns::Tables.spec_tag()] + db_id@ + encode_utf8(table_name)
}

/// `0x02 ‖ db_id ‖ table_name`
pub fn table(db_id: DatabaseId, table_name: &str) -> (key: Vec<u8>)
    ensures
        key@ == spec_table(db_id, table_name@),
{
    let mut rest: Vec<u8> = Vec::new();
    append_bytes(&mut rest, db_id.into_bytes().as_slice());
    append_bytes(&mut rest, table_name.as_bytes());
    let key = with_ns(Ns::Tables, rest.as_slice());
    assert(key@ =~= spec_table(db_id, table_name@));
    key
}

/// `0x02 ‖ db_id`: every table of one database.
pub fn tables_of(db_id: DatabaseId) -> (key: Vec<u8>)
    ensures
        key@ == seq![Ns::Tables.spec_tag()] + db_id@,
{
    with_ns(Ns::Tables, db_id.into_bytes().as_slice())
}

/// The name at the end of a table key. A key too short to hold the tag and a database,
/// or a name that is not UTF-8, is an internal error.
pub fn table_name_from_key(key: &[u8]) -> (r: Result<&str, AppError>)
    ensures
        r is Ok <==> key@.len() >= 1 + UUID_LEN && valid_utf8(
            key@.subrange(1 + UUID_LEN, key@.len() as int),
        ),
        r matches Ok(name) ==> name.spec_bytes() == key@.subrange(1 + UUID_LEN, key@.len() as int),
        r matches Err(e) ==> e is InternalError,
{
    let head = 1 + UUID_LEN;
    if key.len() < head {
        return Err(AppError::InternalError("table key too short".to_string()));
    }
    match str_from_utf8(vstd::slice::slice_subrange(key, head, key.len())) {
        Ok(name) => Ok(name),
        Err(detail) => Err(not_utf8("table name is not valid utf-8", detail)),
    }
}

/// `0x04 ‖ table_id`
pub fn table_id_index(table_id: TableId) -> (key: Vec<u8>)
    ensures
        key@ == seq![Ns::TableIdIndex.spec_tag()] + table_id@,
{
    with_ns(Ns::TableIdIndex, table_id.into_bytes().as_slice())
}

/// `0x05 ‖ username`
pub fn user(username: &str) -> (key: Vec<u8>)
    ensures
        key@ == seq![Ns::Users.spec_tag()] + encode_utf8(username@),
{
    with_ns(Ns::Users, username.as_bytes())
}

pub fn username_from_key(key: &[u8]) -> (r: Result<&str, AppError>)
    ensures
        r is Ok <==> key@.len() >= 1 && valid_utf8(key@.subrange(1, key@.len() as int)),
        r matches Ok(name) ==> name.spec_bytes() == key@.subrange(1, key@.len() as int),
        r matches Err(e) ==> e is InternalError,
{
    name_after_tag(key, "username")
}

pub fn database_name_from_key(key: &[u8]) -> (r: Result<&str, AppError>)
    ensures
        r is Ok <==> key@.len() >= 1 && valid_utf8(key@.subrange(1, key@.len() as int)),
        r matches Ok(name) ==> name.spec_bytes() == key@.subrange(1, key@.len() as int),
        r matches Err(e) ==> e is InternalError,
{
    name_after_tag(key, "database name")
}

/// Stripping the tag by indexing alone would panic on an unexpectedly short key.
/// `what` names the name in the error.
fn name_after_tag<'k>(key: &'k [u8], what: &str) -> (r: Result<&'k str, AppError>)
    ensures
        r is Ok <==> key@.len() >= 1 && valid_utf8(key@.subrange(1, key@.len() as int)),
        r matches Ok(name) ==> name.spec_bytes() == key@.subrange(1, key@.len() as int),
        key@.len() == 0 ==> (r matches Err(AppError::InternalError(m)) && m@ == what@ + " key is empty"@),
        key@.len() >= 1 && !valid_utf8(key@.subrange(1, key@.len() as int)) ==> (r matches Err(
            AppError::InternalError(m),
        ) && exists|d: Seq<char>| m@ == #[trigger] with_detail(what@ + " is not valid utf-8"@, d)),
{
    if key.len() == 0 {
        let mut m = String::from_str(what);
        m.append(" key is empty");
        return Err(AppError::InternalError(m));
    }
    match str_from_utf8(vstd::slice::slice_subrange(key, 1, key.len())) {
        Ok(name) => Ok(name),
        Err(detail) => {
            let mut w = String::from_str(what);
            w.append(" is not valid utf-8");
            let ghost d = detail@;
            let e = not_utf8(w.as_str(), detail);
            assert(e matches AppError::InternalError(m) && m@ == with_detail(what@ + " is not valid utf-8"@, d));
            Err(e)
        },
    }
}

/// The key with the 16 bytes after its tag replaced by `id`.
pub open spec fn spec_replace_leading_id(key: Seq<u8>, id: Seq<u8>) -> Seq<u8> {
    key.subrange(0, 1) + id + key.subrange(1 + UUID_LEN, key.len() as int)
}

/// Shard and value-index keys both read `tag ‖ table_id ‖ …`, so copying a table only
/// has to swap this part. A key too short to carry a table is an internal error and is
/// left as it was.
pub fn replace_leading_id(key: &mut Vec<u8>, id: TableId) -> (r: Result<(), AppError>)
    ensures
        r is Ok <==> old(key)@.len() >= 1 + UUID_LEN,
        r is Ok ==> final(key)@ == spec_replace_leading_id(old(key)@, id@),
        r is Err ==> final(key)@ == old(key)@ && r->Err_0 is InternalError,
{
    if key.len() < 1 + UUID_LEN {
        return Err(AppError::InternalError("key is too short to carry a table id".to_string()));
    }
    let bytes = id.into_bytes();
    let ghost orig = key@;
    let mut i: usize = 0;
    while i < UUID_LEN
        invariant
            i <= UUID_LEN,
            key@.len() == orig.len(),
            orig.len() >= 1 + UUID_LEN,
            bytes@ == id@,
            forall|j: int| 0 <= j < key@.len() ==> #[trigger] key@[j] == if 1 <= j < 1 + i {
                bytes@[j - 1]
            } else {
                orig[j]
            },
        decreases UUID_LEN - i,
    {
        key.set(1 + i, bytes[i]);
        i += 1;
    }
    assert(key@ =~= spec_replace_leading_id(orig, id@));
    Ok(())
}

pub open spec fn spec_region_key(ns: Ns, table_id: TableId, region: FlexId) -> Seq<u8> {
    seq![ns.spec_tag()] + table_id@ + region@
}

/// Shards and their counts share one layout; only the tag differs.
fn region_key(ns: Ns, table_id: TableId, region: &FlexId) -> (key: Vec<u8>)
    ensures
        key@ == spec_region_key(ns, table_id, *region),
{
    let mut key: Vec<u8> = Vec::new();
    key.push(ns.tag());
    append_bytes(&mut key, table_id.into_bytes().as_slice());
    append_bytes(&mut key, region.encode().as_slice());
    assert(key@ =~= spec_region_key(ns, table_id, *region));
    key
}

/// `0x06 ‖ table_id ‖ flex_id`
pub fn shard(table_id: TableId, region: &FlexId) -> (key: Vec<u8>)
    ensures
        key@ == spec_region_key(Ns::TablesData, table_id, *region),
{
    region_key(Ns::TablesData, table_id, region)
}

/// The region at the end of a shard key. Any length but that of a shard key is an
/// internal error.
pub fn region_from_shard_key(key: &[u8]) -> (r: Result<FlexId, AppError>)
    ensures
        r is Ok <==> key@.len() == 1 + UUID_LEN + FLEX_ID_LEN,
        r matches Ok(f) ==> f@ == key@.subrange(1 + UUID_LEN, key@.len() as int),
        r matches Err(e) ==> e is InternalError,
{
    if key.len() != 1 + UUID_LEN + FLEX_ID_LEN {
        return Err(AppError::InternalError("shard key has an unexpected length".to_string()));
    }
    let mut b = [0u8; 14];
    let mut i: usize = 0;
    while i < FLEX_ID_LEN
        invariant
            i <= FLEX_ID_LEN,
            key@.len() == 1 + UUID_LEN + FLEX_ID_LEN,
            forall|j: int| 0 <= j < i ==> b@[j] == key@[1 + UUID_LEN + j],
        decreases FLEX_ID_LEN - i,
    {
        b[i] = key[1 + UUID_LEN + i];
        i += 1;
    }
    assert(b@ =~= key@.subrange(1 + UUID_LEN, key@.len() as int));
    Ok(FlexId(b))
}

/// `0x06 ‖ table_id`: every shard of one table.
pub fn shards_of(table_id: TableId) -> (key: Vec<u8>)
    ensures
        key@ == seq![Ns::TablesData.spec_tag()] + table_id@,
{
    with_ns(Ns::TablesData, table_id.into_bytes().as_slice())
}

/// `0x08 ‖ table_id ‖ flex_id`, laid out like the shard it counts.
pub fn shard_count(table_id: TableId, region: &FlexId) -> (key: Vec<u8>)
    ensures
        key@ == spec_region_key(Ns::ShardCount, table_id, *region),
{
    region_key(Ns::ShardCount, table_id, region)
}

pub fn shard_counts_of(table_id: TableId) -> (key: Vec<u8>)
    ensures
        key@ == seq![Ns::ShardCount.spec_tag()] + table_id@,
{
    with_ns(Ns::ShardCount, table_id.into_bytes().as_slice())
}

/// `0x07 ‖ table_id ‖ vkey ‖ flex_id`
pub fn value_index(table_id: TableId, vkey: &[u8], flex_id: &FlexId) -> (key: Vec<u8>)
    ensures
        key@ == seq![Ns::ValueIndex.spec_tag()] + (table_id@ + vkey@ + flex_id@),
{
    with_ns(Ns::ValueIndex, make_key(table_id, vkey, flex_id).as_slice())
}

/// `0x07 ‖ table_id ‖ vkey`
pub fn value_index_prefix(table_id: TableId, vkey: &[u8]) -> (key: Vec<u8>)
    ensures
        key@ == seq![Ns::ValueIndex.spec_tag()] + (table_id@ + vkey@),
{
    with_ns(Ns::ValueIndex, make_prefix(table_id, vkey).as_slice())
}

pub fn value_index_of(table_id: TableId) -> (key: Vec<u8>)
    ensures
        key@ == seq![Ns::ValueIndex.spec_tag()] + table_id@,
{
    with_ns(Ns::ValueIndex, table_id.into_bytes().as_slice())
}

/// `0x09 ‖ table_id`: a logically removed table waiting to be reclaimed.
pub fn garbage(table_id: TableId) -> (key: Vec<u8>)
    ensures
        key@ == seq![Ns::Garbage.spec_tag()] + table_id@,
{
    with_ns(Ns::Garbage, table_id.into_bytes().as_slice())
}

/// The table a reclamation entry is about. A key too short to carry one is an
/// internal error.
pub fn table_id_from_garbage_key(key: &[u8]) -> (r: Result<TableId, AppError>)
    ensures
        r is Ok <==> key@.len() >= 1 + UUID_LEN,
        r matches Ok(t) ==> t@ == key@.subrange(1, 1 + UUID_LEN),
        r matches Err(e) ==> e is InternalError,
{
    if key.len() < 1 + UUID_LEN {
        return Err(AppError::InternalError("garbage key is too short to carry a table id".to_string()));
    }
    Ok(TableId(id_from_slice(key, 1)))
}

/// The data of a table, without its catalog entries: shards, counts, value index.
/// Reclaiming and copying use the same list, so neither can miss a namespace.
pub fn table_data_prefixes(table_id: TableId) -> (ps: [Vec<u8>; 3])
    ensures
        ps@[0]@ == seq![Ns::TablesData.spec_tag()] + table_id@,
        ps@[1]@ == seq![Ns::ShardCount.spec_tag()] + table_id@,
        ps@[2]@ == seq![Ns::ValueIndex.spec_tag()] + table_id@,
{
    [shards_of(table_id), shard_counts_of(table_id), value_index_of(table_id)]
}

/// Scopes of the lock hierarchy: the operations that derive changes from a range scan,
/// where per-key conflict checks cannot prevent phantoms.
///
/// Locks are always taken in ascending key order, so the order of the scope bytes is
/// the order of the hierarchy: coarse scopes first.
#[derive(Debug, Clone, Copy, PartialEq, Eq, PartialOrd, Ord)]
pub enum LockScope {
    /// The list of tables is read by a range scan; the operations that change it and
    /// those that read it take the same lock.
    Database,
    /// No range scan is involved, so users are an independent unit.
    User,
}

impl LockScope {
    pub open spec fn spec_byte(self) -> u8 {
        match self {
            LockScope::Database => 0x01,
            LockScope::User => 0x03,
        }
    }

    pub fn byte(self) -> (b: u8)
        ensures
            b == self.spec_byte(),
    {
        match self {
            LockScope::Database => 0x01,
            LockScope::User => 0x03,
        }
    }
}

pub open spec fn spec_lock(scope: LockScope, id: Seq<u8>) -> Seq<u8> {
    seq![Ns::Lock.spec_tag(), scope.spec_byte()] + id
}

/// `0x7F ‖ scope ‖ id`, with the identifier itself rather than a hash of it, so two
/// names can never share a lock. Nothing is ever written under this key.
pub fn lock(scope: LockScope, id: &[u8]) -> (key: Vec<u8>)
    ensures
        key@ == spec_lock(scope, id@),
{
    let mut key: Vec<u8> = Vec::new();
    key.push(Ns::Lock.tag());
    key.push(scope.byte());
    append_bytes(&mut key, id);
    assert(key@ =~= spec_lock(scope, id@));
    key
}

/// The scan range of the value index of one table for values from `lo` to `hi` (both
/// included): the bounds of the value index with the namespace tag in front. When the
/// values leave no upper bound, the end of the namespace is used.
pub fn value_index_scan_bounds(table_id: TableId, lo_vkey: &[u8], hi_vkey: &[u8]) -> (r: (
    Vec<u8>,
    Option<Vec<u8>>,
))
    ensures
        r.0@ == seq![Ns::ValueIndex.spec_tag()] + spec_range_scan_bounds(table_id@, lo_vkey@, hi_vkey@).0,
        r.1 is Some,
        r.1->0@ == match spec_range_scan_bounds(table_id@, lo_vkey@, hi_vkey@).1 {
            Some(e) => seq![Ns::ValueIndex.spec_tag()] + e,
            None => seq![Ns::ShardCount.spec_tag()],
        },
{
    let (start, end) = range_scan_bounds(table_id, lo_vkey, hi_vkey);
    let end = match end {
        Some(end) => with_ns(Ns::ValueIndex, end.as_slice()),
        None => {
            let mut e: Vec<u8> = Vec::new();
            e.push(Ns::ShardCount.tag());
            assert(e@ =~= seq![Ns::ShardCount.spec_tag()]);
            e
        },
    };
    (with_ns(Ns::ValueIndex, start.as_slice()), Some(end))
}

// --- laws ---
/// A table key lies under the prefix of its own database and under no other.
pub proof fn lemma_table_under_its_database(db: DatabaseId, other: DatabaseId, name: Seq<char>)
    ensures
        is_prefix(seq![Ns::Tables.spec_tag()] + other@, spec_table(db, name)) <==> other == db,
{
    let k = spec_table(db, name);
    assert(k.subrange(0, 17) =~= seq![Ns::Tables.spec_tag()] + db@);
    if is_prefix(seq![Ns::Tables.spec_tag()] + other@, k) {
        assert forall|i: int| 0 <= i < 16 implies other.0@[i] == db.0@[i] by {
            assert((seq![Ns::Tables.spec_tag()] + other@)[i + 1] == k[i + 1]);
        }
        assert(other.0 =~= db.0);
    }
}

/// Names read back from their keys: user names, database names and table names.
pub proof fn lemma_names_round_trip(db: DatabaseId, name: Seq<char>)
    ensures
        ({
            let k = seq![Ns::Users.spec_tag()] + encode_utf8(name);
            valid_utf8(k.subrange(1, k.len() as int)) && decode_utf8(k.subrange(1, k.len() as int))
                == name
        }),
        ({
            let k = seq![Ns::Databases.spec_tag()] + encode_utf8(name);
            valid_utf8(k.subrange(1, k.len() as int)) && decode_utf8(k.subrange(1, k.len() as int))
                == name
        }),
        ({
            let k = spec_table(db, name);
            valid_utf8(k.subrange(17, k.len() as int)) && decode_utf8(
                k.subrange(17, k.len() as int),
            ) == name
        }),
{
    encode_utf8_valid_utf8(name);
    encode_utf8_decode_utf8(name);
    let k1 = seq![Ns::Users.spec_tag()] + encode_utf8(name);
    assert(k1.subrange(1, k1.len() as int) =~= encode_utf8(name));
    let k2 = seq![Ns::Databases.spec_tag()] + encode_utf8(name);
    assert(k2.subrange(1, k2.len() as int) =~= encode_utf8(name));
    let k3 = spec_table(db, name);
    assert(k3.subrange(17, k3.len() as int) =~= encode_utf8(name));
}

/// A shard key falls inside the scan range of its own table's shards and outside
/// that of every other table; the same holds for shard counts.
pub proof fn lemma_shard_in_its_table(t: TableId, other: TableId, r: FlexId)
    ensures
        ({
            let p = seq![Ns::TablesData.spec_tag()] + other@;
            in_range(spec_region_key(Ns::TablesData, t, r), p, spec_prefix_end(p)) <==> other == t
        }),
        ({
            let p = seq![Ns::ShardCount.spec_tag()] + other@;
            in_range(spec_region_key(Ns::ShardCount, t, r), p, spec_prefix_end(p)) <==> other == t
        }),
{
    lemma_region_key_prefix(Ns::TablesData, t, other, r);
    lemma_region_key_prefix(Ns::ShardCount, t, other, r);
}

proof fn lemma_region_key_prefix(ns: Ns, t: TableId, other: TableId, r: FlexId)
    ensures
        ({
            let p = seq![ns.spec_tag()] + other@;
            in_range(spec_region_key(ns, t, r), p, spec_prefix_end(p)) <==> other == t
        }),
{
    let p = seq![ns.spec_tag()] + other@;
    let k = spec_region_key(ns, t, r);
    lemma_prefix_end_covers_exactly(p, k);
    assert(k.subrange(0, 17) =~= seq![ns.spec_tag()] + t@);
    if is_prefix(p, k) {
        assert forall|i: int| 0 <= i < 16 implies other.0@[i] == t.0@[i] by {
            assert(p[i + 1] == k[i + 1]);
        }
        assert(other.0 =~= t.0);
    }
}

/// Swapping the table of a shard key gives the shard key of the other table for the
/// same region.
pub proof fn lemma_replace_leading_id_moves_shard(t: TableId, other: TableId, r: FlexId)
    ensures
        spec_replace_leading_id(spec_region_key(Ns::TablesData, t, r), other@) == spec_region_key(
            Ns::TablesData,
            other,
            r,
        ),
{
    let k = spec_region_key(Ns::TablesData, t, r);
    assert(k.subrange(17, k.len() as int) =~= r@);
    assert(spec_replace_leading_id(k, other@) =~= spec_region_key(Ns::TablesData, other, r));
}

/// Whatever their identifiers, a database lock sorts before a user lock: taking locks
/// in key order takes them coarse to fine.
pub proof fn lemma_lock_scopes_ordered(db_id: Seq<u8>, user_id: Seq<u8>)
    ensures
        lex_lt(spec_lock(LockScope::Database, db_id), spec_lock(LockScope::User, user_id)),
{
    assert(first_diff_lt(
        spec_lock(LockScope::Database, db_id),
        spec_lock(LockScope::User, user_id),
        1,
    ));
}

/// Every value-index key of a value between `lo` and `hi` falls inside the range of
/// [`value_index_scan_bounds`].
pub proof fn lemma_value_index_scan_covers(t: TableId, lo: Seq<u8>, hi: Seq<u8>, v: Seq<u8>, f: FlexId)
    requires
        lex_le(lo, v),
        lex_le(v, hi),
    ensures
        ({
            let b = spec_range_scan_bounds(t@, lo, hi);
            let start = seq![Ns::ValueIndex.spec_tag()] + b.0;
            let end = match b.1 {
                Some(e) => seq![Ns::ValueIndex.spec_tag()] + e,
                None => seq![Ns::ShardCount.spec_tag()],
            };
            in_range(seq![Ns::ValueIndex.spec_tag()] + (t@ + v + f@), start, Some(end))
        }),
{
    lemma_range_scan_covers(t@, lo, hi, v, f@);
    let b = spec_range_scan_bounds(t@, lo, hi);
    let tag = seq![Ns::ValueIndex.spec_tag()];
    let inner = t@ + v + f@;
    let key = tag + inner;
    crate::bytes::lemma_lex_le_common_prefix(tag, b.0, inner);
    match b.1 {
        Some(e) => {
            crate::bytes::lemma_lex_lt_common_prefix(tag, inner, e);
        },
        None => {
            assert(first_diff_lt(key, seq![Ns::ShardCount.spec_tag()], 0));
        },
    }
}

} // verus!
