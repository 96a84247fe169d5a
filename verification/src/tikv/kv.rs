//! The frame around stored shard values, the changes that store a shard, and the
//! cursor of a batched range scan.

use vstd::prelude::*;
use vstd::bytes::{spec_u32_from_le_bytes, spec_u32_to_le_bytes, u32_from_le_bytes, u32_to_le_bytes};

use super::keys::{shard, shard_count, spec_region_key, Ns};
use crate::bytes::{append_bytes, copy_prefix};
use crate::encoding::shard_entry::{ShardEntry, TAG_LEAF, TAG_POINTERS, LEAF_HEADER_LEN};
use crate::models::{AppError, FlexId, Stored, TableId};

verus! {

/// The CRC-32 (IEEE) checksum of `data`, as computed by `crc32fast::hash`.
pub uninterp spec fn crc32(data: Seq<u8>) -> u32;

/// `crc32fast::hash`: the CRC-32 checksum of the bytes. The result is named, not
/// described: [`crc32`] stands for the checksum that function computes.
#[verifier::external_body]
fn crc32_hash(data: &[u8]) -> (h: u32)
    ensures
        h == crc32(data@),
{
    crc32fast::hash(data)
}

/// Byte length of the frame header: the CRC-32 of the entry, little-endian.
pub const FRAME_HEADER_LEN: usize = 4;

pub open spec fn spec_frame(entry: Seq<u8>) -> Seq<u8> {
    spec_u32_to_le_bytes(crc32(entry)) + entry
}

/// Whether `framed` passes the integrity check: a header, and a checksum in it that
/// matches the rest.
pub open spec fn frame_is_intact(framed: Seq<u8>) -> bool {
    framed.len() >= FRAME_HEADER_LEN && spec_u32_from_le_bytes(framed.subrange(0, 4)) == crc32(
        framed.subrange(4, framed.len() as int),
    )
}

/// A stored shard value that passed its integrity check.
///
/// The check guards the zero-copy reading of leaves, whose safety rests on reading
/// exactly the bytes that were written; values that travel over the network and are
/// shared between instances cannot be assumed to be that.
pub struct ShardValue {
    framed: Vec<u8>,
}

impl Clone for ShardValue {
    fn clone(&self) -> (c: ShardValue)
        ensures
            c.spec_entry() == self.spec_entry(),
    {
        proof {
            use_type_invariant(self);
        }
        let framed = copy_prefix(self.framed.as_slice(), self.framed.len());
        assert(self.framed@.subrange(0, self.framed@.len() as int) =~= self.framed@);
        ShardValue { framed }
    }
}

impl ShardValue {
    #[verifier::type_invariant]
    spec fn intact(self) -> bool {
        frame_is_intact(self.framed@)
    }

    pub closed spec fn spec_entry(self) -> Seq<u8> {
        self.framed@.subrange(FRAME_HEADER_LEN as int, self.framed@.len() as int)
    }

    /// Checks the frame. A value shorter than the header is corrupt; a checksum that
    /// does not match is a storage error.
    pub fn try_from_framed(framed: Vec<u8>) -> (r: Result<ShardValue, AppError>)
        ensures
            r is Ok <==> frame_is_intact(framed@),
            r matches Ok(v) ==> v.spec_entry() == framed@.subrange(4, framed@.len() as int),
            r matches Err(e) ==> (framed@.len() < FRAME_HEADER_LEN && e matches AppError::Corrupt {
                what: Stored::Shard,
                ..
            }) || (framed@.len() >= FRAME_HEADER_LEN && e is StorageError),
    {
        if framed.len() < FRAME_HEADER_LEN {
            return Err(AppError::corrupt(Stored::Shard, "value is shorter than its frame header"));
        }
        let expected = u32_from_le_bytes(vstd::slice::slice_subrange(framed.as_slice(), 0, 4));
        let actual = crc32_hash(vstd::slice::slice_subrange(framed.as_slice(), 4, framed.len()));
        if actual != expected {
            return Err(AppError::StorageError("shard value failed its integrity check".to_string()));
        }
        Ok(ShardValue { framed })
    }

    /// The verified shard entry.
    pub fn entry(&self) -> (e: &[u8])
        ensures
            e@ == self.spec_entry(),
    {
        proof {
            use_type_invariant(self);
        }
        vstd::slice::slice_subrange(self.framed.as_slice(), FRAME_HEADER_LEN, self.framed.len())
    }
}

impl TryFrom<Vec<u8>> for ShardValue {
    type Error = AppError;

    /// As [`ShardValue::try_from_framed`].
    fn try_from(framed: Vec<u8>) -> (r: Result<ShardValue, AppError>)
        ensures
            r is Ok <==> frame_is_intact(framed@),
            r matches Ok(v) ==> v.spec_entry() == framed@.subrange(4, framed@.len() as int),
            r matches Err(e) ==> (framed@.len() < FRAME_HEADER_LEN && e matches AppError::Corrupt {
                what: Stored::Shard,
                ..
            }) || (framed@.len() >= FRAME_HEADER_LEN && e is StorageError),
    {
        ShardValue::try_from_framed(framed)
    }
}

/// The trait-level specification claims nothing; what `try_from` returns is stated by
/// its own `ensures`, which callers of the impl see.
impl vstd::std_specs::convert::TryFromSpecImpl<Vec<u8>> for ShardValue {
    open spec fn obeys_try_from_spec() -> bool {
        false
    }

    open spec fn try_from_spec(framed: Vec<u8>) -> Result<ShardValue, AppError> {
        vstd::pervasive::arbitrary()
    }
}

/// Wraps an entry in its checksum.
pub fn frame(entry: &[u8]) -> (out: Vec<u8>)
    ensures
        out@ == spec_frame(entry@),
{
    let mut out = u32_to_le_bytes(crc32_hash(entry));
    append_bytes(&mut out, entry);
    out
}

/// A framed entry passes the check and reads back as the same entry.
pub proof fn lemma_frame_round_trip(entry: Seq<u8>)
    ensures
        frame_is_intact(spec_frame(entry)),
        spec_frame(entry).subrange(4, spec_frame(entry).len() as int) == entry,
{
    vstd::bytes::lemma_auto_spec_u32_to_from_le_bytes();
    let f = spec_frame(entry);
    assert(f.subrange(0, 4) =~= spec_u32_to_le_bytes(crc32(entry)));
    assert(f.subrange(4, f.len() as int) =~= entry);
}

/// One staged change of the key space.
#[derive(Debug, Clone, PartialEq, Eq)]
pub enum Mutation {
    Put(Vec<u8>, Vec<u8>),
    Delete(Vec<u8>),
}

/// The change as plain byte strings: a value to put, or `None` to delete.
pub open spec fn mutation_view(m: Mutation) -> (Seq<u8>, Option<Seq<u8>>) {
    match m {
        Mutation::Put(k, v) => (k@, Some(v@)),
        Mutation::Delete(k) => (k@, None),
    }
}

/// What storing `entry` under `region` changes: the framed shard, and its count (a
/// leaf's header count, or nothing for a pointer node).
pub open spec fn spec_shard_mutations(table_id: TableId, region: FlexId, entry: Seq<u8>) -> Seq<
    (Seq<u8>, Option<Seq<u8>>),
> {
    seq![
        (spec_region_key(Ns::TablesData, table_id, region), Some(spec_frame(entry))),
        (
            spec_region_key(Ns::ShardCount, table_id, region),
            if entry[0] == TAG_LEAF {
                Some(spec_u32_to_le_bytes(spec_u32_from_le_bytes(entry.subrange(1, 5))))
            } else {
                None
            },
        ),
    ]
}

/// The changes that store a shard: the framed entry and its count, always as one pair
/// so that neither is written without the other. The network is not touched. An entry
/// that is no node (see [`ShardEntry::leaf_count`]) is an internal error.
pub fn shard_mutations(table_id: TableId, region: &FlexId, entry: &[u8]) -> (r: Result<
    [Mutation; 2],
    AppError,
>)
    ensures
        r is Ok <==> (entry@.len() >= LEAF_HEADER_LEN && entry@[0] == TAG_LEAF) || (entry@.len()
            >= 1 && entry@[0] == TAG_POINTERS),
        r matches Ok(ms) ==> seq![mutation_view(ms@[0]), mutation_view(ms@[1])]
            == spec_shard_mutations(table_id, *region, entry@),
        r matches Err(e) ==> e is InternalError,
{
    let count_key = shard_count(table_id, region);
    let count = match ShardEntry::leaf_count(entry)? {
        Some(count) => Mutation::Put(count_key, u32_to_le_bytes(count)),
        None => Mutation::Delete(count_key),
    };
    let ms = [Mutation::Put(shard(table_id, region), frame(entry)), count];
    assert(seq![mutation_view(ms@[0]), mutation_view(ms@[1])] =~= spec_shard_mutations(
        table_id,
        *region,
        entry@,
    ));
    Ok(ms)
}

/// Storing a shard writes, under the shard's key, a value that passes the integrity
/// check and reads back as exactly the stored entry; and, under the count key, the
/// leaf's header count (as a little-endian `u32`), or a deletion for a pointer node.
pub proof fn lemma_stored_shard_reads_back(table_id: TableId, region: FlexId, entry: Seq<u8>)
    requires
        entry.len() >= 1,
        entry[0] == TAG_LEAF ==> entry.len() >= LEAF_HEADER_LEN,
    ensures
        ({
            let ms = spec_shard_mutations(table_id, region, entry);
            &&& ms.len() == 2
            &&& ms[0].0 == spec_region_key(Ns::TablesData, table_id, region)
            &&& ms[0].1 matches Some(v) && frame_is_intact(v) && v.subrange(FRAME_HEADER_LEN as int, v.len() as int)
                == entry
            &&& ms[1].0 == spec_region_key(Ns::ShardCount, table_id, region)
            &&& entry[0] == TAG_LEAF ==> (ms[1].1 matches Some(c) && c.len() == 4 && spec_u32_from_le_bytes(c)
                == spec_u32_from_le_bytes(entry.subrange(1, 5)))
            &&& entry[0] != TAG_LEAF ==> ms[1].1 is None
        }),
{
    lemma_frame_round_trip(entry);
    vstd::bytes::lemma_auto_spec_u32_to_from_le_bytes();
}

/// The changes that remove a shard and its count.
pub fn shard_deletions(table_id: TableId, region: &FlexId) -> (ms: [Mutation; 2])
    ensures
        mutation_view(ms@[0]) == (spec_region_key(Ns::TablesData, table_id, *region), None::<
            Seq<u8>,
        >),
        mutation_view(ms@[1]) == (spec_region_key(Ns::ShardCount, table_id, *region), None::<
            Seq<u8>,
        >),
{
    [Mutation::Delete(shard(table_id, region)), Mutation::Delete(shard_count(table_id, region))]
}

/// Where the next batch of a range scan starts: `None` when this batch came back short
/// (the range is exhausted), else just after the last key read. The decision rests on
/// the raw number of keys fetched, `batch` being the limit the request was sent with.
pub fn next_cursor(last_key: &[u8], fetched: usize, batch: usize) -> (r: Option<Vec<u8>>)
    ensures
        fetched < batch ==> r is None,
        fetched >= batch ==> (r matches Some(c) && c@ == last_key@.push(0)),
{
    if fetched < batch {
        return None;
    }
    let mut cursor = copy_prefix(last_key, last_key.len());
    cursor.push(0);
    assert(last_key@.subrange(0, last_key@.len() as int) =~= last_key@);
    Some(cursor)
}

} // verus!
