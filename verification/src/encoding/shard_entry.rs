//! The stored form of one node of the shard tree, the same for every backend.
//!
//! ```text
//!   leaf     : 0x00 ‖ count(u32 LE) ‖ map bytes
//!   pointers : 0x01 ‖ region(14) ‖ region(14) ‖ …
//! ```
//!
//! The count sits in the header so that leaves can be counted without decoding them.

use vstd::prelude::*;
use vstd::bytes::{spec_u32_from_le_bytes, spec_u32_to_le_bytes, u32_from_le_bytes, u32_to_le_bytes};

use crate::bytes::append_bytes;
use crate::models::{AppError, FlexId, FLEX_ID_LEN};

verus! {

/// Most regions one shard holds before it is split.
///
/// The tree rewrites a whole leaf on every change, so this bounds the size of one
/// write. It counts regions rather than bytes because neighbouring regions with the
/// same value merge: contiguous data does not grow the count however wide it is.
pub const MAX_FLEX_ID_PER_SHARD: usize = 256;

/// Sibling shards whose combined count falls to this are merged into one.
pub const MERGE_FLEX_ID_THRESHOLD: usize = 128;

pub const TAG_LEAF: u8 = 0;

pub const TAG_POINTERS: u8 = 1;

/// Tag (1) and count (u32 LE, 4).
pub const LEAF_HEADER_LEN: usize = 5;

/// A decoded node.
pub enum ShardEntry {
    /// The serialised map of a leaf.
    Leaf(Vec<u8>),
    /// The regions of the children.
    Pointers(Vec<FlexId>),
}

/// The encodings of `regions`, one after another.
pub open spec fn spec_regions_bytes(regions: Seq<FlexId>) -> Seq<u8>
    decreases regions.len(),
{
    if regions.len() == 0 {
        Seq::empty()
    } else {
        spec_regions_bytes(regions.drop_last()) + regions.last()@
    }
}

pub open spec fn spec_leaf_bytes(count: u32, map_bytes: Seq<u8>) -> Seq<u8> {
    seq![TAG_LEAF] + spec_u32_to_le_bytes(count) + map_bytes
}

pub open spec fn spec_pointers_bytes(regions: Seq<FlexId>) -> Seq<u8> {
    seq![TAG_POINTERS] + spec_regions_bytes(regions)
}

/// `regions` are the consecutive 14-byte chunks of `body`.
pub open spec fn chunks_are(body: Seq<u8>, regions: Seq<FlexId>) -> bool {
    &&& body.len() == regions.len() * FLEX_ID_LEN
    &&& forall|i: int|
        0 <= i < regions.len() ==> #[trigger] regions[i]@ == body.subrange(
            i * FLEX_ID_LEN,
            i * FLEX_ID_LEN + FLEX_ID_LEN,
        )
}

proof fn lemma_regions_bytes(regions: Seq<FlexId>)
    ensures
        chunks_are(spec_regions_bytes(regions), regions),
    decreases regions.len(),
{
    if regions.len() > 0 {
        let init = regions.drop_last();
        lemma_regions_bytes(init);
        let b = spec_regions_bytes(regions);
        let bi = spec_regions_bytes(init);
        assert(regions.last()@.len() == 14);
        assert forall|i: int| 0 <= i < regions.len() implies #[trigger] regions[i]@ == b.subrange(
            i * FLEX_ID_LEN,
            i * FLEX_ID_LEN + FLEX_ID_LEN,
        ) by {
            if i < init.len() {
                assert(init[i] == regions[i]);
                assert(b.subrange(i * 14, i * 14 + 14) =~= bi.subrange(i * 14, i * 14 + 14));
            } else {
                assert(b.subrange(i * 14, i * 14 + 14) =~= regions.last()@);
            }
        }
    }
}

/// Two region lists with the same chunks are the same list.
pub proof fn lemma_chunks_determine(body: Seq<u8>, a: Seq<FlexId>, b: Seq<FlexId>)
    requires
        chunks_are(body, a),
        chunks_are(body, b),
    ensures
        a == b,
{
    assert(a.len() == b.len()) by (nonlinear_arith)
        requires
            body.len() == a.len() * 14,
            body.len() == b.len() * 14,
    ;
    assert forall|i: int| 0 <= i < a.len() implies a[i] == b[i] by {
        assert(a[i]@ == b[i]@);
        assert(a[i].0@ =~= b[i].0@);
        assert(a[i].0 =~= b[i].0);
    }
    assert(a =~= b);
}

/// What a stored node decodes to: `Some(Ok(map))` for a leaf, `Some(Err(regions))`
/// for a pointer node, `None` for bytes that are no node.
pub open spec fn spec_decodes_to_leaf(bytes: Seq<u8>, payload: Seq<u8>) -> bool {
    bytes.len() >= LEAF_HEADER_LEN && bytes[0] == TAG_LEAF && payload == bytes.subrange(
        LEAF_HEADER_LEN as int,
        bytes.len() as int,
    )
}

pub open spec fn is_valid_entry(bytes: Seq<u8>) -> bool {
    ||| (bytes.len() >= LEAF_HEADER_LEN && bytes[0] == TAG_LEAF)
    ||| (bytes.len() >= 1 && bytes[0] == TAG_POINTERS && (bytes.len() - 1) % (FLEX_ID_LEN as int)
        == 0)
}

impl ShardEntry {
    /// Decodes a stored node. An empty or untagged entry, a truncated leaf header and a
    /// pointer body that is not a whole number of regions are internal errors.
    pub fn decode(bytes: &[u8]) -> (r: Result<ShardEntry, AppError>)
        ensures
            r is Ok <==> is_valid_entry(bytes@),
            r matches Ok(ShardEntry::Leaf(m)) ==> spec_decodes_to_leaf(bytes@, m@),
            r matches Ok(ShardEntry::Pointers(rs)) ==> bytes@[0] == TAG_POINTERS && chunks_are(
                bytes@.subrange(1, bytes@.len() as int),
                rs@,
            ),
            r matches Err(e) ==> e is InternalError,
    {
        if bytes.len() == 0 {
            return Err(AppError::InternalError("empty shard entry".to_string()));
        }
        let tag = bytes[0];
        if tag == TAG_LEAF {
            if bytes.len() < LEAF_HEADER_LEN {
                return Err(AppError::InternalError("truncated leaf entry".to_string()));
            }
            let payload = vstd::slice::slice_subrange(bytes, LEAF_HEADER_LEN, bytes.len());
            Ok(ShardEntry::Leaf(vstd::slice::slice_to_vec(payload)))
        } else if tag == TAG_POINTERS {
            let n = bytes.len() - 1;
            if n % FLEX_ID_LEN != 0 {
                return Err(AppError::InternalError("invalid pointer node length".to_string()));
            }
            let count = n / FLEX_ID_LEN;
            let blen = bytes.len();
            let ghost body = bytes@.subrange(1, bytes@.len() as int);
            let mut regions: Vec<FlexId> = Vec::new();
            let mut k: usize = 0;
            while k < count
                invariant
                    k <= count,
                    count * FLEX_ID_LEN == n,
                    n + 1 == bytes@.len(),
                    blen == bytes@.len(),
                    body == bytes@.subrange(1, bytes@.len() as int),
                    regions@.len() == k,
                    forall|i: int|
                        0 <= i < k ==> #[trigger] regions@[i]@ == body.subrange(
                            i * FLEX_ID_LEN,
                            i * FLEX_ID_LEN + FLEX_ID_LEN,
                        ),
                decreases count - k,
            {
                proof {
                    assert(k * 14 + 14 <= count * 14) by (nonlinear_arith)
                        requires
                            k < count,
                    ;
                }
                let start = 1 + k * FLEX_ID_LEN;
                let mut b = [0u8; 14];
                let mut j: usize = 0;
                while j < FLEX_ID_LEN
                    invariant
                        j <= FLEX_ID_LEN,
                        blen == bytes@.len(),
                        start + FLEX_ID_LEN <= blen,
                        start == 1 + k * FLEX_ID_LEN,
                        forall|m: int| 0 <= m < j ==> b@[m] == bytes@[start + m],
                    decreases FLEX_ID_LEN - j,
                {
                    b[j] = bytes[start + j];
                    j += 1;
                }
                assert(b@ =~= body.subrange(k * 14, k * 14 + 14));
                regions.push(FlexId(b));
                k += 1;
            }
            assert(body.len() == regions@.len() * 14);
            Ok(ShardEntry::Pointers(regions))
        } else {
            Err(AppError::InternalError("empty shard entry".to_string()))
        }
    }

    /// The stored form of a leaf holding `flex_id_count` regions.
    pub fn encode_leaf(flex_id_count: u32, map_bytes: &[u8]) -> (out: Vec<u8>)
        ensures
            out@ == spec_leaf_bytes(flex_id_count, map_bytes@),
    {
        let mut out: Vec<u8> = Vec::new();
        out.push(TAG_LEAF);
        let count = u32_to_le_bytes(flex_id_count);
        append_bytes(&mut out, count.as_slice());
        append_bytes(&mut out, map_bytes);
        proof {
            assert(out@ =~= spec_leaf_bytes(flex_id_count, map_bytes@));
        }
        out
    }

    /// The count in a leaf's header, read without decoding the leaf; `None` for a
    /// pointer node.
    pub fn leaf_count(entry: &[u8]) -> (r: Result<Option<u32>, AppError>)
        ensures
            r is Ok <==> (entry@.len() >= LEAF_HEADER_LEN && entry@[0] == TAG_LEAF) || (
            entry@.len() >= 1 && entry@[0] == TAG_POINTERS),
            r matches Ok(Some(c)) ==> entry@[0] == TAG_LEAF && c == spec_u32_from_le_bytes(
                entry@.subrange(1, 5),
            ),
            r matches Ok(None) ==> entry@[0] == TAG_POINTERS,
            r matches Err(e) ==> e is InternalError,
    {
        if entry.len() == 0 {
            return Err(AppError::InternalError("empty shard entry".to_string()));
        }
        let tag = entry[0];
        if tag == TAG_LEAF {
            if entry.len() < LEAF_HEADER_LEN {
                return Err(AppError::InternalError("truncated leaf entry".to_string()));
            }
            let count = u32_from_le_bytes(vstd::slice::slice_subrange(entry, 1, LEAF_HEADER_LEN));
            Ok(Some(count))
        } else if tag == TAG_POINTERS {
            Ok(None)
        } else {
            Err(AppError::InternalError("empty shard entry".to_string()))
        }
    }

    /// The stored form of a pointer node.
    pub fn encode_pointers(regions: &[FlexId]) -> (out: Vec<u8>)
        ensures
            out@ == spec_pointers_bytes(regions@),
    {
        let mut out: Vec<u8> = Vec::new();
        out.push(TAG_POINTERS);
        let mut i: usize = 0;
        while i < regions.len()
            invariant
                i <= regions@.len(),
                out@ == seq![TAG_POINTERS] + spec_regions_bytes(regions@.subrange(0, i as int)),
            decreases regions@.len() - i,
        {
            let enc = regions[i].encode();
            append_bytes(&mut out, enc.as_slice());
            proof {
                let s = regions@.subrange(0, i + 1);
                assert(s.drop_last() =~= regions@.subrange(0, i as int));
            }
            i += 1;
            assert(out@ =~= seq![TAG_POINTERS] + spec_regions_bytes(regions@.subrange(0, i as int)));
        }
        assert(regions@.subrange(0, regions@.len() as int) =~= regions@);
        out
    }

    /// The children of a pointer node; `None` for a leaf. Only the tag is looked at for
    /// a leaf, so its body is not copied.
    pub fn child_pointers(bytes: &[u8]) -> (r: Result<Option<Vec<FlexId>>, AppError>)
        ensures
            r is Ok <==> (bytes@.len() >= 1 && bytes@[0] == TAG_LEAF) || (bytes@.len() >= 1
                && bytes@[0] == TAG_POINTERS && (bytes@.len() - 1) % (FLEX_ID_LEN as int) == 0),
            r matches Ok(None) ==> bytes@[0] == TAG_LEAF,
            r matches Ok(Some(rs)) ==> bytes@[0] == TAG_POINTERS && chunks_are(
                bytes@.subrange(1, bytes@.len() as int),
                rs@,
            ),
            r matches Err(e) ==> e is InternalError,
    {
        if bytes.len() == 0 {
            return Err(AppError::InternalError("empty shard entry".to_string()));
        }
        let tag = bytes[0];
        if tag == TAG_LEAF {
            Ok(None)
        } else if tag == TAG_POINTERS {
            match Self::decode(bytes)? {
                ShardEntry::Pointers(children) => Ok(Some(children)),
                ShardEntry::Leaf(_) => Err(AppError::InternalError("tag is pointers".to_string())),
            }
        } else {
            Err(AppError::InternalError("empty shard entry".to_string()))
        }
    }

    /// The map bytes of a leaf, borrowed; `None` for a pointer node.
    pub fn leaf_payload(entry: &[u8]) -> (r: Result<Option<&[u8]>, AppError>)
        ensures
            r is Ok <==> (entry@.len() >= LEAF_HEADER_LEN && entry@[0] == TAG_LEAF) || (
            entry@.len() >= 1 && entry@[0] == TAG_POINTERS),
            r matches Ok(Some(p)) ==> spec_decodes_to_leaf(entry@, p@),
            r matches Ok(None) ==> entry@[0] == TAG_POINTERS,
            r matches Err(e) ==> e is InternalError,
    {
        if entry.len() == 0 {
            return Err(AppError::InternalError("empty shard entry".to_string()));
        }
        let tag = entry[0];
        if tag == TAG_LEAF {
            if entry.len() < LEAF_HEADER_LEN {
                return Err(AppError::InternalError("truncated leaf entry".to_string()));
            }
            Ok(Some(vstd::slice::slice_subrange(entry, LEAF_HEADER_LEN, entry.len())))
        } else if tag == TAG_POINTERS {
            Ok(None)
        } else {
            Err(AppError::InternalError("empty shard entry".to_string()))
        }
    }
}

/// A stored leaf reads back as that leaf: its payload is the map bytes and its header
/// count is the count it was written with.
pub proof fn lemma_leaf_round_trip(count: u32, map_bytes: Seq<u8>)
    ensures
        spec_decodes_to_leaf(spec_leaf_bytes(count, map_bytes), map_bytes),
        spec_u32_from_le_bytes(spec_leaf_bytes(count, map_bytes).subrange(1, 5)) == count,
        is_valid_entry(spec_leaf_bytes(count, map_bytes)),
{
    vstd::bytes::lemma_auto_spec_u32_to_from_le_bytes();
    let b = spec_leaf_bytes(count, map_bytes);
    assert(b.subrange(5, b.len() as int) =~= map_bytes);
    assert(b.subrange(1, 5) =~= spec_u32_to_le_bytes(count));
}

/// A stored pointer node reads back as the same list of children, and as no other.
pub proof fn lemma_pointers_round_trip(regions: Seq<FlexId>, decoded: Seq<FlexId>)
    ensures
        is_valid_entry(spec_pointers_bytes(regions)),
        chunks_are(spec_pointers_bytes(regions).subrange(1, spec_pointers_bytes(regions).len() as int), regions),
        chunks_are(spec_pointers_bytes(regions).subrange(1, spec_pointers_bytes(regions).len() as int), decoded)
            ==> decoded == regions,
{
    let b = spec_pointers_bytes(regions);
    lemma_regions_bytes(regions);
    assert(b.subrange(1, b.len() as int) =~= spec_regions_bytes(regions));
    assert((b.len() - 1) % 14 == 0) by (nonlinear_arith)
        requires
            b.len() - 1 == regions.len() * 14,
    ;
    if chunks_are(b.subrange(1, b.len() as int), decoded) {
        lemma_chunks_determine(b.subrange(1, b.len() as int), regions, decoded);
    }
}

} // verus!
