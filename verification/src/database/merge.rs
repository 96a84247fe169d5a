//! Whether the children of a pointer node of the single-node store are folded back
//! into one leaf after deletions shrank them.
//!
//! Children are walked in order; a region with no node is skipped. They are merged
//! only when each present child is a leaf and, together, their region counts stay
//! within the merge threshold and their stored bytes within the largest shard size:
//! counting regions alone could merge a few large leaves into an oversized one.

use vstd::prelude::*;

use crate::encoding::shard_entry::{ShardEntry, MERGE_FLEX_ID_THRESHOLD, TAG_LEAF};
use crate::models::AppError;
use crate::tikv::merge::{count_readable, header_count};

verus! {

/// Walks the stored children in order from `count` regions and `bytes` bytes:
/// `Some(true)` when all are leaves within both limits, `Some(false)` at the first
/// pointer node or the first total past a limit, `None` at the first node whose count
/// cannot be read.
pub open spec fn scan_leaves(children: Seq<Option<Seq<u8>>>, count: nat, bytes: nat, max_bytes: nat) -> Option<bool>
    decreases children.len(),
{
    if children.len() == 0 {
        Some(true)
    } else {
        match children[0] {
            None => scan_leaves(children.drop_first(), count, bytes, max_bytes),
            Some(entry) => if !count_readable(entry) {
                None
            } else if entry[0] == TAG_LEAF {
                if count + header_count(entry) > MERGE_FLEX_ID_THRESHOLD || bytes + entry.len() > max_bytes {
                    Some(false)
                } else {
                    scan_leaves(children.drop_first(), count + header_count(entry), bytes + entry.len(), max_bytes)
                }
            } else {
                Some(false)
            },
        }
    }
}

/// The stored children by their bytes.
pub open spec fn stored_views(children: Seq<Option<Vec<u8>>>) -> Seq<Option<Seq<u8>>> {
    children.map_values(
        |c: Option<Vec<u8>>|
            match c {
                Some(v) => Some(v@),
                None => None,
            },
    )
}

/// Whether the children (their stored bytes, `None` where a region has no node) are
/// merged, as [`scan_leaves`] says from nothing counted; `max_bytes` is the largest
/// shard size. A node whose count cannot be read is an internal error.
pub fn children_mergeable(children: &Vec<Option<Vec<u8>>>, max_bytes: usize) -> (r: Result<bool, AppError>)
    ensures
        match scan_leaves(stored_views(children@), 0, 0, max_bytes as nat) {
            None => r matches Err(AppError::InternalError(_)),
            Some(b) => r == Ok::<bool, AppError>(b),
        },
{
    let ghost all = stored_views(children@);
    let mut count: u64 = 0;
    let mut bytes: u128 = 0;
    let mut i: usize = 0;
    assert(all.subrange(0, all.len() as int) =~= all);
    while i < children.len()
        invariant
            i <= children@.len(),
            all == stored_views(children@),
            count <= MERGE_FLEX_ID_THRESHOLD,
            bytes <= max_bytes,
            scan_leaves(all, 0, 0, max_bytes as nat) == scan_leaves(
                all.subrange(i as int, all.len() as int),
                count as nat,
                bytes as nat,
                max_bytes as nat,
            ),
        decreases children@.len() - i,
    {
        let ghost rest = all.subrange(i as int, all.len() as int);
        assert(rest.drop_first() =~= all.subrange(i + 1, all.len() as int));
        assert(rest[0] == all[i as int]);
        match &children[i] {
            Some(entry) => {
                match ShardEntry::leaf_count(entry.as_slice()) {
                    Err(e) => {
                        return Err(e);
                    },
                    Ok(Some(c)) => {
                        let total = count + c as u64;
                        let total_bytes = bytes + entry.len() as u128;
                        if total > MERGE_FLEX_ID_THRESHOLD as u64 || total_bytes > max_bytes as u128 {
                            return Ok(false);
                        }
                        count = total;
                        bytes = total_bytes;
                    },
                    Ok(None) => {
                        return Ok(false);
                    },
                }
            },
            None => {},
        }
        i += 1;
    }
    Ok(true)
}

} // verus!
