//! Whether the children of a pointer node are folded back into one leaf after
//! deletions shrank them.
//!
//! The parent and all its children are locked first, and what the lock read decides:
//! a parent that is no longer a pointer node, or whose children changed since the tree
//! was descended, means the attempt read a stale tree. The children are merged only
//! when every child present is a leaf and their counts together stay within the merge
//! threshold; otherwise the level is settled and not looked at again.

use vstd::prelude::*;
use vstd::bytes::spec_u32_from_le_bytes;

use super::batch::region_views;
use super::kv::ShardValue;
use crate::encoding::shard_entry::{chunks_are, ShardEntry, MERGE_FLEX_ID_THRESHOLD, TAG_LEAF, TAG_POINTERS, LEAF_HEADER_LEN};
use crate::keymap::{keys_equal, KeyMap};
use crate::models::{AppError, FlexId, FLEX_ID_LEN};

verus! {

/// What locking a region read: `Some(Some(entry))` for a stored node, `Some(None)` for
/// a region with no node, `None` for a region that was not locked. The first lock of
/// the region counts.
pub open spec fn find_locked(locked: Seq<(FlexId, Option<ShardValue>)>, r: FlexId) -> Option<Option<Seq<u8>>>
    decreases locked.len(),
{
    if locked.len() == 0 {
        None
    } else if locked[0].0@ == r@ {
        Some(
            match locked[0].1 {
                Some(v) => Some(v.spec_entry()),
                None => None,
            },
        )
    } else {
        find_locked(locked.drop_first(), r)
    }
}

/// A node whose leaf count can be read: a leaf with its header, or a pointer node.
pub open spec fn count_readable(entry: Seq<u8>) -> bool {
    (entry.len() >= LEAF_HEADER_LEN && entry[0] == TAG_LEAF) || (entry.len() >= 1 && entry[0] == TAG_POINTERS)
}

/// The count in a leaf's header.
pub open spec fn header_count(entry: Seq<u8>) -> nat {
    spec_u32_from_le_bytes(entry.subrange(1, 5)) as nat
}

/// Walks the children in order, adding the counts of those present to `acc`:
/// `Some(true)` when all are leaves within the threshold, `Some(false)` at the first
/// pointer child or the first count past the threshold, `None` at the first node
/// whose count cannot be read.
pub open spec fn scan_children(
    children: Seq<FlexId>,
    locked: Seq<(FlexId, Option<ShardValue>)>,
    acc: nat,
) -> Option<bool>
    decreases children.len(),
{
    if children.len() == 0 {
        Some(true)
    } else {
        match find_locked(locked, children[0]) {
            Some(Some(entry)) => if !count_readable(entry) {
                None
            } else if entry[0] == TAG_LEAF {
                if acc + header_count(entry) > MERGE_FLEX_ID_THRESHOLD {
                    Some(false)
                } else {
                    scan_children(children.drop_first(), locked, acc + header_count(entry))
                }
            } else {
                Some(false)
            },
            _ => scan_children(children.drop_first(), locked, acc),
        }
    }
}

/// The regions the leaves of `children` hold together.
pub open spec fn leaf_total(children: Seq<FlexId>, locked: Seq<(FlexId, Option<ShardValue>)>) -> nat
    decreases children.len(),
{
    if children.len() == 0 {
        0
    } else {
        leaf_total(children.drop_first(), locked) + match find_locked(locked, children[0]) {
            Some(Some(entry)) => if count_readable(entry) && entry[0] == TAG_LEAF {
                header_count(entry)
            } else {
                0
            },
            _ => 0,
        }
    }
}

/// What to do with the level above a shrunk leaf.
pub enum MergeDecision {
    /// The tree changed since it was read; the attempt must restart.
    Stale,
    /// Leave these children as they are; the level needs no further look.
    Settle(Vec<FlexId>),
    /// Fold these children into their parent.
    Merge(Vec<FlexId>),
}

/// What locking a region read, as [`find_locked`] says.
fn locked_entry<'a>(locked: &'a Vec<(FlexId, Option<ShardValue>)>, r: &FlexId) -> (e: Option<Option<&'a [u8]>>)
    ensures
        match find_locked(locked@, *r) {
            None => e is None,
            Some(None) => e == Some(None::<&[u8]>),
            Some(Some(bytes)) => e is Some && e->0 is Some && e->0->0@ == bytes,
        },
{
    let mut i: usize = 0;
    assert(locked@.subrange(0, locked@.len() as int) =~= locked@);
    while i < locked.len()
        invariant
            i <= locked@.len(),
            find_locked(locked@, *r) == find_locked(locked@.subrange(i as int, locked@.len() as int), *r),
        decreases locked@.len() - i,
    {
        let ghost rest = locked@.subrange(i as int, locked@.len() as int);
        assert(rest.drop_first() =~= locked@.subrange(i + 1, locked@.len() as int));
        assert(rest[0] == locked@[i as int]);
        if keys_equal(locked[i].0.0.as_slice(), r.0.as_slice()) {
            return match &locked[i].1 {
                Some(v) => Some(Some(v.entry())),
                None => Some(None),
            };
        }
        i += 1;
    }
    None
}

/// Whether two region lists are the same.
fn same_regions(a: &Vec<FlexId>, b: &Vec<FlexId>) -> (eq: bool)
    ensures
        eq == (region_views(a@) == region_views(b@)),
{
    if a.len() != b.len() {
        assert(region_views(a@).len() != region_views(b@).len());
        return false;
    }
    let mut i: usize = 0;
    while i < a.len()
        invariant
            i <= a@.len(),
            a@.len() == b@.len(),
            forall|j: int| 0 <= j < i ==> #[trigger] a@[j]@ == b@[j]@,
        decreases a@.len() - i,
    {
        if !keys_equal(a[i].0.as_slice(), b[i].0.as_slice()) {
            assert(region_views(a@)[i as int] != region_views(b@)[i as int]);
            return false;
        }
        i += 1;
    }
    assert(region_views(a@) =~= region_views(b@));
    true
}

/// Walks the children as [`scan_children`] says.
fn children_mergeable(children: &Vec<FlexId>, locked: &Vec<(FlexId, Option<ShardValue>)>) -> (r: Result<bool, AppError>)
    ensures
        match scan_children(children@, locked@, 0) {
            None => r is Err && r->Err_0 is InternalError,
            Some(b) => r == Ok::<bool, AppError>(b),
        },
{
    let mut combined: u64 = 0;
    let mut i: usize = 0;
    assert(children@.subrange(0, children@.len() as int) =~= children@);
    while i < children.len()
        invariant
            i <= children@.len(),
            combined <= MERGE_FLEX_ID_THRESHOLD,
            scan_children(children@, locked@, 0) == scan_children(
                children@.subrange(i as int, children@.len() as int),
                locked@,
                combined as nat,
            ),
        decreases children@.len() - i,
    {
        let ghost rest = children@.subrange(i as int, children@.len() as int);
        assert(rest.drop_first() =~= children@.subrange(i + 1, children@.len() as int));
        assert(rest[0] == children@[i as int]);
        match locked_entry(locked, &children[i]) {
            Some(Some(entry)) => {
                match ShardEntry::leaf_count(entry) {
                    Err(e) => {
                        return Err(e);
                    },
                    Ok(Some(count)) => {
                        let total = combined + count as u64;
                        if total > MERGE_FLEX_ID_THRESHOLD as u64 {
                            return Ok(false);
                        }
                        combined = total;
                    },
                    Ok(None) => {
                        return Ok(false);
                    },
                }
            },
            _ => {},
        }
        i += 1;
    }
    Ok(true)
}

/// The children a pointer node's bytes name.
pub open spec fn decoded_children(pb: Seq<u8>) -> Seq<FlexId> {
    choose|cs: Seq<FlexId>| chunks_are(pb.subrange(1, pb.len() as int), cs)
}

/// Whether a stored node's children can be read: a leaf, or a pointer node whose body
/// is whole regions.
pub open spec fn children_readable(pb: Seq<u8>) -> bool {
    pb.len() >= 1 && (pb[0] == TAG_LEAF || (pb[0] == TAG_POINTERS && (pb.len() - 1) % (FLEX_ID_LEN as int) == 0))
}

/// Decides the level above a shrunk leaf from what locking the parent (`parent`) and
/// its children read. `descended` are the children the tree had when it was
/// descended. A stored node that cannot be read is an internal error.
pub fn merge_decision(parent: &FlexId, descended: &Vec<FlexId>, locked: &Vec<(FlexId, Option<ShardValue>)>) -> (r: Result<
    MergeDecision,
    AppError,
>)
    ensures
        match find_locked(locked@, *parent) {
            Some(Some(pb)) => if !children_readable(pb) {
                r is Err && r->Err_0 is InternalError
            } else if pb[0] == TAG_LEAF || region_views(decoded_children(pb)) != region_views(descended@) {
                r matches Ok(MergeDecision::Stale)
            } else {
                match scan_children(decoded_children(pb), locked@, 0) {
                    None => r is Err && r->Err_0 is InternalError,
                    Some(false) => r matches Ok(MergeDecision::Settle(cs)) && cs@ == decoded_children(pb),
                    Some(true) => r matches Ok(MergeDecision::Merge(cs)) && cs@ == decoded_children(pb),
                }
            },
            _ => r matches Ok(MergeDecision::Stale),
        },
{
    let children = match locked_entry(locked, parent) {
        Some(Some(entry)) => match ShardEntry::child_pointers(entry) {
            Err(e) => {
                return Err(e);
            },
            Ok(Some(children)) => {
                proof {
                    let body = entry@.subrange(1, entry@.len() as int);
                    assert(chunks_are(body, children@));
                    let cs = decoded_children(entry@);
                    assert(chunks_are(body, cs));
                    crate::encoding::shard_entry::lemma_chunks_determine(body, cs, children@);
                }
                if same_regions(&children, descended) {
                    children
                } else {
                    return Ok(MergeDecision::Stale);
                }
            },
            Ok(None) => {
                return Ok(MergeDecision::Stale);
            },
        },
        _ => {
            return Ok(MergeDecision::Stale);
        },
    };
    match children_mergeable(&children, locked) {
        Err(e) => Err(e),
        Ok(true) => Ok(MergeDecision::Merge(children)),
        Ok(false) => Ok(MergeDecision::Settle(children)),
    }
}

/// Where the walk up from a shrunk leaf goes after a level was decided.
pub enum WalkNext {
    /// The tree changed since it was read; the attempt must restart.
    Restart,
    /// The walk ends here.
    Stop,
    /// Look at the level above, that of this parent.
    Up(FlexId),
}

/// The walk up the tree from the leaves a deletion shrank. Siblings walk up through the
/// same parents, and the answer for a level does not change within one write, so each
/// decided level's children are remembered as settled and not looked at again.
pub struct MergeWalk {
    settled: KeyMap<()>,
}

impl MergeWalk {
    /// The regions whose level is decided.
    pub closed spec fn settled(self) -> Set<Seq<u8>> {
        self.settled@.dom()
    }

    pub fn new() -> (w: MergeWalk)
        ensures
            w.settled() == Set::<Seq<u8>>::empty(),
    {
        let settled: KeyMap<()> = KeyMap::new();
        assert(settled@.dom() =~= Set::<Seq<u8>>::empty());
        MergeWalk { settled }
    }

    /// Whether the level of `region` is still to be looked at.
    pub fn visits(&self, region: &FlexId) -> (b: bool)
        ensures
            b == !self.settled().contains(region@),
    {
        self.settled.get(region.0.as_slice()).is_none()
    }

    /// Records the decision for the level whose parent is `parent`: a stale tree
    /// restarts the attempt; settled children end the walk; merged children send it up
    /// to the parent's own level. Either way the children are settled.
    pub fn after_level(&mut self, parent: FlexId, decision: MergeDecision) -> (next: WalkNext)
        ensures
            match decision {
                MergeDecision::Stale => next is Restart && final(self).settled() == old(self).settled(),
                MergeDecision::Settle(cs) => next is Stop && final(self).settled() == old(self).settled().union(
                    region_views(cs@).to_set(),
                ),
                MergeDecision::Merge(cs) => next matches WalkNext::Up(p) && p == parent
                    && final(self).settled() == old(self).settled().union(region_views(cs@).to_set()),
            },
    {
        match decision {
            MergeDecision::Stale => WalkNext::Restart,
            MergeDecision::Settle(cs) => {
                self.settle(&cs);
                WalkNext::Stop
            },
            MergeDecision::Merge(cs) => {
                self.settle(&cs);
                WalkNext::Up(parent)
            },
        }
    }

    fn settle(&mut self, children: &Vec<FlexId>)
        ensures
            final(self).settled() == old(self).settled().union(region_views(children@).to_set()),
    {
        let ghost before = self.settled();
        let mut i: usize = 0;
        while i < children.len()
            invariant
                i <= children@.len(),
                self.settled() == before.union(region_views(children@.subrange(0, i as int)).to_set()),
            decreases children@.len() - i,
        {
            let key = vstd::slice::slice_to_vec(children[i].0.as_slice());
            self.settled.insert(key, ());
            proof {
                let prev = region_views(children@.subrange(0, i as int));
                let next = region_views(children@.subrange(0, i + 1));
                assert(next =~= prev.push(children@[i as int]@));
                prev.lemma_push_to_set_commute(children@[i as int]@);
                assert(self.settled() =~= before.union(next.to_set()));
            }
            i += 1;
        }
        assert(children@.subrange(0, children@.len() as int) =~= children@);
    }
}

/// Children are merged only when the leaf they make holds no more regions than the
/// merge threshold: when the walk says they are mergeable, the counts of their leaves
/// add up to at most the threshold.
pub proof fn lemma_merge_stays_within_threshold(
    children: Seq<FlexId>,
    locked: Seq<(FlexId, Option<ShardValue>)>,
    acc: nat,
)
    requires
        scan_children(children, locked, acc) == Some(true),
        acc <= MERGE_FLEX_ID_THRESHOLD,
    ensures
        acc + leaf_total(children, locked) <= MERGE_FLEX_ID_THRESHOLD,
    decreases children.len(),
{
    if children.len() > 0 {
        match find_locked(locked, children[0]) {
            Some(Some(entry)) => {
                lemma_merge_stays_within_threshold(children.drop_first(), locked, acc + header_count(entry));
            },
            _ => {
                lemma_merge_stays_within_threshold(children.drop_first(), locked, acc);
            },
        }
    }
}

} // verus!
