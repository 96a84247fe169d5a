//! Gathering the answer of a read: regions grouped by the value they hold.
//!
//! A read resolves leaves in parts (possibly on several threads), each giving its own
//! groups; a region belongs to one leaf only, so the parts are disjoint and their
//! groups are joined value by value.

use vstd::prelude::*;

use crate::keymap::KeyMap;
use crate::models::FlexId;

verus! {

/// The groups `gathered` after adding the groups of `part`, in order: each value's
/// regions follow those already gathered for it.
pub open spec fn spec_gather(
    gathered: Map<Seq<u8>, Seq<FlexId>>,
    part: Seq<(Seq<u8>, Seq<FlexId>)>,
) -> Map<Seq<u8>, Seq<FlexId>>
    decreases part.len(),
{
    if part.len() == 0 {
        gathered
    } else {
        let before = spec_gather(gathered, part.drop_last());
        let (value, regions) = part.last();
        let known = if before.contains_key(value) {
            before[value]
        } else {
            Seq::empty()
        };
        before.insert(value, known + regions)
    }
}

/// A group by its contents.
pub open spec fn group_view(g: (Vec<u8>, Vec<FlexId>)) -> (Seq<u8>, Seq<FlexId>) {
    (g.0@, g.1@)
}

/// Adds the groups of one part of a read to those gathered so far.
pub fn gather(gathered: &mut KeyMap<Vec<FlexId>>, part: Vec<(Vec<u8>, Vec<FlexId>)>)
    ensures
        final(gathered)@ == spec_gather(old(gathered)@, part@.map_values(|g: (Vec<u8>, Vec<FlexId>)| group_view(g))),
{
    let ghost start = gathered@;
    let ghost all = part@.map_values(|g: (Vec<u8>, Vec<FlexId>)| group_view(g));
    let mut i: usize = 0;
    while i < part.len()
        invariant
            i <= part@.len(),
            all == part@.map_values(|g: (Vec<u8>, Vec<FlexId>)| group_view(g)),
            gathered@ == spec_gather(start, all.subrange(0, i as int)),
        decreases part@.len() - i,
    {
        let ghost before = gathered@;
        assert(all.subrange(0, i + 1).drop_last() =~= all.subrange(0, i as int));
        assert(all.subrange(0, i + 1).last() == group_view(part@[i as int]));
        let value = &part[i].0;
        let mut joined: Vec<FlexId> = Vec::new();
        match gathered.get(value.as_slice()) {
            Some(known) => {
                let mut j: usize = 0;
                while j < known.len()
                    invariant
                        j <= known@.len(),
                        joined@ == known@.subrange(0, j as int),
                    decreases known@.len() - j,
                {
                    joined.push(known[j]);
                    j += 1;
                }
                assert(known@.subrange(0, known@.len() as int) =~= known@);
            },
            None => {},
        }
        let regions = &part[i].1;
        let ghost base = joined@;
        let mut j: usize = 0;
        while j < regions.len()
            invariant
                j <= regions@.len(),
                joined@ == base + regions@.subrange(0, j as int),
            decreases regions@.len() - j,
        {
            joined.push(regions[j]);
            j += 1;
            assert(joined@ =~= base + regions@.subrange(0, j as int));
        }
        assert(regions@.subrange(0, regions@.len() as int) =~= regions@);
        let key = crate::tikv::staging::clone_bytes(value);
        gathered.insert(key, joined);
        proof {
            let known = if before.contains_key(value@) {
                before[value@]
            } else {
                Seq::<FlexId>::empty()
            };
            assert(base == known);
        }
        i += 1;
    }
    assert(all.subrange(0, part@.len() as int) =~= all);
}

} // verus!
