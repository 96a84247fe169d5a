//! The pieces of the distributed backend's reads and writes that are pure: cutting
//! requests into batches, summing shard counts, the changes to the value index, and
//! the order in which shards are locked.

use vstd::prelude::*;

use super::keys::{shard, spec_region_key, Ns};
use super::kv::{mutation_view, Mutation, ShardValue};
use super::staging::{byte_views, clone_bytes, StagedWrites};
use crate::keymap::{keys_equal, keys_of, map_of, strictly_ascending, KeyMap};
use crate::models::{AppError, FlexId, Stored, TableId};

verus! {

/// Rows asked for in one scan request; the store caps what one request may carry.
pub const SCAN_BATCH: u32 = 512;

/// Keys carried by one request for small values (catalog and access rows).
pub const BATCH_KEYS: usize = 1024;

/// All the batches, one after the other.
pub open spec fn concat_all<T>(bs: Seq<Vec<T>>) -> Seq<T>
    decreases bs.len(),
{
    if bs.len() == 0 {
        Seq::empty()
    } else {
        concat_all(bs.drop_last()) + bs.last()@
    }
}

/// Cuts `items` into batches of `size`, in order; only the last batch may be shorter.
/// Cutting keeps the order, so ascending keys stay ascending across requests. Staged
/// changes are sent and shard keys locked this way, one request per batch.
pub fn chunks<T>(items: Vec<T>, size: usize) -> (bs: Vec<Vec<T>>)
    requires
        size > 0,
    ensures
        concat_all(bs@) == items@,
        forall|i: int| 0 <= i < bs@.len() ==> 0 < #[trigger] bs@[i]@.len() <= size,
        forall|i: int| 0 <= i < bs@.len() - 1 ==> #[trigger] bs@[i]@.len() == size,
{
    let ghost all = items@;
    let mut out: Vec<Vec<T>> = Vec::new();
    let mut rest = items;
    while rest.len() > 0
        invariant
            size > 0,
            all == items@,
            concat_all(out@) + rest@ == all,
            forall|i: int| 0 <= i < out@.len() ==> #[trigger] out@[i]@.len() == size,
        decreases rest@.len(),
    {
        let at = if rest.len() < size {
            rest.len()
        } else {
            size
        };
        let ghost before = out@;
        let ghost whole = rest@;
        let tail = rest.split_off(at);
        if at < size {
            proof {
                assert(tail@.len() == 0);
            }
            out.push(rest);
            rest = tail;
            proof {
                assert(out@.drop_last() =~= before);
                assert(concat_all(out@) + rest@ =~= concat_all(before) + whole);
            }
            assert(rest@.len() == 0);
            proof {
                assert(concat_all(out@) =~= all);
                assert forall|i: int| 0 <= i < out@.len() implies 0 < #[trigger] out@[i]@.len() <= size by {
                    if i < out@.len() - 1 {
                        assert(out@[i] == before[i]);
                    }
                }
            }
            return out;
        }
        out.push(rest);
        rest = tail;
        proof {
            assert(out@.drop_last() =~= before);
            assert(concat_all(out@) + rest@ =~= concat_all(before) + whole);
            assert forall|i: int| 0 <= i < out@.len() implies #[trigger] out@[i]@.len() == size by {
                if i < out@.len() - 1 {
                    assert(out@[i] == before[i]);
                }
            }
        }
    }
    assert(concat_all(out@) =~= all);
    out
}

/// The staged changes of a transaction as the requests that send them before its
/// commit: in ascending key order, at most [`BATCH_KEYS`] per request.
pub fn flush_batches(staged: StagedWrites) -> (bs: Vec<Vec<Mutation>>)
    ensures
        forall|i: int| 0 <= i < bs@.len() ==> 0 < #[trigger] bs@[i]@.len() <= BATCH_KEYS,
        strictly_ascending(concat_all(bs@).map_values(|m: Mutation| mutation_view(m).0)),
        forall|i: int| 0 <= i < concat_all(bs@).len() ==> staged@.contains_key(
            #[trigger] mutation_view(concat_all(bs@)[i]).0,
        ) && staged@[mutation_view(concat_all(bs@)[i]).0] == mutation_view(concat_all(bs@)[i]).1,
        forall|k: Seq<u8>| staged@.contains_key(k) ==> exists|i: int|
            0 <= i < concat_all(bs@).len() && #[trigger] mutation_view(concat_all(bs@)[i]).0 == k,
{
    let ms = staged.into_mutations();
    chunks(ms, BATCH_KEYS)
}

/// The sum of the shard counts of a table, each four little-endian bytes.
pub open spec fn counts_sum(values: Seq<Seq<u8>>) -> int
    decreases values.len(),
{
    if values.len() == 0 {
        0
    } else {
        counts_sum(values.drop_last()) + vstd::bytes::spec_u32_from_le_bytes(values.last()) as int
    }
}

pub open spec fn all_four_bytes(values: Seq<Seq<u8>>) -> bool {
    forall|i: int| 0 <= i < values.len() ==> (#[trigger] values[i]).len() == 4
}

proof fn lemma_counts_sum_bound(values: Seq<Seq<u8>>)
    ensures
        0 <= counts_sum(values) <= values.len() * (u32::MAX as int),
    decreases values.len(),
{
    if values.len() > 0 {
        lemma_counts_sum_bound(values.drop_last());
    }
}

/// The number of regions a table stores: the sum of its shard counts (each count is
/// four little-endian bytes; one of another length is corruption).
pub fn table_flex_id_count(entries: &Vec<(Vec<u8>, Vec<u8>)>) -> (r: Result<u64, AppError>)
    requires
        entries@.len() <= u32::MAX,
    ensures
        r is Ok <==> all_four_bytes(entries@.map_values(|e: (Vec<u8>, Vec<u8>)| e.1@)),
        r matches Ok(n) ==> n == counts_sum(entries@.map_values(|e: (Vec<u8>, Vec<u8>)| e.1@)),
        r matches Err(e) ==> e matches AppError::Corrupt { what: Stored::Shard, .. },
{
    let ghost vs = entries@.map_values(|e: (Vec<u8>, Vec<u8>)| e.1@);
    let mut total: u64 = 0;
    let mut i: usize = 0;
    while i < entries.len()
        invariant
            i <= entries@.len(),
            entries@.len() <= u32::MAX,
            vs == entries@.map_values(|e: (Vec<u8>, Vec<u8>)| e.1@),
            all_four_bytes(vs.subrange(0, i as int)),
            total == counts_sum(vs.subrange(0, i as int)),
        decreases entries@.len() - i,
    {
        let value = &entries[i].1;
        proof {
            assert(vs.subrange(0, i + 1).drop_last() =~= vs.subrange(0, i as int));
        }
        if value.len() != 4 {
            assert(vs[i as int].len() != 4);
            return Err(AppError::corrupt(Stored::Shard, "count entry is not four bytes"));
        }
        let count = vstd::bytes::u32_from_le_bytes(value.as_slice());
        proof {
            lemma_counts_sum_bound(vs.subrange(0, i + 1));
            assert((i + 1) * (u32::MAX as int) <= (u32::MAX as int + 1) * (u32::MAX as int)) by (nonlinear_arith)
                requires
                    i + 1 <= u32::MAX + 1,
            ;
        }
        total = total + count as u64;
        i += 1;
    }
    assert(vs.subrange(0, entries@.len() as int) =~= vs);
    Ok(total)
}

/// Whether `key` is among `keys`.
fn contains_key(keys: &Vec<Vec<u8>>, key: &[u8]) -> (b: bool)
    ensures
        b == byte_views(keys@).contains(key@),
{
    let mut i: usize = 0;
    while i < keys.len()
        invariant
            i <= keys@.len(),
            forall|j: int| 0 <= j < i ==> #[trigger] keys@[j]@ != key@,
        decreases keys@.len() - i,
    {
        if keys_equal(keys[i].as_slice(), key) {
            assert(byte_views(keys@)[i as int] == key@);
            return true;
        }
        i += 1;
    }
    proof {
        if byte_views(keys@).contains(key@) {
            let j = choose|j: int| 0 <= j < byte_views(keys@).len() && byte_views(keys@)[j] == key@;
            assert(keys@[j]@ == key@);
        }
    }
    false
}

/// The keys of `a` that are not in `b`, in the order of `a`.
pub open spec fn keys_minus(a: Seq<Seq<u8>>, b: Seq<Seq<u8>>) -> Seq<Seq<u8>>
    decreases a.len(),
{
    if a.len() == 0 {
        Seq::empty()
    } else {
        let rest = keys_minus(a.drop_last(), b);
        if b.contains(a.last()) {
            rest
        } else {
            rest.push(a.last())
        }
    }
}

/// The change of the value index when a region's index keys go from `old_keys` to
/// `new_keys`: keys only in the old set are deleted, keys only in the new set are put
/// (with no value); keys in both are not touched, since rewriting them would only add
/// versions.
pub fn value_index_mutations(old_keys: &Vec<Vec<u8>>, new_keys: &Vec<Vec<u8>>, out: &mut Vec<Mutation>)
    ensures
        final(out)@.map_values(|m: Mutation| mutation_view(m)) == old(out)@.map_values(|m: Mutation| mutation_view(m))
            + keys_minus(byte_views(old_keys@), byte_views(new_keys@)).map_values(
            |k: Seq<u8>| (k, None::<Seq<u8>>),
        ) + keys_minus(byte_views(new_keys@), byte_views(old_keys@)).map_values(
            |k: Seq<u8>| (k, Some(Seq::<u8>::empty())),
        ),
{
    let ghost start = out@.map_values(|m: Mutation| mutation_view(m));
    let ghost ov = byte_views(old_keys@);
    let ghost nv = byte_views(new_keys@);
    let mut i: usize = 0;
    while i < old_keys.len()
        invariant
            i <= old_keys@.len(),
            ov == byte_views(old_keys@),
            nv == byte_views(new_keys@),
            out@.map_values(|m: Mutation| mutation_view(m)) == start + keys_minus(ov.subrange(0, i as int), nv).map_values(
                |k: Seq<u8>| (k, None::<Seq<u8>>),
            ),
        decreases old_keys@.len() - i,
    {
        proof {
            assert(ov.subrange(0, i + 1).drop_last() =~= ov.subrange(0, i as int));
            assert(ov.subrange(0, i + 1).last() == old_keys@[i as int]@);
        }
        let ghost before = out@;
        let ghost prev = keys_minus(ov.subrange(0, i as int), nv);
        if !contains_key(new_keys, old_keys[i].as_slice()) {
            out.push(Mutation::Delete(clone_bytes(&old_keys[i])));
            proof {
                assert(out@.map_values(|m: Mutation| mutation_view(m)) =~= before.map_values(|m: Mutation| mutation_view(m)).push(
                    (old_keys@[i as int]@, None::<Seq<u8>>),
                ));
                assert(prev.push(old_keys@[i as int]@).map_values(|k: Seq<u8>| (k, None::<Seq<u8>>)) =~= prev.map_values(
                    |k: Seq<u8>| (k, None::<Seq<u8>>),
                ).push((old_keys@[i as int]@, None::<Seq<u8>>)));
            }
        }
        assert(out@.map_values(|m: Mutation| mutation_view(m)) =~= start + keys_minus(ov.subrange(0, i + 1), nv).map_values(
            |k: Seq<u8>| (k, None::<Seq<u8>>),
        ));
        i += 1;
    }
    assert(ov.subrange(0, old_keys@.len() as int) =~= ov);
    let ghost mid = out@.map_values(|m: Mutation| mutation_view(m));
    let mut j: usize = 0;
    while j < new_keys.len()
        invariant
            j <= new_keys@.len(),
            ov == byte_views(old_keys@),
            nv == byte_views(new_keys@),
            out@.map_values(|m: Mutation| mutation_view(m)) == mid + keys_minus(nv.subrange(0, j as int), ov).map_values(
                |k: Seq<u8>| (k, Some(Seq::<u8>::empty())),
            ),
        decreases new_keys@.len() - j,
    {
        proof {
            assert(nv.subrange(0, j + 1).drop_last() =~= nv.subrange(0, j as int));
            assert(nv.subrange(0, j + 1).last() == new_keys@[j as int]@);
        }
        let ghost before = out@;
        let ghost prev = keys_minus(nv.subrange(0, j as int), ov);
        if !contains_key(old_keys, new_keys[j].as_slice()) {
            let empty: Vec<u8> = Vec::new();
            assert(empty@ =~= Seq::<u8>::empty());
            out.push(Mutation::Put(clone_bytes(&new_keys[j]), empty));
            proof {
                assert(out@.map_values(|m: Mutation| mutation_view(m)) =~= before.map_values(|m: Mutation| mutation_view(m)).push(
                    (new_keys@[j as int]@, Some(Seq::<u8>::empty())),
                ));
                assert(prev.push(new_keys@[j as int]@).map_values(|k: Seq<u8>| (k, Some(Seq::<u8>::empty()))) =~= prev.map_values(
                    |k: Seq<u8>| (k, Some(Seq::<u8>::empty())),
                ).push((new_keys@[j as int]@, Some(Seq::<u8>::empty()))));
            }
        }
        assert(out@.map_values(|m: Mutation| mutation_view(m)) =~= mid + keys_minus(nv.subrange(0, j + 1), ov).map_values(
            |k: Seq<u8>| (k, Some(Seq::<u8>::empty())),
        ));
        j += 1;
    }
    assert(nv.subrange(0, new_keys@.len() as int) =~= nv);
}

/// The regions as byte strings.
pub open spec fn region_views(rs: Seq<FlexId>) -> Seq<Seq<u8>> {
    rs.map_values(|r: FlexId| r@)
}

/// The shard keys of the regions to lock, each once, in ascending key order (the order
/// in which they are locked, a total order, so lockers never wait on each other in a
/// cycle), with the region each key belongs to.
pub fn lock_plan(table_id: TableId, regions: &Vec<FlexId>) -> (plan: Vec<(Vec<u8>, FlexId)>)
    ensures
        strictly_ascending(keys_of(plan@)),
        forall|i: int| 0 <= i < plan@.len() ==> #[trigger] plan@[i].0@ == spec_region_key(Ns::TablesData, table_id, plan@[i].1),
        forall|i: int| 0 <= i < plan@.len() ==> region_views(regions@).contains(#[trigger] plan@[i].1@),
        forall|j: int| 0 <= j < regions@.len() ==> keys_of(plan@).contains(
            #[trigger] spec_region_key(Ns::TablesData, table_id, regions@[j]),
        ),
{
    let mut by_key: KeyMap<FlexId> = KeyMap::new();
    let mut i: usize = 0;
    while i < regions.len()
        invariant
            i <= regions@.len(),
            forall|k: Seq<u8>| #[trigger] by_key@.contains_key(k) ==> exists|j: int| 0 <= j < i && k == spec_region_key(Ns::TablesData, table_id, #[trigger] regions@[j]) && by_key@[k] == regions@[j]@,
            forall|j: int| 0 <= j < i ==> by_key@.contains_key(#[trigger] spec_region_key(Ns::TablesData, table_id, regions@[j])),
        decreases regions@.len() - i,
    {
        let key = shard(table_id, &regions[i]);
        let ghost before = by_key@;
        let ghost k_i = key@;
        by_key.insert(key, regions[i]);
        proof {
            assert forall|k: Seq<u8>| #[trigger] by_key@.contains_key(k) implies exists|j: int| 0 <= j < i + 1 && k
                == spec_region_key(Ns::TablesData, table_id, #[trigger] regions@[j]) && by_key@[k] == regions@[j]@ by {
                if k == k_i {
                    assert(k == spec_region_key(Ns::TablesData, table_id, regions@[i as int]));
                } else {
                    assert(before.contains_key(k));
                }
            }
            assert forall|j: int| 0 <= j < i + 1 implies by_key@.contains_key(
                #[trigger] spec_region_key(Ns::TablesData, table_id, regions@[j]),
            ) by {
                if j < i {
                    assert(before.contains_key(spec_region_key(Ns::TablesData, table_id, regions@[j])));
                }
            }
        }
        i += 1;
    }
    let ghost m0 = by_key@;
    let plan = by_key.into_entries();
    proof {
        assert(map_of(plan@) == m0);
        assert forall|a: int| 0 <= a < plan@.len() implies region_views(regions@).contains(#[trigger] plan@[a].1@) by {
            crate::keymap::lemma_map_of_at(plan@, a);
            let k = plan@[a].0@;
            assert(m0.contains_key(k));
            let j = choose|j: int| 0 <= j < regions@.len() && k == spec_region_key(Ns::TablesData, table_id, #[trigger] regions@[j])
                && m0[k] == regions@[j]@;
            assert(region_views(regions@)[j] == plan@[a].1@);
        }
        assert forall|a: int| 0 <= a < plan@.len() implies #[trigger] plan@[a].0@ == spec_region_key(Ns::TablesData, table_id, plan@[a].1) by {
            crate::keymap::lemma_map_of_at(plan@, a);
            let k = plan@[a].0@;
            assert(m0.contains_key(k));
            let j = choose|j: int| 0 <= j < regions@.len() && k == spec_region_key(Ns::TablesData, table_id, #[trigger] regions@[j])
                && m0[k] == regions@[j]@;
            assert(plan@[a].1@ == regions@[j]@);
        }
        assert forall|j: int| 0 <= j < regions@.len() implies keys_of(plan@).contains(
            #[trigger] spec_region_key(Ns::TablesData, table_id, regions@[j]),
        ) by {
            let k = spec_region_key(Ns::TablesData, table_id, regions@[j]);
            assert(m0.contains_key(k));
            assert(map_of(plan@).contains_key(k));
            let i = choose|i: int| 0 <= i < plan@.len() && #[trigger] plan@[i].0@ == k;
            assert(keys_of(plan@)[i] == k);
        }
    }
    plan
}

/// The locked shards by region: what the store returned under each planned key,
/// checked against its frame, or `None` for a region not created yet. A value that
/// fails its check is corruption.
pub fn locked_shards(plan: Vec<(Vec<u8>, FlexId)>, found: &KeyMap<Vec<u8>>) -> (r: Result<
    Vec<(FlexId, Option<ShardValue>)>,
    AppError,
>)
    ensures
        r matches Ok(out) ==> out@.len() == plan@.len() && forall|i: int| 0 <= i < out@.len() ==> {
            &&& (#[trigger] out@[i]).0 == plan@[i].1
            &&& (out@[i].1 is Some <==> found@.contains_key(plan@[i].0@))
            &&& out@[i].1 matches Some(v) ==> v.spec_entry() == found@[plan@[i].0@].subrange(4, found@[plan@[i].0@].len() as int)
        },
        r is Err ==> exists|i: int| 0 <= i < plan@.len() && found@.contains_key(#[trigger] plan@[i].0@)
            && !super::kv::frame_is_intact(found@[plan@[i].0@]),
{
    let mut out: Vec<(FlexId, Option<ShardValue>)> = Vec::new();
    let mut i: usize = 0;
    while i < plan.len()
        invariant
            i <= plan@.len(),
            out@.len() == i,
            forall|a: int| 0 <= a < i ==> {
                &&& (#[trigger] out@[a]).0 == plan@[a].1
                &&& (out@[a].1 is Some <==> found@.contains_key(plan@[a].0@))
                &&& out@[a].1 matches Some(v) ==> v.spec_entry() == found@[plan@[a].0@].subrange(4, found@[plan@[a].0@].len() as int)
            },
        decreases plan@.len() - i,
    {
        let value = match found.get(plan[i].0.as_slice()) {
            Some(framed) => match ShardValue::try_from_framed(clone_bytes(framed)) {
                Ok(v) => Some(v),
                Err(e) => {
                    return Err(e);
                },
            },
            None => None,
        };
        out.push((plan[i].1, value));
        i += 1;
    }
    Ok(out)
}

} // verus!
