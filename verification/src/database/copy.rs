//! Copying a table of the single-node store: which of the source table's rows the
//! copy gets, and under which keys.

use vstd::prelude::*;

use crate::bytes::append_bytes;
use crate::models::{TableId, FLEX_ID_LEN};
use crate::tikv::staging::clone_bytes;

verus! {

/// The length of a shard key: table identifier, then region.
pub const SHARD_KEY_LEN: usize = 16 + FLEX_ID_LEN;

/// `key` moved to the table `to`: its first 16 bytes (the table identifier) replaced.
pub open spec fn spec_retarget(key: Seq<u8>, to: Seq<u8>) -> Seq<u8> {
    to + key.subrange(16, key.len() as int)
}

/// A pair of byte strings by their contents.
pub open spec fn row_view(row: (Vec<u8>, Vec<u8>)) -> (Seq<u8>, Seq<u8>) {
    (row.0@, row.1@)
}

/// The data rows the copy gets: each shard row (a key of exactly [`SHARD_KEY_LEN`]
/// bytes; routing nodes and leaves alike) under the copy's identifier, with its value,
/// in the order scanned. Rows of another length are not shards and are skipped.
pub open spec fn spec_copied_shards(rows: Seq<(Seq<u8>, Seq<u8>)>, to: Seq<u8>) -> Seq<(Seq<u8>, Seq<u8>)>
    decreases rows.len(),
{
    if rows.len() == 0 {
        Seq::empty()
    } else {
        let before = spec_copied_shards(rows.drop_last(), to);
        let last = rows.last();
        if last.0.len() == SHARD_KEY_LEN {
            before.push((spec_retarget(last.0, to), last.1))
        } else {
            before
        }
    }
}

/// The value-index keys the copy gets: each key long enough to carry a table
/// identifier, under the copy's identifier, in the order scanned.
pub open spec fn spec_copied_index_keys(keys: Seq<Seq<u8>>, to: Seq<u8>) -> Seq<Seq<u8>>
    decreases keys.len(),
{
    if keys.len() == 0 {
        Seq::empty()
    } else {
        let before = spec_copied_index_keys(keys.drop_last(), to);
        let last = keys.last();
        if last.len() >= 16 {
            before.push(spec_retarget(last, to))
        } else {
            before
        }
    }
}

/// A copied key starts with the copy's identifier and ends as the source key did: it
/// has the source key's length and every byte after the first 16 unchanged.
pub proof fn lemma_retarget_moves_only_the_table(key: Seq<u8>, to: Seq<u8>)
    requires
        key.len() >= 16,
        to.len() == 16,
    ensures
        spec_retarget(key, to).len() == key.len(),
        spec_retarget(key, to).subrange(0, 16) == to,
        forall|j: int| 16 <= j < key.len() ==> #[trigger] spec_retarget(key, to)[j] == key[j],
{
    assert(spec_retarget(key, to).subrange(0, 16) =~= to);
}

/// The copy gets every value-index key of the source table, and nothing else: each
/// scanned key long enough to carry a table identifier (whatever its length beyond
/// that) is in the result under the copy's identifier, each key of the result is such
/// a key moved, and there are as many as there are such keys.
pub proof fn lemma_every_index_key_is_copied(keys: Seq<Seq<u8>>, to: Seq<u8>)
    ensures
        forall|i: int| 0 <= i < keys.len() && #[trigger] keys[i].len() >= 16 ==> spec_copied_index_keys(
            keys,
            to,
        ).contains(spec_retarget(keys[i], to)),
        forall|j: int| 0 <= j < spec_copied_index_keys(keys, to).len() ==> exists|i: int|
            0 <= i < keys.len() && keys[i].len() >= 16 && #[trigger] spec_copied_index_keys(keys, to)[j]
                == spec_retarget(keys[i], to),
        spec_copied_index_keys(keys, to).len() == keys.filter(|k: Seq<u8>| k.len() >= 16).len(),
    decreases keys.len(),
{
    reveal(Seq::filter);
    if keys.len() > 0 {
        let init = keys.drop_last();
        lemma_every_index_key_is_copied(init, to);
        let before = spec_copied_index_keys(init, to);
        let r = spec_copied_index_keys(keys, to);
        assert forall|i: int| 0 <= i < keys.len() && #[trigger] keys[i].len() >= 16 implies r.contains(
            spec_retarget(keys[i], to),
        ) by {
            if i < keys.len() - 1 {
                assert(init[i] == keys[i]);
                let j = choose|j: int| 0 <= j < before.len() && before[j] == spec_retarget(init[i], to);
                assert(r[j] == before[j]);
            } else {
                assert(r[r.len() - 1] == spec_retarget(keys[i], to));
            }
        }
        assert forall|j: int| 0 <= j < r.len() implies exists|i: int|
            0 <= i < keys.len() && keys[i].len() >= 16 && #[trigger] r[j] == spec_retarget(keys[i], to) by {
            if j < before.len() {
                assert(r[j] == before[j]);
                let i = choose|i: int|
                    0 <= i < init.len() && init[i].len() >= 16 && #[trigger] before[j] == spec_retarget(init[i], to);
                assert(keys[i] == init[i]);
            } else {
                assert(keys[keys.len() - 1] == keys.last());
            }
        }
    }
}

/// The copy gets every shard row of the source table, and nothing else: each scanned
/// row whose key has a shard key's length is in the result with its key moved and its
/// value kept, each row of the result is such a row, and there are as many as there
/// are such rows.
pub proof fn lemma_every_shard_row_is_copied(rows: Seq<(Seq<u8>, Seq<u8>)>, to: Seq<u8>)
    ensures
        forall|i: int| 0 <= i < rows.len() && #[trigger] rows[i].0.len() == SHARD_KEY_LEN ==> spec_copied_shards(
            rows,
            to,
        ).contains((spec_retarget(rows[i].0, to), rows[i].1)),
        spec_copied_shards(rows, to) == rows.filter(|r: (Seq<u8>, Seq<u8>)| r.0.len() == SHARD_KEY_LEN).map_values(
            |r: (Seq<u8>, Seq<u8>)| (spec_retarget(r.0, to), r.1),
        ),
    decreases rows.len(),
{
    reveal(Seq::filter);
    if rows.len() > 0 {
        let init = rows.drop_last();
        lemma_every_shard_row_is_copied(init, to);
        let before = spec_copied_shards(init, to);
        let r = spec_copied_shards(rows, to);
        assert forall|i: int| 0 <= i < rows.len() && #[trigger] rows[i].0.len() == SHARD_KEY_LEN implies r.contains(
            (spec_retarget(rows[i].0, to), rows[i].1),
        ) by {
            if i < rows.len() - 1 {
                assert(init[i] == rows[i]);
                let j = choose|j: int| 0 <= j < before.len() && before[j] == (spec_retarget(init[i].0, to), init[i].1);
                assert(r[j] == before[j]);
            } else {
                assert(r[r.len() - 1] == (spec_retarget(rows[i].0, to), rows[i].1));
            }
        }
        let p = |r: (Seq<u8>, Seq<u8>)| r.0.len() == SHARD_KEY_LEN;
        let f = |r: (Seq<u8>, Seq<u8>)| (spec_retarget(r.0, to), r.1);
        assert(rows.filter(p).map_values(f) =~= r);
    } else {
        assert(spec_copied_shards(rows, to) =~= rows.filter(|r: (Seq<u8>, Seq<u8>)| r.0.len() == SHARD_KEY_LEN).map_values(
            |r: (Seq<u8>, Seq<u8>)| (spec_retarget(r.0, to), r.1),
        ));
    }
}

/// `key` under the table `to`.
pub fn retarget_key(key: &[u8], to: &TableId) -> (k: Vec<u8>)
    requires
        key@.len() >= 16,
    ensures
        k@ == spec_retarget(key@, to@),
{
    let id = to.into_bytes();
    let mut k: Vec<u8> = Vec::new();
    append_bytes(&mut k, id.as_slice());
    append_bytes(&mut k, vstd::slice::slice_subrange(key, 16, key.len()));
    k
}

/// The data rows the copy of a table gets, from the rows scanned under the source
/// table's prefix.
pub fn copied_shard_rows(rows: &Vec<(Vec<u8>, Vec<u8>)>, to: &TableId) -> (r: Vec<(Vec<u8>, Vec<u8>)>)
    ensures
        r@.map_values(|e: (Vec<u8>, Vec<u8>)| row_view(e)) == spec_copied_shards(
            rows@.map_values(|e: (Vec<u8>, Vec<u8>)| row_view(e)),
            to@,
        ),
{
    let ghost all = rows@.map_values(|e: (Vec<u8>, Vec<u8>)| row_view(e));
    let mut out: Vec<(Vec<u8>, Vec<u8>)> = Vec::new();
    let mut i: usize = 0;
    while i < rows.len()
        invariant
            i <= rows@.len(),
            all == rows@.map_values(|e: (Vec<u8>, Vec<u8>)| row_view(e)),
            out@.map_values(|e: (Vec<u8>, Vec<u8>)| row_view(e)) == spec_copied_shards(all.subrange(0, i as int), to@),
        decreases rows@.len() - i,
    {
        let ghost prev = out@;
        assert(all.subrange(0, i + 1).drop_last() =~= all.subrange(0, i as int));
        assert(all.subrange(0, i + 1).last() == row_view(rows@[i as int]));
        if rows[i].0.len() == SHARD_KEY_LEN {
            let k = retarget_key(rows[i].0.as_slice(), to);
            let v = clone_bytes(&rows[i].1);
            out.push((k, v));
            assert(out@.map_values(|e: (Vec<u8>, Vec<u8>)| row_view(e)) =~= prev.map_values(
                |e: (Vec<u8>, Vec<u8>)| row_view(e),
            ).push(row_view((k, v))));
        }
        i += 1;
    }
    assert(all.subrange(0, rows@.len() as int) =~= all);
    out
}

/// The value-index keys the copy of a table gets, from the keys scanned under the
/// source table's prefix.
pub fn copied_index_keys(keys: &Vec<Vec<u8>>, to: &TableId) -> (r: Vec<Vec<u8>>)
    ensures
        r@.map_values(|k: Vec<u8>| k@) == spec_copied_index_keys(keys@.map_values(|k: Vec<u8>| k@), to@),
{
    let ghost all = keys@.map_values(|k: Vec<u8>| k@);
    let mut out: Vec<Vec<u8>> = Vec::new();
    let mut i: usize = 0;
    while i < keys.len()
        invariant
            i <= keys@.len(),
            all == keys@.map_values(|k: Vec<u8>| k@),
            out@.map_values(|k: Vec<u8>| k@) == spec_copied_index_keys(all.subrange(0, i as int), to@),
        decreases keys@.len() - i,
    {
        let ghost prev = out@;
        assert(all.subrange(0, i + 1).drop_last() =~= all.subrange(0, i as int));
        assert(all.subrange(0, i + 1).last() == keys@[i as int]@);
        if keys[i].len() >= 16 {
            let k = retarget_key(keys[i].as_slice(), to);
            out.push(k);
            assert(out@.map_values(|k: Vec<u8>| k@) =~= prev.map_values(|k: Vec<u8>| k@).push(k@));
        }
        i += 1;
    }
    assert(all.subrange(0, keys@.len() as int) =~= all);
    out
}

} // verus!
