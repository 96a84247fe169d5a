//! What a range read of a write transaction returns once its own staged changes are
//! laid over what the store sent back.
//!
//! The store answers range reads from its snapshot, which cannot hold the changes this
//! transaction has not sent yet. So a read first fetches the raw rows, and then the
//! staged changes of the same range are laid over them: a staged value replaces or
//! adds a row, a staged deletion hides one. What comes out is in ascending key order.

use vstd::prelude::*;

use super::staging::{byte_views, clone_bytes, overlay, pair_views, pairs_map, staged_views};
use crate::bytes::lex_lt;
use crate::keymap::{keys_equal, keys_of, map_of, strictly_ascending, KeyMap};

verus! {

/// The keys as a map to empty values: a key-only scan seen as a map.
pub open spec fn key_set_map(keys: Seq<Seq<u8>>) -> Map<Seq<u8>, Seq<u8>>
    decreases keys.len(),
{
    if keys.len() == 0 {
        Map::empty()
    } else {
        key_set_map(keys.drop_last()).insert(keys.last(), Seq::empty())
    }
}

/// Whether the staged changes delete `key`.
pub open spec fn staged_deletes(staged: Seq<(Seq<u8>, Option<Seq<u8>>)>, key: Seq<u8>) -> bool {
    exists|i: int| 0 <= i < staged.len() && #[trigger] staged[i].0 == key && staged[i].1 is None
}

/// The keys of `keys` that the staged changes do not delete, in their order.
pub open spec fn undeleted(keys: Seq<Seq<u8>>, staged: Seq<(Seq<u8>, Option<Seq<u8>>)>) -> Seq<Seq<u8>>
    decreases keys.len(),
{
    if keys.len() == 0 {
        Seq::empty()
    } else {
        let rest = undeleted(keys.drop_last(), staged);
        if staged_deletes(staged, keys.last()) {
            rest
        } else {
            rest.push(keys.last())
        }
    }
}

/// How many of the staged changes are deletions.
pub open spec fn deletion_count(staged: Seq<(Seq<u8>, Option<Seq<u8>>)>) -> nat
    decreases staged.len(),
{
    if staged.len() == 0 {
        0
    } else {
        deletion_count(staged.drop_last()) + if staged.last().1 is None {
            1nat
        } else {
            0nat
        }
    }
}

/// Whether a staged change of the range puts a value.
pub open spec fn staged_puts_any(staged: Seq<(Seq<u8>, Option<Seq<u8>>)>) -> bool {
    exists|i: int| 0 <= i < staged.len() && #[trigger] staged[i].1 is Some
}

/// Lays the staged changes of a range over the rows the store returned for it, and
/// returns the rows in ascending key order. With nothing staged the rows come back as
/// the store sent them.
pub fn merge_rows(raw: Vec<(Vec<u8>, Vec<u8>)>, staged: Vec<(Vec<u8>, Option<Vec<u8>>)>) -> (r: Vec<(Vec<u8>, Vec<u8>)>)
    ensures
        staged@.len() == 0 ==> r@ == raw@,
        staged@.len() > 0 ==> strictly_ascending(keys_of(r@)),
        staged@.len() > 0 ==> map_of(r@) == overlay(pairs_map(pair_views(raw@)), staged_views(staged@)),
{
    if staged.len() == 0 {
        return raw;
    }
    let merged = overlay_map(&raw, &staged);
    merged.into_entries()
}

/// The rows as a map (a later row for a key wins), with the staged changes laid over.
fn overlay_map(raw: &Vec<(Vec<u8>, Vec<u8>)>, staged: &Vec<(Vec<u8>, Option<Vec<u8>>)>) -> (m: KeyMap<Vec<u8>>)
    ensures
        m@ == overlay(pairs_map(pair_views(raw@)), staged_views(staged@)),
{
    let ghost rv = pair_views(raw@);
    let ghost sv = staged_views(staged@);
    let mut m: KeyMap<Vec<u8>> = KeyMap::new();
    let mut i: usize = 0;
    while i < raw.len()
        invariant
            i <= raw@.len(),
            rv == pair_views(raw@),
            m@ == pairs_map(rv.subrange(0, i as int)),
        decreases raw@.len() - i,
    {
        proof {
            assert(rv.subrange(0, i + 1).drop_last() =~= rv.subrange(0, i as int));
        }
        m.insert(clone_bytes(&raw[i].0), clone_bytes(&raw[i].1));
        i += 1;
    }
    assert(rv.subrange(0, raw@.len() as int) =~= rv);
    let mut j: usize = 0;
    while j < staged.len()
        invariant
            j <= staged@.len(),
            sv == staged_views(staged@),
            m@ == overlay(pairs_map(rv), sv.subrange(0, j as int)),
        decreases staged@.len() - j,
    {
        proof {
            assert(sv.subrange(0, j + 1).drop_last() =~= sv.subrange(0, j as int));
        }
        match &staged[j].1 {
            Some(value) => {
                m.insert(clone_bytes(&staged[j].0), clone_bytes(value));
            },
            None => {
                m.remove(staged[j].0.as_slice());
            },
        }
        j += 1;
    }
    assert(sv.subrange(0, staged@.len() as int) =~= sv);
    m
}

/// Lays the staged changes of a range over the keys the store returned for it, and
/// returns the keys in ascending order. With nothing staged the keys come back as the
/// store sent them.
pub fn merge_keys(raw: Vec<Vec<u8>>, staged: Vec<(Vec<u8>, Option<Vec<u8>>)>) -> (r: Vec<Vec<u8>>)
    ensures
        staged@.len() == 0 ==> r@ == raw@,
        staged@.len() > 0 ==> strictly_ascending(byte_views(r@)),
        staged@.len() > 0 ==> forall|k: Seq<u8>|
            byte_views(r@).contains(k) <==> overlay(key_set_map(byte_views(raw@)), staged_views(staged@)).contains_key(k),
{
    if staged.len() == 0 {
        return raw;
    }
    let ghost kv = byte_views(raw@);
    let ghost sv = staged_views(staged@);
    let mut m: KeyMap<Vec<u8>> = KeyMap::new();
    let mut i: usize = 0;
    while i < raw.len()
        invariant
            i <= raw@.len(),
            kv == byte_views(raw@),
            m@.dom() == key_set_map(kv.subrange(0, i as int)).dom(),
        decreases raw@.len() - i,
    {
        proof {
            assert(kv.subrange(0, i + 1).drop_last() =~= kv.subrange(0, i as int));
        }
        m.insert(clone_bytes(&raw[i]), Vec::new());
        proof {
            assert(m@.dom() =~= key_set_map(kv.subrange(0, i + 1)).dom());
        }
        i += 1;
    }
    assert(kv.subrange(0, raw@.len() as int) =~= kv);
    let mut j: usize = 0;
    while j < staged.len()
        invariant
            j <= staged@.len(),
            sv == staged_views(staged@),
            m@.dom() == overlay(key_set_map(kv), sv.subrange(0, j as int)).dom(),
        decreases staged@.len() - j,
    {
        proof {
            assert(sv.subrange(0, j + 1).drop_last() =~= sv.subrange(0, j as int));
        }
        match &staged[j].1 {
            Some(_) => {
                m.insert(clone_bytes(&staged[j].0), Vec::new());
            },
            None => {
                m.remove(staged[j].0.as_slice());
            },
        }
        proof {
            assert(m@.dom() =~= overlay(key_set_map(kv), sv.subrange(0, j + 1)).dom());
        }
        j += 1;
    }
    assert(sv.subrange(0, staged@.len() as int) =~= sv);
    let entries = m.into_entries();
    let ghost es = entries@;
    let mut out: Vec<Vec<u8>> = Vec::new();
    let mut k: usize = 0;
    while k < entries.len()
        invariant
            k <= es.len(),
            es == entries@,
            out@.len() == k,
            forall|a: int| 0 <= a < k ==> #[trigger] out@[a]@ == es[a].0@,
        decreases es.len() - k,
    {
        out.push(clone_bytes(&entries[k].0));
        k += 1;
    }
    proof {
        let ov = byte_views(out@);
        assert(ov =~= keys_of(es));
        assert forall|key: Seq<u8>| ov.contains(key) <==> m@.contains_key(key) by {
            if ov.contains(key) {
                let a = choose|a: int| 0 <= a < ov.len() && ov[a] == key;
                assert(es[a].0@ == key);
            }
            if m@.contains_key(key) {
                let a = choose|a: int| 0 <= a < es.len() && #[trigger] es[a].0@ == key;
                assert(ov[a] == key);
            }
        }
    }
    out
}

/// Whether the staged changes delete `key` (the changes being those of one range).
fn is_staged_deleted(staged: &Vec<(Vec<u8>, Option<Vec<u8>>)>, key: &[u8]) -> (d: bool)
    ensures
        d == staged_deletes(staged_views(staged@), key@),
{
    let ghost sv = staged_views(staged@);
    let mut i: usize = 0;
    while i < staged.len()
        invariant
            i <= staged@.len(),
            sv == staged_views(staged@),
            forall|j: int| 0 <= j < i ==> !(#[trigger] sv[j].0 == key@ && sv[j].1 is None),
        decreases staged@.len() - i,
    {
        if staged[i].1.is_none() && keys_equal(staged[i].0.as_slice(), key) {
            assert(sv[i as int].0 == key@ && sv[i as int].1 is None);
            return true;
        }
        i += 1;
    }
    false
}

/// The keys the store returned that the transaction has not itself deleted, in their
/// order: what a chunk of a prefix deletion still has to delete. Counting keys already
/// deleted would make the chunks never run out.
pub fn keys_not_deleted(raw: Vec<Vec<u8>>, staged: &Vec<(Vec<u8>, Option<Vec<u8>>)>) -> (r: Vec<Vec<u8>>)
    ensures
        byte_views(r@) == undeleted(byte_views(raw@), staged_views(staged@)),
{
    let ghost kv = byte_views(raw@);
    let ghost sv = staged_views(staged@);
    let mut out: Vec<Vec<u8>> = Vec::new();
    let mut i: usize = 0;
    while i < raw.len()
        invariant
            i <= raw@.len(),
            kv == byte_views(raw@),
            sv == staged_views(staged@),
            byte_views(out@) == undeleted(kv.subrange(0, i as int), sv),
        decreases raw@.len() - i,
    {
        proof {
            assert(kv.subrange(0, i + 1).drop_last() =~= kv.subrange(0, i as int));
            assert(kv.subrange(0, i + 1).last() == raw@[i as int]@);
        }
        if !is_staged_deleted(staged, raw[i].as_slice()) {
            out.push(clone_bytes(&raw[i]));
            assert(byte_views(out@) =~= undeleted(kv.subrange(0, i + 1), sv));
        } else {
            assert(byte_views(out@) =~= undeleted(kv.subrange(0, i + 1), sv));
        }
        i += 1;
    }
    assert(kv.subrange(0, raw@.len() as int) =~= kv);
    out
}

/// Whether a staged change of the range puts a value: then the range holds a row for
/// this transaction, whatever the store holds.
pub fn puts_any(staged: &Vec<(Vec<u8>, Option<Vec<u8>>)>) -> (b: bool)
    ensures
        b == staged_puts_any(staged_views(staged@)),
{
    let ghost sv = staged_views(staged@);
    let mut i: usize = 0;
    while i < staged.len()
        invariant
            i <= staged@.len(),
            sv == staged_views(staged@),
            forall|j: int| 0 <= j < i ==> !(#[trigger] sv[j].1 is Some),
        decreases staged@.len() - i,
    {
        if staged[i].1.is_some() {
            assert(sv[i as int].1 is Some);
            return true;
        }
        i += 1;
    }
    false
}

/// How many staged changes of the range are deletions.
pub fn count_deletions(staged: &Vec<(Vec<u8>, Option<Vec<u8>>)>) -> (n: usize)
    ensures
        n == deletion_count(staged_views(staged@)),
{
    let ghost sv = staged_views(staged@);
    let mut n: usize = 0;
    let mut i: usize = 0;
    while i < staged.len()
        invariant
            i <= staged@.len(),
            sv == staged_views(staged@),
            n == deletion_count(sv.subrange(0, i as int)),
            n <= i,
        decreases staged@.len() - i,
    {
        proof {
            assert(sv.subrange(0, i + 1).drop_last() =~= sv.subrange(0, i as int));
        }
        if staged[i].1.is_none() {
            n += 1;
        }
        i += 1;
    }
    assert(sv.subrange(0, staged@.len() as int) =~= sv);
    n
}

/// How many rows to ask the store for so that `wanted` rows remain after the staged
/// deletions hide theirs: `wanted` plus the deletions, at most `u32::MAX`.
pub fn read_budget(wanted: usize, staged: &Vec<(Vec<u8>, Option<Vec<u8>>)>) -> (b: u32)
    ensures
        b == if wanted + deletion_count(staged_views(staged@)) > u32::MAX {
            u32::MAX as int
        } else {
            wanted + deletion_count(staged_views(staged@))
        },
{
    let deleted = count_deletions(staged);
    let total = wanted.saturating_add(deleted);
    if total > (u32::MAX as usize) {
        u32::MAX
    } else {
        total as u32
    }
}

/// Whether a key the store returned is left once the transaction's own deletions are
/// hidden.
pub fn any_undeleted(raw: &Vec<Vec<u8>>, staged: &Vec<(Vec<u8>, Option<Vec<u8>>)>) -> (b: bool)
    ensures
        b == exists|i: int| 0 <= i < raw@.len() && !staged_deletes(staged_views(staged@), #[trigger] raw@[i]@),
{
    let mut i: usize = 0;
    while i < raw.len()
        invariant
            i <= raw@.len(),
            forall|j: int| 0 <= j < i ==> staged_deletes(staged_views(staged@), #[trigger] raw@[j]@),
        decreases raw@.len() - i,
    {
        if !is_staged_deleted(staged, raw[i].as_slice()) {
            return true;
        }
        i += 1;
    }
    false
}

/// The rows of a limited range read: the staged changes laid over the store's rows,
/// and of those the `limit` with the smallest keys. With nothing staged the rows come
/// back as the store sent them.
pub fn merge_rows_limited(
    raw: Vec<(Vec<u8>, Vec<u8>)>,
    staged: Vec<(Vec<u8>, Option<Vec<u8>>)>,
    limit: usize,
) -> (r: Vec<(Vec<u8>, Vec<u8>)>)
    ensures
        staged@.len() == 0 ==> r@ == raw@,
        staged@.len() > 0 ==> {
            let m = overlay(pairs_map(pair_views(raw@)), staged_views(staged@));
            &&& r@.len() <= limit
            &&& strictly_ascending(keys_of(r@))
            &&& forall|i: int| 0 <= i < r@.len() ==> m.contains_key(#[trigger] r@[i].0@) && m[r@[i].0@] == r@[i].1@
            &&& forall|k: Seq<u8>| m.contains_key(k) && !keys_of(r@).contains(k) ==> r@.len() == limit
                && forall|i: int| 0 <= i < r@.len() ==> lex_lt(#[trigger] r@[i].0@, k)
        },
{
    if staged.len() == 0 {
        return raw;
    }
    let all = merge_rows(raw, staged);
    let ghost es = all@;
    let mut out: Vec<(Vec<u8>, Vec<u8>)> = Vec::new();
    let mut i: usize = 0;
    let n = if all.len() < limit {
        all.len()
    } else {
        limit
    };
    while i < n
        invariant
            i <= n,
            n <= es.len(),
            n <= limit,
            es == all@,
            out@.len() == i,
            forall|a: int| 0 <= a < i ==> #[trigger] out@[a].0@ == es[a].0@ && out@[a].1@ == es[a].1@,
        decreases n - i,
    {
        out.push((clone_bytes(&all[i].0), clone_bytes(&all[i].1)));
        i += 1;
    }
    proof {
        let m = map_of(es);
        assert(strictly_ascending(keys_of(es)));
        let ok = keys_of(out@);
        assert forall|a: int, b: int| 0 <= a < b < ok.len() implies lex_lt(#[trigger] ok[a], #[trigger] ok[b]) by {
            assert(ok[a] == keys_of(es)[a]);
            assert(ok[b] == keys_of(es)[b]);
        }
        assert forall|a: int| 0 <= a < out@.len() implies m.contains_key(#[trigger] out@[a].0@) && m[out@[a].0@]
            == out@[a].1@ by {
            crate::keymap::lemma_map_of_at(es, a);
        }
        assert forall|k: Seq<u8>| m.contains_key(k) && !ok.contains(k) implies out@.len() == limit && forall|a: int|
            0 <= a < out@.len() ==> lex_lt(#[trigger] out@[a].0@, k) by {
            let j = choose|j: int| 0 <= j < es.len() && #[trigger] es[j].0@ == k;
            if j < n {
                assert(ok[j] == k);
            }
            assert(j >= n);
            assert forall|a: int| 0 <= a < out@.len() implies lex_lt(#[trigger] out@[a].0@, k) by {
                assert(keys_of(es)[a] == out@[a].0@);
                assert(keys_of(es)[j] == k);
            }
        }
    }
    out
}

/// A chunk of a prefix deletion that finds nothing left to delete means the deletion
/// is complete: every key the store still returned under the prefix is one the
/// transaction has already deleted, and in a transaction that has deleted nothing yet
/// the store returned no key at all.
pub proof fn lemma_empty_chunk_means_done(keys: Seq<Seq<u8>>, staged: Seq<(Seq<u8>, Option<Seq<u8>>)>)
    requires
        undeleted(keys, staged).len() == 0,
    ensures
        forall|i: int| 0 <= i < keys.len() ==> staged_deletes(staged, #[trigger] keys[i]),
        staged.len() == 0 ==> keys.len() == 0,
    decreases keys.len(),
{
    if keys.len() > 0 {
        let rest = keys.drop_last();
        if !staged_deletes(staged, keys.last()) {
            assert(undeleted(keys, staged).len() == undeleted(rest, staged).len() + 1);
        }
        lemma_empty_chunk_means_done(rest, staged);
        assert forall|i: int| 0 <= i < keys.len() implies staged_deletes(staged, #[trigger] keys[i]) by {
            if i < keys.len() - 1 {
                assert(rest[i] == keys[i]);
            }
        }
    }
}

/// One chunk of a prefix deletion: the keys it deletes, and whether the prefix is
/// then fully deleted.
pub struct PrefixChunk {
    pub keys: Vec<Vec<u8>>,
    pub done: bool,
}

/// Whether a chunk finds the prefix fully deleted: nothing left for it to delete, a
/// read that came back short of its budget (so it held every key of the range), and
/// no value of the range staged by the transaction.
pub open spec fn chunk_done(raw: Seq<Seq<u8>>, staged: Seq<(Seq<u8>, Option<Seq<u8>>)>, budget: nat) -> bool {
    &&& undeleted(raw, staged).len() == 0
    &&& raw.len() < budget
    &&& !staged_puts_any(staged)
}

/// Decides one chunk of a prefix deletion from the keys a range read returned (asked
/// for with `budget` keys, see [`read_budget`]) and the transaction's staged changes of
/// the range: the keys to delete are those not already deleted, and the prefix counts
/// as fully deleted only when nothing under it stays visible.
pub fn prefix_chunk(raw: Vec<Vec<u8>>, staged: &Vec<(Vec<u8>, Option<Vec<u8>>)>, budget: u32) -> (c: PrefixChunk)
    ensures
        byte_views(c.keys@) == undeleted(byte_views(raw@), staged_views(staged@)),
        c.done == chunk_done(byte_views(raw@), staged_views(staged@), budget as nat),
{
    let fetched = raw.len();
    let keys = keys_not_deleted(raw, staged);
    let done = keys.len() == 0 && fetched < budget as usize && !puts_any(staged);
    PrefixChunk { keys, done }
}

proof fn lemma_key_set_map_keys(keys: Seq<Seq<u8>>, k: Seq<u8>)
    ensures
        key_set_map(keys).contains_key(k) <==> keys.contains(k),
    decreases keys.len(),
{
    if keys.len() > 0 {
        lemma_key_set_map_keys(keys.drop_last(), k);
        if keys.drop_last().contains(k) {
            let i = choose|i: int| 0 <= i < keys.drop_last().len() && keys.drop_last()[i] == k;
            assert(keys[i] == k);
        }
        if keys.contains(k) && k != keys.last() {
            let i = choose|i: int| 0 <= i < keys.len() && keys[i] == k;
            assert(keys.drop_last()[i] == k);
        }
        if k == keys.last() {
            assert(keys[keys.len() - 1] == k);
        }
    }
}

proof fn lemma_overlay_of_deletions(
    base: Map<Seq<u8>, Seq<u8>>,
    staged: Seq<(Seq<u8>, Option<Seq<u8>>)>,
    k: Seq<u8>,
)
    requires
        !staged_puts_any(staged),
    ensures
        overlay(base, staged).contains_key(k) <==> base.contains_key(k) && !staged_deletes(staged, k),
    decreases staged.len(),
{
    if staged.len() > 0 {
        let init = staged.drop_last();
        assert(!staged_puts_any(init)) by {
            if staged_puts_any(init) {
                let i = choose|i: int| 0 <= i < init.len() && #[trigger] init[i].1 is Some;
                assert(staged[i] == init[i]);
            }
        }
        lemma_overlay_of_deletions(base, init, k);
        assert(!(staged[staged.len() - 1].1 is Some));
        if staged_deletes(init, k) {
            let i = choose|i: int| 0 <= i < init.len() && #[trigger] init[i].0 == k && init[i].1 is None;
            assert(staged[i] == init[i]);
        }
        if staged_deletes(staged, k) && staged.last().0 != k {
            let i = choose|i: int| 0 <= i < staged.len() && #[trigger] staged[i].0 == k && staged[i].1 is None;
            assert(init[i] == staged[i]);
        }
        if staged.last().0 == k {
            assert(staged[staged.len() - 1].0 == k);
        }
    }
}

/// A chunk that finds the prefix fully deleted is right: when the read returned the
/// first `budget` keys of the range (all of them, if fewer), nothing of the range is
/// left once the transaction's staged changes are laid over what the store holds.
pub proof fn lemma_done_chunk_leaves_nothing(
    store: Seq<Seq<u8>>,
    raw: Seq<Seq<u8>>,
    staged: Seq<(Seq<u8>, Option<Seq<u8>>)>,
    budget: nat,
)
    requires
        raw == store.take(if store.len() < budget { store.len() as int } else { budget as int }),
        chunk_done(raw, staged, budget),
    ensures
        overlay(key_set_map(store), staged).dom() == Set::<Seq<u8>>::empty(),
{
    assert(raw =~= store);
    lemma_empty_chunk_means_done(raw, staged);
    assert forall|k: Seq<u8>| !overlay(key_set_map(store), staged).contains_key(k) by {
        lemma_overlay_of_deletions(key_set_map(store), staged, k);
        lemma_key_set_map_keys(store, k);
        if store.contains(k) {
            let i = choose|i: int| 0 <= i < store.len() && store[i] == k;
            assert(staged_deletes(staged, raw[i]));
        }
    }
    assert(overlay(key_set_map(store), staged).dom() =~= Set::<Seq<u8>>::empty());
}

} // verus!
