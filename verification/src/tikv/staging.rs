//! The changes a write transaction has staged but not yet sent, and how reads see them.
//!
//! Changes are held back and sent once, right before the commit. Until then every
//! read of the transaction must see them: a point read answers from them first, a
//! range read overlays them on what the store returned, and a deletion hides the key.

use vstd::prelude::*;

use super::kv::{mutation_view, Mutation};
use crate::bytes::{copy_prefix, lex_lt};
use crate::encoding::in_range;
use crate::keymap::{compare_keys, keys_of, map_of, strictly_ascending, KeyMap, KeyOrder};

verus! {

/// A copy of `bytes`.
pub fn clone_bytes(bytes: &Vec<u8>) -> (c: Vec<u8>)
    ensures
        c@ == bytes@,
{
    let c = copy_prefix(bytes.as_slice(), bytes.len());
    assert(bytes@.subrange(0, bytes@.len() as int) =~= bytes@);
    c
}

/// A staged value as bytes: `Some` a value, `None` a deletion.
pub open spec fn opt_bytes(o: Option<Vec<u8>>) -> Option<Seq<u8>> {
    match o {
        Some(v) => Some(v@),
        None => None,
    }
}

/// A copy of a staged value.
fn clone_staged(v: &Option<Vec<u8>>) -> (c: Option<Vec<u8>>)
    ensures
        opt_bytes(c) == opt_bytes(*v),
{
    match v {
        Some(bytes) => Some(clone_bytes(bytes)),
        None => None,
    }
}

/// The map after applying the changes `ms` in order (a later change to a key wins).
pub open spec fn apply_changes(
    m: Map<Seq<u8>, Option<Seq<u8>>>,
    ms: Seq<(Seq<u8>, Option<Seq<u8>>)>,
) -> Map<Seq<u8>, Option<Seq<u8>>>
    decreases ms.len(),
{
    if ms.len() == 0 {
        m
    } else {
        apply_changes(m, ms.drop_last()).insert(ms.last().0, ms.last().1)
    }
}

/// The map that a list of key-value pairs builds when later pairs win.
pub open spec fn pairs_map(s: Seq<(Seq<u8>, Seq<u8>)>) -> Map<Seq<u8>, Seq<u8>>
    decreases s.len(),
{
    if s.len() == 0 {
        Map::empty()
    } else {
        pairs_map(s.drop_last()).insert(s.last().0, s.last().1)
    }
}

/// A stored map overlaid with staged changes: a staged value replaces, a staged
/// deletion removes.
pub open spec fn overlay(
    base: Map<Seq<u8>, Seq<u8>>,
    staged: Seq<(Seq<u8>, Option<Seq<u8>>)>,
) -> Map<Seq<u8>, Seq<u8>>
    decreases staged.len(),
{
    if staged.len() == 0 {
        base
    } else {
        let m = overlay(base, staged.drop_last());
        match staged.last().1 {
            Some(v) => m.insert(staged.last().0, v),
            None => m.remove(staged.last().0),
        }
    }
}

pub open spec fn pair_views(s: Seq<(Vec<u8>, Vec<u8>)>) -> Seq<(Seq<u8>, Seq<u8>)> {
    s.map_values(|p: (Vec<u8>, Vec<u8>)| (p.0@, p.1@))
}

pub open spec fn staged_views(s: Seq<(Vec<u8>, Option<Vec<u8>>)>) -> Seq<(Seq<u8>, Option<Seq<u8>>)> {
    s.map_values(|p: (Vec<u8>, Option<Vec<u8>>)| (p.0@, opt_bytes(p.1)))
}

pub open spec fn byte_views(s: Seq<Vec<u8>>) -> Seq<Seq<u8>> {
    s.map_values(|k: Vec<u8>| k@)
}

/// One staged change: a value, or `None` for a deletion.
pub struct Slot(pub Option<Vec<u8>>);

impl View for Slot {
    type V = Option<Seq<u8>>;

    open spec fn view(&self) -> Option<Seq<u8>> {
        opt_bytes(self.0)
    }
}

/// The changes of one write transaction that are not sent yet.
pub struct StagedWrites {
    pending: KeyMap<Slot>,
}

impl View for StagedWrites {
    type V = Map<Seq<u8>, Option<Seq<u8>>>;

    closed spec fn view(&self) -> Map<Seq<u8>, Option<Seq<u8>>> {
        self.pending@
    }
}

impl StagedWrites {
    pub fn new() -> (s: StagedWrites)
        ensures
            s@ == Map::<Seq<u8>, Option<Seq<u8>>>::empty(),
    {
        StagedWrites { pending: KeyMap::new() }
    }

    /// Stages changes; staging never fails. Only the last change to a key is kept, so
    /// the order in which changes are staged does not change what is sent.
    pub fn stage(&mut self, mutations: Vec<Mutation>)
        ensures
            final(self)@ == apply_changes(old(self)@, mutations@.map_values(|m: Mutation| mutation_view(m))),
    {
        let ghost ms = mutations@.map_values(|m: Mutation| mutation_view(m));
        let ghost start = self@;
        let mut i: usize = 0;
        while i < mutations.len()
            invariant
                i <= mutations@.len(),
                ms == mutations@.map_values(|m: Mutation| mutation_view(m)),
                self@ == apply_changes(start, ms.subrange(0, i as int)),
            decreases mutations@.len() - i,
        {
            match &mutations[i] {
                Mutation::Put(key, value) => {
                    self.pending.insert(clone_bytes(key), Slot(Some(clone_bytes(value))));
                },
                Mutation::Delete(key) => {
                    self.pending.insert(clone_bytes(key), Slot(None));
                },
            }
            proof {
                assert(ms.subrange(0, i + 1).drop_last() =~= ms.subrange(0, i as int));
            }
            i += 1;
        }
        assert(ms.subrange(0, mutations@.len() as int) =~= ms);
    }

    /// What is staged under `key`: `Some(Some(v))` a value, `Some(None)` a deletion,
    /// `None` nothing (the store must be asked).
    pub fn lookup(&self, key: &[u8]) -> (r: Option<Option<Vec<u8>>>)
        ensures
            r is Some <==> self@.contains_key(key@),
            r matches Some(v) ==> opt_bytes(v) == self@[key@],
    {
        match self.pending.get(key) {
            Some(v) => Some(clone_staged(&v.0)),
            None => None,
        }
    }

    /// Splits the keys of a batch read: those answered by staged values (with their
    /// values), and those the store must be asked for. Keys staged as deleted are in
    /// neither: they do not exist for this transaction.
    pub fn partition_reads(&self, keys: &Vec<Vec<u8>>) -> (r: (Vec<(Vec<u8>, Vec<u8>)>, Vec<Vec<u8>>))
        ensures
            pair_views(r.0@) == spec_staged_answers(self@, byte_views(keys@)),
            byte_views(r.1@) == spec_unstaged(self@, byte_views(keys@)),
    {
        let ghost ks = byte_views(keys@);
        let mut staged: Vec<(Vec<u8>, Vec<u8>)> = Vec::new();
        let mut ask: Vec<Vec<u8>> = Vec::new();
        let mut i: usize = 0;
        while i < keys.len()
            invariant
                i <= keys@.len(),
                ks == byte_views(keys@),
                pair_views(staged@) == spec_staged_answers(self@, ks.subrange(0, i as int)),
                byte_views(ask@) == spec_unstaged(self@, ks.subrange(0, i as int)),
            decreases keys@.len() - i,
        {
            let key = &keys[i];
            let ghost pre = ks.subrange(0, i as int);
            proof {
                assert(ks.subrange(0, i + 1).drop_last() =~= pre);
                assert(ks.subrange(0, i + 1).last() == key@);
            }
            match self.lookup(key.as_slice()) {
                Some(Some(value)) => {
                    staged.push((clone_bytes(key), value));
                    assert(pair_views(staged@) =~= spec_staged_answers(self@, ks.subrange(0, i + 1)));
                    assert(byte_views(ask@) =~= spec_unstaged(self@, ks.subrange(0, i + 1)));
                },
                Some(None) => {
                    assert(pair_views(staged@) =~= spec_staged_answers(self@, ks.subrange(0, i + 1)));
                    assert(byte_views(ask@) =~= spec_unstaged(self@, ks.subrange(0, i + 1)));
                },
                None => {
                    ask.push(clone_bytes(key));
                    assert(pair_views(staged@) =~= spec_staged_answers(self@, ks.subrange(0, i + 1)));
                    assert(byte_views(ask@) =~= spec_unstaged(self@, ks.subrange(0, i + 1)));
                },
            }
            i += 1;
        }
        assert(ks.subrange(0, keys@.len() as int) =~= ks);
        (staged, ask)
    }

    /// The staged changes with keys from `start` (included) to `end` (excluded, `None`
    /// for no end), in ascending key order.
    #[verifier::rlimit(100)]
    pub fn staged_range(&self, start: &[u8], end: Option<&[u8]>) -> (r: Vec<(Vec<u8>, Option<Vec<u8>>)>)
        ensures
            strictly_ascending(byte_views(r@.map_values(|p: (Vec<u8>, Option<Vec<u8>>)| p.0))),
            forall|i: int| 0 <= i < r@.len() ==> in_range(#[trigger] r@[i].0@, start@, opt_view(end)),
            forall|i: int| 0 <= i < r@.len() ==> self@.contains_key(#[trigger] r@[i].0@) && self@[r@[i].0@] == opt_bytes(r@[i].1),
            forall|k: Seq<u8>| self@.contains_key(k) && in_range(k, start@, opt_view(end)) ==> exists|i: int|
                0 <= i < r@.len() && #[trigger] r@[i].0@ == k,
    {
        let entries = self.pending.as_entries();
        let ghost es = entries@;
        let mut out: Vec<(Vec<u8>, Option<Vec<u8>>)> = Vec::new();
        let mut i: usize = 0;
        while i < entries.len()
            invariant
                i <= es.len(),
                es == entries@,
                strictly_ascending(keys_of(es)),
                map_of(es) == self@,
                forall|a: int| 0 <= a < out@.len() ==> exists|b: int| 0 <= b < i && #[trigger] out@[a].0@ == es[b].0@ && opt_bytes(out@[a].1) == es[b].1@,
                forall|a: int, b: int| 0 <= a < b < out@.len() ==> lex_lt(#[trigger] out@[a].0@, #[trigger] out@[b].0@),
                forall|a: int| 0 <= a < out@.len() ==> in_range(#[trigger] out@[a].0@, start@, opt_view(end)),
                forall|b: int| 0 <= b < i && in_range(#[trigger] es[b].0@, start@, opt_view(end)) ==> exists|a: int|
                    0 <= a < out@.len() && #[trigger] out@[a].0@ == es[b].0@,
                out@.len() > 0 ==> exists|b: int| 0 <= b < i && out@[out@.len() - 1].0@ == #[trigger] es[b].0@,
            decreases es.len() - i,
        {
            let key = &entries[i].0;
            let above = match compare_keys(key.as_slice(), start) {
                KeyOrder::Less => false,
                _ => true,
            };
            let below = match end {
                Some(e) => match compare_keys(key.as_slice(), e) {
                    KeyOrder::Less => true,
                    _ => false,
                },
                None => true,
            };
            if above && below {
                proof {
                    if out@.len() > 0 {
                        let b = choose|b: int| 0 <= b < i && out@[out@.len() - 1].0@ == #[trigger] es[b].0@;
                        assert(lex_lt(keys_of(es)[b], keys_of(es)[i as int]));
                        assert forall|a: int| 0 <= a < out@.len() implies lex_lt(#[trigger] out@[a].0@, key@) by {
                            let b2 = choose|b2: int| 0 <= b2 < i && #[trigger] out@[a].0@ == es[b2].0@ && opt_bytes(out@[a].1) == es[b2].1@;
                            assert(lex_lt(keys_of(es)[b2], keys_of(es)[i as int]));
                        }
                    }
                    crate::keymap::lemma_map_of_at(es, i as int);
                }
                let ghost before = out@;
                out.push((clone_bytes(key), clone_staged(&entries[i].1.0)));
                proof {
                    assert(out@[out@.len() - 1].0@ == es[i as int].0@);
                    assert forall|a: int| 0 <= a < before.len() implies #[trigger] out@[a] == before[a] by {}
                    assert forall|b: int| 0 <= b < i + 1 && in_range(#[trigger] es[b].0@, start@, opt_view(end))
                        implies exists|a: int| 0 <= a < out@.len() && #[trigger] out@[a].0@ == es[b].0@ by {
                        if b < i {
                            let a = choose|a: int| 0 <= a < before.len() && #[trigger] before[a].0@ == es[b].0@;
                            assert(out@[a] == before[a]);
                        } else {
                            assert(out@[out@.len() - 1].0@ == es[b].0@);
                        }
                    }
                }
            }
            i += 1;
        }
        proof {
            assert forall|a: int| 0 <= a < out@.len() implies self@.contains_key(#[trigger] out@[a].0@) && self@[out@[a].0@] == opt_bytes(out@[a].1) by {
                let b = choose|b: int| 0 <= b < es.len() && #[trigger] out@[a].0@ == es[b].0@ && opt_bytes(out@[a].1) == es[b].1@;
                crate::keymap::lemma_map_of_at(es, b);
            }
            assert forall|k: Seq<u8>| self@.contains_key(k) && in_range(k, start@, opt_view(end)) implies exists|i: int|
                0 <= i < out@.len() && #[trigger] out@[i].0@ == k by {
                let b = choose|b: int| 0 <= b < es.len() && #[trigger] es[b].0@ == k;
            }
            let ks = byte_views(out@.map_values(|p: (Vec<u8>, Option<Vec<u8>>)| p.0));
            assert forall|a: int, b: int| 0 <= a < b < ks.len() implies lex_lt(#[trigger] ks[a], #[trigger] ks[b]) by {
                assert(ks[a] == out@[a].0@);
                assert(ks[b] == out@[b].0@);
            }
        }
        out
    }

    /// What locking the keys `keys` read, as this transaction sees it: the values the
    /// store returned at lock time, with this transaction's own changes to those keys
    /// laid over (the store's answer cannot hold changes not sent yet).
    pub fn overlay_locked(&self, locked: &Vec<(Vec<u8>, Vec<u8>)>, keys: &Vec<Vec<u8>>) -> (r: KeyMap<Vec<u8>>)
        ensures
            r@ == overlay_keys(pairs_map(pair_views(locked@)), byte_views(keys@), self@),
    {
        let ghost lv = pair_views(locked@);
        let ghost kv = byte_views(keys@);
        let mut m: KeyMap<Vec<u8>> = KeyMap::new();
        let mut i: usize = 0;
        while i < locked.len()
            invariant
                i <= locked@.len(),
                lv == pair_views(locked@),
                m@ == pairs_map(lv.subrange(0, i as int)),
            decreases locked@.len() - i,
        {
            proof {
                assert(lv.subrange(0, i + 1).drop_last() =~= lv.subrange(0, i as int));
            }
            m.insert(clone_bytes(&locked[i].0), clone_bytes(&locked[i].1));
            i += 1;
        }
        assert(lv.subrange(0, locked@.len() as int) =~= lv);
        let mut j: usize = 0;
        while j < keys.len()
            invariant
                j <= keys@.len(),
                kv == byte_views(keys@),
                m@ == overlay_keys(pairs_map(lv), kv.subrange(0, j as int), self@),
            decreases keys@.len() - j,
        {
            proof {
                assert(kv.subrange(0, j + 1).drop_last() =~= kv.subrange(0, j as int));
                assert(kv.subrange(0, j + 1).last() == keys@[j as int]@);
            }
            match self.lookup(keys[j].as_slice()) {
                Some(Some(value)) => {
                    m.insert(clone_bytes(&keys[j]), value);
                },
                Some(None) => {
                    m.remove(keys[j].as_slice());
                },
                None => {},
            }
            j += 1;
        }
        assert(kv.subrange(0, keys@.len() as int) =~= kv);
        m
    }

    /// The staged changes as changes to send, in ascending key order. Sending them in
    /// key order crosses fewer region boundaries.
    pub fn into_mutations(self) -> (ms: Vec<Mutation>)
        ensures
            strictly_ascending(ms@.map_values(|m: Mutation| mutation_view(m).0)),
            forall|i: int| 0 <= i < ms@.len() ==> self@.contains_key(#[trigger] mutation_view(ms@[i]).0)
                && self@[mutation_view(ms@[i]).0] == mutation_view(ms@[i]).1,
            forall|k: Seq<u8>| self@.contains_key(k) ==> exists|i: int| 0 <= i < ms@.len() && #[trigger] mutation_view(ms@[i]).0 == k,
    {
        let ghost m = self@;
        let entries = self.pending.into_entries();
        let ghost es = entries@;
        let mut ms: Vec<Mutation> = Vec::new();
        let mut i: usize = 0;
        while i < entries.len()
            invariant
                i <= es.len(),
                es == entries@,
                strictly_ascending(keys_of(es)),
                map_of(es) == m,
                ms@.len() == i,
                forall|a: int| 0 <= a < i ==> #[trigger] mutation_view(ms@[a]) == (es[a].0@, es[a].1@),
            decreases es.len() - i,
        {
            let key = clone_bytes(&entries[i].0);
            let mutation = match &entries[i].1.0 {
                Some(value) => Mutation::Put(key, clone_bytes(value)),
                None => Mutation::Delete(key),
            };
            ms.push(mutation);
            i += 1;
        }
        proof {
            let ks = ms@.map_values(|mu: Mutation| mutation_view(mu).0);
            assert forall|a: int, b: int| 0 <= a < b < ks.len() implies lex_lt(#[trigger] ks[a], #[trigger] ks[b]) by {
                assert(ks[a] == keys_of(es)[a]);
                assert(ks[b] == keys_of(es)[b]);
            }
            assert forall|a: int| 0 <= a < ms@.len() implies m.contains_key(#[trigger] mutation_view(ms@[a]).0)
                && m[mutation_view(ms@[a]).0] == mutation_view(ms@[a]).1 by {
                crate::keymap::lemma_map_of_at(es, a);
            }
            assert forall|k: Seq<u8>| m.contains_key(k) implies exists|i: int| 0 <= i < ms@.len() && #[trigger] mutation_view(ms@[i]).0 == k by {
                let b = choose|b: int| 0 <= b < es.len() && #[trigger] es[b].0@ == k;
                assert(mutation_view(ms@[b]).0 == k);
            }
        }
        ms
    }
}

pub open spec fn opt_view(end: Option<&[u8]>) -> Option<Seq<u8>> {
    match end {
        Some(e) => Some(e@),
        None => None,
    }
}

/// The keys of a batch read that staged values answer, with those values.
pub open spec fn spec_staged_answers(
    staged: Map<Seq<u8>, Option<Seq<u8>>>,
    keys: Seq<Seq<u8>>,
) -> Seq<(Seq<u8>, Seq<u8>)>
    decreases keys.len(),
{
    if keys.len() == 0 {
        Seq::empty()
    } else {
        let rest = spec_staged_answers(staged, keys.drop_last());
        let k = keys.last();
        if staged.contains_key(k) && staged[k] is Some {
            rest.push((k, staged[k]->0))
        } else {
            rest
        }
    }
}

/// The keys of a batch read that nothing is staged for.
pub open spec fn spec_unstaged(staged: Map<Seq<u8>, Option<Seq<u8>>>, keys: Seq<Seq<u8>>) -> Seq<Seq<u8>>
    decreases keys.len(),
{
    if keys.len() == 0 {
        Seq::empty()
    } else {
        let rest = spec_unstaged(staged, keys.drop_last());
        if staged.contains_key(keys.last()) {
            rest
        } else {
            rest.push(keys.last())
        }
    }
}

/// Read your own writes: after staging a list of changes, what is staged for a key is
/// the last change made to it in that list.
pub proof fn lemma_last_change_wins(
    m: Map<Seq<u8>, Option<Seq<u8>>>,
    ms: Seq<(Seq<u8>, Option<Seq<u8>>)>,
    i: int,
)
    requires
        0 <= i < ms.len(),
        forall|j: int| i < j < ms.len() ==> #[trigger] ms[j].0 != ms[i].0,
    ensures
        apply_changes(m, ms).contains_key(ms[i].0),
        apply_changes(m, ms)[ms[i].0] == ms[i].1,
    decreases ms.len(),
{
    if i < ms.len() - 1 {
        let init = ms.drop_last();
        assert forall|j: int| i < j < init.len() implies #[trigger] init[j].0 != init[i].0 by {
            assert(init[j] == ms[j]);
        }
        lemma_last_change_wins(m, init, i);
        assert(ms.last() == ms[ms.len() - 1]);
    }
}

/// Staging changes to other keys leaves what is staged for a key as it was.
pub proof fn lemma_other_keys_unchanged(
    m: Map<Seq<u8>, Option<Seq<u8>>>,
    ms: Seq<(Seq<u8>, Option<Seq<u8>>)>,
    k: Seq<u8>,
)
    requires
        forall|j: int| 0 <= j < ms.len() ==> #[trigger] ms[j].0 != k,
    ensures
        apply_changes(m, ms).contains_key(k) == m.contains_key(k),
        m.contains_key(k) ==> apply_changes(m, ms)[k] == m[k],
    decreases ms.len(),
{
    if ms.len() > 0 {
        let init = ms.drop_last();
        assert forall|j: int| 0 <= j < init.len() implies #[trigger] init[j].0 != k by {
            assert(init[j] == ms[j]);
        }
        lemma_other_keys_unchanged(m, init, k);
        assert(ms.last() == ms[ms.len() - 1]);
    }
}

/// A range read sees the transaction's own changes: where a change to a key is the last
/// one staged for it, the overlaid rows hold the staged value, or no row for a staged
/// deletion.
pub proof fn lemma_overlay_shows_change(
    base: Map<Seq<u8>, Seq<u8>>,
    staged: Seq<(Seq<u8>, Option<Seq<u8>>)>,
    i: int,
)
    requires
        0 <= i < staged.len(),
        forall|j: int| i < j < staged.len() ==> #[trigger] staged[j].0 != staged[i].0,
    ensures
        staged[i].1 is Some ==> overlay(base, staged).contains_key(staged[i].0)
            && overlay(base, staged)[staged[i].0] == staged[i].1->0,
        staged[i].1 is None ==> !overlay(base, staged).contains_key(staged[i].0),
    decreases staged.len(),
{
    if i < staged.len() - 1 {
        let init = staged.drop_last();
        assert forall|j: int| i < j < init.len() implies #[trigger] init[j].0 != init[i].0 by {
            assert(init[j] == staged[j]);
        }
        lemma_overlay_shows_change(base, init, i);
        assert(staged.last() == staged[staged.len() - 1]);
    }
}

/// A range read leaves the rows of keys with no staged change as the store holds them.
pub proof fn lemma_overlay_keeps_untouched(
    base: Map<Seq<u8>, Seq<u8>>,
    staged: Seq<(Seq<u8>, Option<Seq<u8>>)>,
    k: Seq<u8>,
)
    requires
        forall|j: int| 0 <= j < staged.len() ==> #[trigger] staged[j].0 != k,
    ensures
        overlay(base, staged).contains_key(k) == base.contains_key(k),
        base.contains_key(k) ==> overlay(base, staged)[k] == base[k],
    decreases staged.len(),
{
    if staged.len() > 0 {
        let init = staged.drop_last();
        assert forall|j: int| 0 <= j < init.len() implies #[trigger] init[j].0 != k by {
            assert(init[j] == staged[j]);
        }
        lemma_overlay_keeps_untouched(base, init, k);
        assert(staged.last() == staged[staged.len() - 1]);
    }
}

/// The locked values with the staged changes to the locked keys laid over, key by key.
pub open spec fn overlay_keys(
    m: Map<Seq<u8>, Seq<u8>>,
    keys: Seq<Seq<u8>>,
    staged: Map<Seq<u8>, Option<Seq<u8>>>,
) -> Map<Seq<u8>, Seq<u8>>
    decreases keys.len(),
{
    if keys.len() == 0 {
        m
    } else {
        let rest = overlay_keys(m, keys.drop_last(), staged);
        let k = keys.last();
        if staged.contains_key(k) {
            match staged[k] {
                Some(v) => rest.insert(k, v),
                None => rest.remove(k),
            }
        } else {
            rest
        }
    }
}

} // verus!
