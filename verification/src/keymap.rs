//! An ordered map keyed by byte strings: entries kept in ascending key order, one per
//! key, the way the backends' ordered maps hold keys.

use vstd::prelude::*;

use crate::bytes::{first_diff_lt, lemma_lex_trans, lemma_lex_trichotomy, lex_le, lex_lt};

verus! {

/// The result of comparing two keys.
#[derive(Debug, Clone, Copy, PartialEq, Eq)]
pub enum KeyOrder {
    Less,
    Equal,
    Greater,
}

/// Compares two keys in byte order.
pub fn compare_keys(a: &[u8], b: &[u8]) -> (o: KeyOrder)
    ensures
        (o is Less) <==> lex_lt(a@, b@),
        (o is Equal) <==> a@ == b@,
        (o is Greater) <==> lex_lt(b@, a@),
{
    proof {
        lemma_lex_trichotomy(a@, b@);
    }
    let n = if a.len() < b.len() {
        a.len()
    } else {
        b.len()
    };
    let mut i: usize = 0;
    while i < n && a[i] == b[i]
        invariant
            i <= n,
            n <= a@.len(),
            n <= b@.len(),
            n == a@.len() || n == b@.len(),
            forall|j: int| 0 <= j < i ==> a@[j] == b@[j],
        decreases n - i,
    {
        i += 1;
    }
    if i < n {
        if a[i] < b[i] {
            assert(first_diff_lt(a@, b@, i as int));
            KeyOrder::Less
        } else {
            assert(first_diff_lt(b@, a@, i as int));
            KeyOrder::Greater
        }
    } else if a.len() < b.len() {
        assert(b@.subrange(0, a@.len() as int) =~= a@);
        KeyOrder::Less
    } else if b.len() < a.len() {
        assert(a@.subrange(0, b@.len() as int) =~= b@);
        KeyOrder::Greater
    } else {
        assert(a@ =~= b@);
        KeyOrder::Equal
    }
}

/// Whether two keys are equal.
pub fn keys_equal(a: &[u8], b: &[u8]) -> (eq: bool)
    ensures
        eq == (a@ == b@),
{
    match compare_keys(a, b) {
        KeyOrder::Equal => true,
        _ => false,
    }
}

/// The keys of `s`, as byte strings.
pub open spec fn keys_of<V>(s: Seq<(Vec<u8>, V)>) -> Seq<Seq<u8>> {
    s.map_values(|e: (Vec<u8>, V)| e.0@)
}

/// The keys ascend strictly.
pub open spec fn strictly_ascending(keys: Seq<Seq<u8>>) -> bool {
    forall|i: int, j: int| 0 <= i < j < keys.len() ==> lex_lt(#[trigger] keys[i], #[trigger] keys[j])
}

/// The map that the entries `s` stand for (each key once, when ascending).
pub open spec fn map_of<V: View>(s: Seq<(Vec<u8>, V)>) -> Map<Seq<u8>, V::V> {
    Map::new(
        |k: Seq<u8>| exists|i: int| 0 <= i < s.len() && #[trigger] s[i].0@ == k,
        |k: Seq<u8>| s[index_of(s, k)].1@,
    )
}

/// A position of the entry with key `k`.
pub open spec fn index_of<V>(s: Seq<(Vec<u8>, V)>, k: Seq<u8>) -> int {
    choose|i: int| 0 <= i < s.len() && #[trigger] s[i].0@ == k
}

/// In ascending entries, the entry at `i` is what the map holds for its key.
pub proof fn lemma_map_of_at<V: View>(s: Seq<(Vec<u8>, V)>, i: int)
    requires
        strictly_ascending(keys_of(s)),
        0 <= i < s.len(),
    ensures
        map_of(s).contains_key(s[i].0@),
        map_of(s)[s[i].0@] == s[i].1@,
{
    let k = s[i].0@;
    assert(0 <= i < s.len() && s[i].0@ == k);
    let j = index_of(s, k);
    assert(keys_of(s)[i] == s[i].0@);
    assert(keys_of(s)[j] == s[j].0@);
    if j != i {
        lemma_lex_trichotomy(s[i].0@, s[j].0@);
        if i < j {
            assert(lex_lt(keys_of(s)[i], keys_of(s)[j]));
        } else {
            assert(lex_lt(keys_of(s)[j], keys_of(s)[i]));
        }
    }
    assert(j == i);
    assert(map_of(s)[k] == s[j].1@);
}

/// Different positions of ascending entries hold different keys.
pub proof fn lemma_distinct_keys<V>(s: Seq<(Vec<u8>, V)>, a: int, b: int)
    requires
        strictly_ascending(keys_of(s)),
        0 <= a < s.len(),
        0 <= b < s.len(),
        a != b,
    ensures
        s[a].0@ != s[b].0@,
{
    assert(keys_of(s)[a] == s[a].0@);
    assert(keys_of(s)[b] == s[b].0@);
    lemma_lex_trichotomy(s[a].0@, s[b].0@);
    if a < b {
        assert(lex_lt(keys_of(s)[a], keys_of(s)[b]));
    } else {
        assert(lex_lt(keys_of(s)[b], keys_of(s)[a]));
    }
}

/// Two ascending entry lists with the same keys at the same places and the same
/// values stand for the same map.
proof fn lemma_map_of_absent<V: View>(s: Seq<(Vec<u8>, V)>, k: Seq<u8>)
    requires
        forall|i: int| 0 <= i < s.len() ==> #[trigger] s[i].0@ != k,
    ensures
        !map_of(s).contains_key(k),
{
}

/// An ordered map from byte strings to values.
///
/// Held as entries in strictly ascending key order rather than a
/// `BTreeMap<Vec<u8>, V>`: vstd specifies `BTreeMap` only for key types whose
/// ordering it models, and it models none for `Vec<u8>`, so the map's operations would
/// come with no contract here.
pub struct KeyMap<V> {
    entries: Vec<(Vec<u8>, V)>,
}

impl<V: View> View for KeyMap<V> {
    type V = Map<Seq<u8>, V::V>;

    closed spec fn view(&self) -> Map<Seq<u8>, V::V> {
        map_of(self.entries@)
    }
}

impl<V> KeyMap<V> {
    #[verifier::type_invariant]
    spec fn ascending(self) -> bool {
        strictly_ascending(keys_of(self.entries@))
    }
}

impl<V: View> KeyMap<V> {
    /// The entries in ascending key order.
    pub closed spec fn entries(self) -> Seq<(Vec<u8>, V)> {
        self.entries@
    }

    pub fn new() -> (m: KeyMap<V>)
        ensures
            m@ == Map::<Seq<u8>, V::V>::empty(),
            m.entries().len() == 0,
    {
        let m = KeyMap { entries: Vec::new() };
        assert(m@ =~= Map::<Seq<u8>, V::V>::empty());
        m
    }

    pub fn len(&self) -> (n: usize)
        ensures
            n == self.entries().len(),
            n == self@.dom().len(),
    {
        proof {
            use_type_invariant(self);
            let s = self.entries@;
            let ks = keys_of(s);
            assert(ks.no_duplicates()) by {
                assert forall|a: int, b: int| 0 <= a < ks.len() && 0 <= b < ks.len() && a != b implies ks[a]
                    != ks[b] by {
                    lemma_distinct_keys(s, a, b);
                }
            }
            ks.unique_seq_to_set();
            assert(self@.dom() =~= ks.to_set()) by {
                assert forall|k: Seq<u8>| #[trigger] self@.dom().contains(k) implies ks.to_set().contains(k) by {
                    let i = choose|i: int| 0 <= i < s.len() && #[trigger] s[i].0@ == k;
                    assert(ks[i] == k);
                }
                assert forall|k: Seq<u8>| #[trigger] ks.to_set().contains(k) implies self@.dom().contains(k) by {
                    let i = choose|i: int| 0 <= i < ks.len() && ks[i] == k;
                    assert(s[i].0@ == k);
                }
            }
        }
        self.entries.len()
    }

    /// The first position whose key is not below `key`, and whether that key is `key`.
    fn find(&self, key: &[u8]) -> (r: (usize, bool))
        ensures
            r.0 <= self.entries@.len(),
            forall|i: int| 0 <= i < r.0 ==> lex_lt(#[trigger] self.entries@[i].0@, key@),
            r.0 < self.entries@.len() ==> lex_le(key@, self.entries@[r.0 as int].0@),
            r.1 <==> (r.0 < self.entries@.len() && self.entries@[r.0 as int].0@ == key@),
    {
        proof {
            use_type_invariant(self);
        }
        let mut i: usize = 0;
        while i < self.entries.len()
            invariant
                i <= self.entries@.len(),
                forall|j: int| 0 <= j < i ==> lex_lt(#[trigger] self.entries@[j].0@, key@),
            decreases self.entries@.len() - i,
        {
            match compare_keys(self.entries[i].0.as_slice(), key) {
                KeyOrder::Less => {},
                KeyOrder::Equal => {
                    return (i, true);
                },
                KeyOrder::Greater => {
                    return (i, false);
                },
            }
            i += 1;
        }
        (i, false)
    }

    /// The value under `key`, if any.
    pub fn get(&self, key: &[u8]) -> (r: Option<&V>)
        ensures
            r is Some <==> self@.contains_key(key@),
            r matches Some(v) ==> v@ == self@[key@],
    {
        proof {
            use_type_invariant(self);
        }
        let (i, found) = self.find(key);
        if found {
            proof {
                lemma_map_of_at(self.entries@, i as int);
            }
            Some(&self.entries[i].1)
        } else {
            proof {
                assert forall|j: int| 0 <= j < self.entries@.len() implies #[trigger] self.entries@[j].0@
                    != key@ by {
                    if j >= i {
                        if j > i {
                            assert(lex_lt(keys_of(self.entries@)[i as int], keys_of(self.entries@)[j]));
                            lemma_lex_trichotomy(key@, self.entries@[i as int].0@);
                            if lex_lt(key@, self.entries@[i as int].0@) {
                                lemma_lex_trans(key@, self.entries@[i as int].0@, self.entries@[j].0@);
                            }
                        }
                        lemma_lex_trichotomy(key@, self.entries@[j].0@);
                    } else {
                        lemma_lex_trichotomy(key@, self.entries@[j].0@);
                    }
                }
            }
            None
        }
    }

    /// Puts `value` under `key`, replacing what was there.
    pub fn insert(&mut self, key: Vec<u8>, value: V)
        ensures
            final(self)@ == old(self)@.insert(key@, value@),
    {
        proof {
            use_type_invariant(&*self);
        }
        let (i, found) = self.find(key.as_slice());
        let ghost old_entries = self.entries@;
        let ghost k = key@;
        let mut entries: Vec<(Vec<u8>, V)> = Vec::new();
        std::mem::swap(&mut entries, &mut self.entries);
        if found {
            entries.set(i, (key, value));
            proof {
                let s = entries@;
                assert(keys_of(s) =~= keys_of(old_entries));
                assert(strictly_ascending(keys_of(s)));
                assert forall|kk: Seq<u8>| #[trigger] map_of(s).contains_key(kk) == old_entries_map_insert_contains(old_entries, k, kk) by {
                    if kk == k {
                        assert(s[i as int].0@ == kk);
                    } else {
                        if exists|j: int| 0 <= j < old_entries.len() && #[trigger] old_entries[j].0@ == kk {
                            let j = choose|j: int| 0 <= j < old_entries.len() && #[trigger] old_entries[j].0@ == kk;
                            assert(s[j].0@ == kk);
                        }
                        if exists|j: int| 0 <= j < s.len() && #[trigger] s[j].0@ == kk {
                            let j = choose|j: int| 0 <= j < s.len() && #[trigger] s[j].0@ == kk;
                            assert(old_entries[j].0@ == kk);
                        }
                    }
                }
                assert forall|kk: Seq<u8>| #[trigger] map_of(s).contains_key(kk) implies map_of(s)[kk]
                    == map_of(old_entries).insert(k, value@)[kk] by {
                    let j = choose|j: int| 0 <= j < s.len() && #[trigger] s[j].0@ == kk;
                    lemma_map_of_at(s, j);
                    if j != i {
                        lemma_map_of_at(old_entries, j);
                        lemma_distinct_keys(s, i as int, j);
                    }
                }
                assert(map_of(s) =~= map_of(old_entries).insert(k, value@));
            }
        } else {
            entries.insert(i, (key, value));
            proof {
                let s = entries@;
                assert forall|a: int, b: int| 0 <= a < b < s.len() implies lex_lt(
                    #[trigger] keys_of(s)[a],
                    #[trigger] keys_of(s)[b],
                ) by {
                    if b < i {
                        assert(lex_lt(keys_of(old_entries)[a], keys_of(old_entries)[b]));
                    } else if b == i {
                        assert(lex_lt(old_entries[a].0@, k));
                    } else if a == i {
                        // k sorts before the entry it was put in front of
                        lemma_lex_trichotomy(k, old_entries[i as int].0@);
                        if b - 1 > i {
                            assert(lex_lt(keys_of(old_entries)[i as int], keys_of(old_entries)[b - 1]));
                            lemma_lex_trans(k, old_entries[i as int].0@, old_entries[b - 1].0@);
                        }
                    } else if a < i {
                        assert(lex_lt(keys_of(old_entries)[a], keys_of(old_entries)[b - 1]));
                    } else {
                        assert(lex_lt(keys_of(old_entries)[a - 1], keys_of(old_entries)[b - 1]));
                    }
                }
                assert forall|kk: Seq<u8>| #[trigger] map_of(s).contains_key(kk) == old_entries_map_insert_contains(old_entries, k, kk) by {
                    if kk == k {
                        assert(s[i as int].0@ == kk);
                    } else {
                        if exists|j: int| 0 <= j < old_entries.len() && #[trigger] old_entries[j].0@ == kk {
                            let j = choose|j: int| 0 <= j < old_entries.len() && #[trigger] old_entries[j].0@ == kk;
                            if j < i {
                                assert(s[j].0@ == kk);
                            } else {
                                assert(s[j + 1].0@ == kk);
                            }
                        }
                        if exists|j: int| 0 <= j < s.len() && #[trigger] s[j].0@ == kk {
                            let j = choose|j: int| 0 <= j < s.len() && #[trigger] s[j].0@ == kk;
                            if j < i {
                                assert(old_entries[j].0@ == kk);
                            } else {
                                assert(old_entries[j - 1].0@ == kk);
                            }
                        }
                    }
                }
                assert forall|kk: Seq<u8>| #[trigger] map_of(s).contains_key(kk) implies map_of(s)[kk]
                    == map_of(old_entries).insert(k, value@)[kk] by {
                    let j = choose|j: int| 0 <= j < s.len() && #[trigger] s[j].0@ == kk;
                    lemma_map_of_at(s, j);
                    if j < i {
                        lemma_map_of_at(old_entries, j);
                        lemma_distinct_keys(s, i as int, j);
                    } else if j > i {
                        lemma_map_of_at(old_entries, j - 1);
                        lemma_distinct_keys(s, i as int, j);
                    }
                }
                assert(map_of(s) =~= map_of(old_entries).insert(k, value@));
            }
        }
        self.entries = entries;
    }

    /// Removes what is under `key`, if anything.
    pub fn remove(&mut self, key: &[u8])
        ensures
            final(self)@ == old(self)@.remove(key@),
    {
        proof {
            use_type_invariant(&*self);
        }
        let (i, found) = self.find(key);
        let ghost old_entries = self.entries@;
        let ghost k = key@;
        if found {
            let mut entries: Vec<(Vec<u8>, V)> = Vec::new();
            std::mem::swap(&mut entries, &mut self.entries);
            let _ = entries.remove(i);
            proof {
                let s = entries@;
                assert forall|a: int, b: int| 0 <= a < b < s.len() implies lex_lt(
                    #[trigger] keys_of(s)[a],
                    #[trigger] keys_of(s)[b],
                ) by {
                    let a0 = if a < i { a } else { a + 1 };
                    let b0 = if b < i { b } else { b + 1 };
                    assert(lex_lt(keys_of(old_entries)[a0], keys_of(old_entries)[b0]));
                }
                assert forall|kk: Seq<u8>| #[trigger] map_of(s).contains_key(kk) == (map_of(old_entries).contains_key(kk) && kk != k) by {
                    if exists|j: int| 0 <= j < s.len() && #[trigger] s[j].0@ == kk {
                        let j = choose|j: int| 0 <= j < s.len() && #[trigger] s[j].0@ == kk;
                        let j0 = if j < i { j } else { j + 1 };
                        assert(old_entries[j0].0@ == kk);
                        assert(lex_lt(keys_of(old_entries)[if j0 < i { j0 } else { i as int }], keys_of(old_entries)[if j0 < i { i as int } else { j0 }]));
                        lemma_lex_trichotomy(kk, k);
                    }
                    if kk != k && exists|j: int| 0 <= j < old_entries.len() && #[trigger] old_entries[j].0@ == kk {
                        let j = choose|j: int| 0 <= j < old_entries.len() && #[trigger] old_entries[j].0@ == kk;
                        if j < i {
                            assert(s[j].0@ == kk);
                        } else {
                            assert(s[j - 1].0@ == kk);
                        }
                    }
                }
                assert forall|kk: Seq<u8>| #[trigger] map_of(s).contains_key(kk) implies map_of(s)[kk]
                    == map_of(old_entries)[kk] by {
                    let j = choose|j: int| 0 <= j < s.len() && #[trigger] s[j].0@ == kk;
                    lemma_map_of_at(s, j);
                    if j < i {
                        lemma_map_of_at(old_entries, j);
                    } else {
                        lemma_map_of_at(old_entries, j + 1);
                    }
                }
                assert(map_of(s) =~= map_of(old_entries).remove(k));
            }
            self.entries = entries;
        } else {
            proof {
                assert forall|j: int| 0 <= j < old_entries.len() implies #[trigger] old_entries[j].0@ != k by {
                    lemma_lex_trichotomy(k, old_entries[j].0@);
                    if j > i {
                        assert(lex_lt(keys_of(old_entries)[i as int], keys_of(old_entries)[j]));
                        lemma_lex_trichotomy(k, old_entries[i as int].0@);
                        if lex_lt(k, old_entries[i as int].0@) {
                            lemma_lex_trans(k, old_entries[i as int].0@, old_entries[j].0@);
                        }
                    }
                }
                lemma_map_of_absent(old_entries, k);
                assert(map_of(old_entries) =~= map_of(old_entries).remove(k));
            }
        }
    }

    /// Whether the map holds no key.
    pub fn is_empty(&self) -> (b: bool)
        ensures
            b <==> self@.dom() == Set::<Seq<u8>>::empty(),
    {
        if self.entries.len() == 0 {
            assert(self@.dom() =~= Set::<Seq<u8>>::empty());
            true
        } else {
            assert(self@.contains_key(self.entries@[0].0@));
            false
        }
    }

    /// The keys in ascending order.
    pub fn key_list(&self) -> (v: Vec<Vec<u8>>)
        ensures
            v@.map_values(|k: Vec<u8>| k@) == keys_of(self.entries()),
            strictly_ascending(v@.map_values(|k: Vec<u8>| k@)),
            forall|k: Seq<u8>| #[trigger] self@.contains_key(k) <==> v@.map_values(|k: Vec<u8>| k@).contains(k),
    {
        proof {
            use_type_invariant(self);
        }
        let mut out: Vec<Vec<u8>> = Vec::new();
        let mut i: usize = 0;
        while i < self.entries.len()
            invariant
                i <= self.entries@.len(),
                out@.len() == i,
                forall|a: int| 0 <= a < i ==> #[trigger] out@[a]@ == self.entries@[a].0@,
            decreases self.entries@.len() - i,
        {
            out.push(crate::bytes::copy_prefix(self.entries[i].0.as_slice(), self.entries[i].0.len()));
            proof {
                let e = self.entries@[i as int].0@;
                assert(e.subrange(0, e.len() as int) =~= e);
            }
            i += 1;
        }
        proof {
            let ov = out@.map_values(|k: Vec<u8>| k@);
            assert(ov =~= keys_of(self.entries@));
            assert forall|k: Seq<u8>| #[trigger] self@.contains_key(k) <==> ov.contains(k) by {
                if ov.contains(k) {
                    let a = choose|a: int| 0 <= a < ov.len() && ov[a] == k;
                    assert(self.entries@[a].0@ == k);
                }
                if self@.contains_key(k) {
                    let a = choose|a: int| 0 <= a < self.entries@.len() && #[trigger] self.entries@[a].0@ == k;
                    assert(ov[a] == k);
                }
            }
        }
        out
    }

    /// The entries in ascending key order.
    pub fn into_entries(self) -> (v: Vec<(Vec<u8>, V)>)
        ensures
            v@ == self.entries(),
            strictly_ascending(keys_of(v@)),
            map_of(v@) == self@,
    {
        proof {
            use_type_invariant(&self);
        }
        self.entries
    }

    /// The entries, borrowed, in ascending key order.
    pub fn as_entries(&self) -> (v: &Vec<(Vec<u8>, V)>)
        ensures
            v@ == self.entries(),
            strictly_ascending(keys_of(v@)),
            map_of(v@) == self@,
    {
        proof {
            use_type_invariant(self);
        }
        &self.entries
    }
}

spec fn old_entries_map_insert_contains<V: View>(old: Seq<(Vec<u8>, V)>, k: Seq<u8>, kk: Seq<u8>) -> bool {
    map_of(old).insert(k, arbitrary_value::<V>()).contains_key(kk)
}

spec fn arbitrary_value<V: View>() -> V::V {
    vstd::pervasive::arbitrary()
}

} // verus!
