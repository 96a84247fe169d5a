//! Byte strings as keys: prefixes and the lexicographic order in which every
//! key-value backend of this crate keeps its keys.

use vstd::prelude::*;

verus! {

/// `p` is a prefix of `s` (possibly all of it).
pub open spec fn is_prefix(p: Seq<u8>, s: Seq<u8>) -> bool {
    p.len() <= s.len() && s.subrange(0, p.len() as int) =~= p
}

/// `a` and `b` agree before position `i`, and at `i` the byte of `a` is smaller.
pub open spec fn first_diff_lt(a: Seq<u8>, b: Seq<u8>, i: int) -> bool {
    &&& 0 <= i < a.len()
    &&& i < b.len()
    &&& forall|j: int| 0 <= j < i ==> a[j] == b[j]
    &&& a[i] < b[i]
}

/// Strict byte-wise lexicographic order, the order of `[u8]` in Rust.
pub open spec fn lex_lt(a: Seq<u8>, b: Seq<u8>) -> bool {
    ||| (a.len() < b.len() && is_prefix(a, b))
    ||| exists|i: int| #[trigger] first_diff_lt(a, b, i)
}

pub open spec fn lex_le(a: Seq<u8>, b: Seq<u8>) -> bool {
    lex_lt(a, b) || a =~= b
}

/// Exactly one of `a < b`, `a == b`, `b < a` holds.
pub proof fn lemma_lex_trichotomy(a: Seq<u8>, b: Seq<u8>)
    ensures
        lex_lt(a, b) || a =~= b || lex_lt(b, a),
        !(lex_lt(a, b) && lex_lt(b, a)),
        !(lex_lt(a, b) && a =~= b),
{
    let n: int = if a.len() < b.len() {
        a.len() as int
    } else {
        b.len() as int
    };
    // find the first position where they differ, if any
    if forall|j: int| 0 <= j < n ==> a[j] == b[j] {
        if a.len() < b.len() {
            assert(is_prefix(a, b));
        } else if b.len() < a.len() {
            assert(is_prefix(b, a));
        } else {
            assert(a =~= b);
        }
    } else {
        lemma_first_difference(a, b, n);
        let i = choose|i: int| 0 <= i < n && a[i] != b[i] && forall|j: int| 0 <= j < i ==> a[j] == b[j];
        if a[i] < b[i] {
            assert(first_diff_lt(a, b, i));
        } else {
            assert(first_diff_lt(b, a, i));
        }
    }
    lemma_lex_asym(a, b);
    if lex_lt(a, b) && a =~= b {
        if exists|i: int| #[trigger] first_diff_lt(a, b, i) {
            let i = choose|i: int| #[trigger] first_diff_lt(a, b, i);
            assert(a[i] == b[i]);
        }
    }
}

pub proof fn lemma_first_difference(a: Seq<u8>, b: Seq<u8>, n: int)
    requires
        0 <= n <= a.len(),
        n <= b.len(),
        exists|k: int| 0 <= k < n && a[k] != b[k],
    ensures
        exists|i: int| 0 <= i < n && a[i] != b[i] && forall|j: int| 0 <= j < i ==> a[j] == b[j],
    decreases n,
{
    if forall|k: int| 0 <= k < n - 1 ==> a[k] == b[k] {
        assert(a[n - 1] != b[n - 1]);
        assert(0 <= n - 1 < n && a[n - 1] != b[n - 1] && forall|j: int| 0 <= j < n - 1 ==> a[j] == b[j]);
    } else {
        lemma_first_difference(a, b, n - 1);
        let i = choose|i: int| 0 <= i < n - 1 && a[i] != b[i] && forall|j: int| 0 <= j < i ==> a[j] == b[j];
        assert(0 <= i < n && a[i] != b[i] && forall|j: int| 0 <= j < i ==> a[j] == b[j]);
    }
}

proof fn lemma_lex_asym(a: Seq<u8>, b: Seq<u8>)
    ensures
        !(lex_lt(a, b) && lex_lt(b, a)),
{
    if lex_lt(a, b) && lex_lt(b, a) {
        if a.len() < b.len() && is_prefix(a, b) {
            if b.len() < a.len() && is_prefix(b, a) {
            } else {
                let i = choose|i: int| #[trigger] first_diff_lt(b, a, i);
                assert(b.subrange(0, a.len() as int)[i] == a[i]);
            }
        } else {
            let i = choose|i: int| #[trigger] first_diff_lt(a, b, i);
            if b.len() < a.len() && is_prefix(b, a) {
                assert(a.subrange(0, b.len() as int)[i] == b[i]);
            } else {
                let k = choose|k: int| #[trigger] first_diff_lt(b, a, k);
                if i < k {
                    assert(b[i] == a[i]);
                } else if k < i {
                    assert(a[k] == b[k]);
                }
            }
        }
    }
}

/// A key that extends `p` never sorts before `p`.
pub proof fn lemma_prefix_le(p: Seq<u8>, k: Seq<u8>)
    requires
        is_prefix(p, k),
    ensures
        lex_le(p, k),
{
    if p.len() == k.len() {
        assert(p =~= k);
    }
}

/// If `a` and `b` share the prefix `p` and `p` is followed by smaller bytes in `a`,
/// appending stays ordered: `p ++ x < p ++ y` whenever `x < y`.
pub proof fn lemma_lex_lt_common_prefix(p: Seq<u8>, x: Seq<u8>, y: Seq<u8>)
    requires
        lex_lt(x, y),
    ensures
        lex_lt(p + x, p + y),
{
    let a = p + x;
    let b = p + y;
    if x.len() < y.len() && is_prefix(x, y) {
        assert(b.subrange(0, a.len() as int) =~= a) by {
            assert forall|j: int| 0 <= j < a.len() implies b.subrange(0, a.len() as int)[j] == a[j] by {
                if j >= p.len() {
                    assert(y.subrange(0, x.len() as int)[j - p.len()] == x[j - p.len()]);
                }
            }
        }
    } else {
        let i = choose|i: int| #[trigger] first_diff_lt(x, y, i);
        assert(first_diff_lt(a, b, p.len() + i));
    }
}

/// Putting the same prefix in front keeps `x <= y`.
pub proof fn lemma_lex_le_common_prefix(p: Seq<u8>, x: Seq<u8>, y: Seq<u8>)
    requires
        lex_le(x, y),
    ensures
        lex_le(p + x, p + y),
{
    if lex_lt(x, y) {
        lemma_lex_lt_common_prefix(p, x, y);
    } else {
        assert(p + x =~= p + y);
    }
}

/// The order is transitive.
pub proof fn lemma_lex_trans(a: Seq<u8>, b: Seq<u8>, c: Seq<u8>)
    requires
        lex_lt(a, b),
        lex_lt(b, c),
    ensures
        lex_lt(a, c),
{
    if a.len() < b.len() && is_prefix(a, b) {
        if b.len() < c.len() && is_prefix(b, c) {
            assert(c.subrange(0, a.len() as int) =~= a) by {
                assert forall|j: int| 0 <= j < a.len() implies c.subrange(0, a.len() as int)[j] == a[j] by {
                    assert(c.subrange(0, b.len() as int)[j] == b[j]);
                    assert(b.subrange(0, a.len() as int)[j] == a[j]);
                }
            }
        } else {
            let i = choose|i: int| #[trigger] first_diff_lt(b, c, i);
            if i < a.len() {
                assert forall|j: int| 0 <= j < i implies a[j] == c[j] by {
                    assert(b.subrange(0, a.len() as int)[j] == a[j]);
                }
                assert(b.subrange(0, a.len() as int)[i] == a[i]);
                assert(first_diff_lt(a, c, i));
            } else {
                assert(c.subrange(0, a.len() as int) =~= a) by {
                    assert forall|j: int| 0 <= j < a.len() implies c.subrange(0, a.len() as int)[j] == a[j] by {
                        assert(b.subrange(0, a.len() as int)[j] == a[j]);
                    }
                }
            }
        }
    } else {
        let i = choose|i: int| #[trigger] first_diff_lt(a, b, i);
        if b.len() < c.len() && is_prefix(b, c) {
            assert forall|j: int| 0 <= j <= i implies b[j] == c[j] by {
                assert(c.subrange(0, b.len() as int)[j] == b[j]);
            }
            assert(first_diff_lt(a, c, i));
        } else {
            let k = choose|k: int| #[trigger] first_diff_lt(b, c, k);
            if i <= k {
                assert(first_diff_lt(a, c, i));
            } else {
                assert(first_diff_lt(a, c, k));
            }
        }
    }
}

/// Appends `src` to `out`.
pub fn append_bytes(out: &mut Vec<u8>, src: &[u8])
    ensures
        final(out)@ == old(out)@ + src@,
{
    let ghost start = out@;
    let mut i: usize = 0;
    while i < src.len()
        invariant
            i <= src@.len(),
            out@ == start + src@.subrange(0, i as int),
        decreases src@.len() - i,
    {
        out.push(src[i]);
        i += 1;
        assert(out@ =~= start + src@.subrange(0, i as int));
    }
    assert(src@.subrange(0, src@.len() as int) =~= src@);
}

/// The first `n` bytes of `src`, copied.
pub fn copy_prefix(src: &[u8], n: usize) -> (v: Vec<u8>)
    requires
        n <= src@.len(),
    ensures
        v@ == src@.subrange(0, n as int),
{
    let mut v: Vec<u8> = Vec::new();
    let mut i: usize = 0;
    while i < n
        invariant
            i <= n,
            n <= src@.len(),
            v@ == src@.subrange(0, i as int),
        decreases n - i,
    {
        v.push(src[i]);
        i += 1;
        assert(v@ =~= src@.subrange(0, i as int));
    }
    v
}

/// The bytes of `src` from `from` to `to`, copied.
pub fn copy_range(src: &[u8], from: usize, to: usize) -> (v: Vec<u8>)
    requires
        from <= to <= src@.len(),
    ensures
        v@ == src@.subrange(from as int, to as int),
{
    let mut v: Vec<u8> = Vec::new();
    let mut i: usize = from;
    while i < to
        invariant
            from <= i <= to,
            to <= src@.len(),
            v@ == src@.subrange(from as int, i as int),
        decreases to - i,
    {
        v.push(src[i]);
        i += 1;
        assert(v@ =~= src@.subrange(from as int, i as int));
    }
    v
}

/// Whether `s` starts with `p`.
pub fn starts_with(s: &[u8], p: &[u8]) -> (b: bool)
    ensures
        b == is_prefix(p@, s@),
{
    if p.len() > s.len() {
        return false;
    }
    let mut i: usize = 0;
    while i < p.len()
        invariant
            i <= p@.len(),
            p@.len() <= s@.len(),
            forall|j: int| 0 <= j < i ==> s@[j] == p@[j],
        decreases p@.len() - i,
    {
        if s[i] != p[i] {
            assert(s@.subrange(0, p@.len() as int)[i as int] != p@[i as int]);
            return false;
        }
        i += 1;
    }
    assert(s@.subrange(0, p@.len() as int) =~= p@);
    true
}

} // verus!
