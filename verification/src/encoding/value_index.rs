//! Keys of the value index and the order-preserving encoding of values.
//!
//! An index entry has the key `table_id(16) ‖ vkey ‖ flex_id(14)` and no value. The
//! region sits at a fixed length at the end, so it can be cut off without knowing the
//! length of the value before it.

use vstd::prelude::*;

use super::{in_range, lemma_prefix_end_covers_exactly, prefix_end, spec_prefix_end, UUID_LEN};
use crate::bytes::{
    append_bytes, first_diff_lt, is_prefix, lemma_lex_trans, lemma_lex_trichotomy,
    lemma_prefix_le, lex_le, lex_lt,
};
use crate::models::{AppError, FlexId, Stored, TableDataType, TableId, FLEX_ID_LEN};

verus! {

/// `Int` values are stored big-endian; only their sign bit is flipped, so that
/// negative numbers sort before positive ones. Every other type sorts as stored.
pub open spec fn spec_order_preserving(data_type: TableDataType, value: Seq<u8>) -> Seq<u8> {
    match data_type {
        TableDataType::Int => if value.len() > 0 {
            value.update(0, value[0] ^ 0x80)
        } else {
            value
        },
        _ => value,
    }
}

pub fn order_preserving(data_type: TableDataType, value: &[u8]) -> (key: Vec<u8>)
    ensures
        key@ == spec_order_preserving(data_type, value@),
{
    let mut key = vstd::slice::slice_to_vec(value);
    match data_type {
        TableDataType::Int => {
            if key.len() > 0 {
                let b0 = key[0];
                key.set(0, b0 ^ 0x80);
            }
        },
        TableDataType::Text | TableDataType::Boolean | TableDataType::Enum
        | TableDataType::Presence => {},
    }
    key
}

/// `table_id ‖ vkey ‖ flex_id`
pub fn make_key(table_id: TableId, vkey: &[u8], flexid: &FlexId) -> (key: Vec<u8>)
    ensures
        key@ == table_id@ + vkey@ + flexid@,
{
    let mut key: Vec<u8> = Vec::new();
    append_bytes(&mut key, table_id.into_bytes().as_slice());
    append_bytes(&mut key, vkey);
    append_bytes(&mut key, flexid.encode().as_slice());
    key
}

/// `table_id ‖ vkey`
pub fn make_prefix(table_id: TableId, vkey: &[u8]) -> (prefix: Vec<u8>)
    ensures
        prefix@ == table_id@ + vkey@,
{
    let mut prefix: Vec<u8> = Vec::new();
    append_bytes(&mut prefix, table_id.into_bytes().as_slice());
    append_bytes(&mut prefix, vkey);
    prefix
}

/// The region at the end of an index key. A key too short to hold a table and a
/// region is corrupt.
pub fn flexid_from_key(key: &[u8]) -> (r: Result<FlexId, AppError>)
    ensures
        r is Ok <==> key@.len() >= UUID_LEN + FLEX_ID_LEN,
        r matches Ok(f) ==> f@ == key@.subrange(key@.len() - FLEX_ID_LEN, key@.len() as int),
        r matches Err(e) ==> e matches AppError::Corrupt { what: Stored::ValueIndex, .. },
{
    if key.len() < UUID_LEN + FLEX_ID_LEN {
        return Err(AppError::corrupt(Stored::ValueIndex, "key is too short"));
    }
    let len = key.len();
    let start = len - FLEX_ID_LEN;
    let mut bytes = [0u8; 14];
    let mut i: usize = 0;
    while i < FLEX_ID_LEN
        invariant
            i <= FLEX_ID_LEN,
            len == key@.len(),
            start + FLEX_ID_LEN == len,
            forall|j: int| 0 <= j < i ==> bytes@[j] == key@[start + j],
        decreases FLEX_ID_LEN - i,
    {
        bytes[i] = key[start + i];
        i += 1;
    }
    assert(bytes@ =~= key@.subrange(key@.len() - FLEX_ID_LEN, key@.len() as int));
    Ok(FlexId(bytes))
}

/// The encoded value inside an index key, between the table and the region.
pub fn vkey_from_key(key: &[u8]) -> (r: Result<&[u8], AppError>)
    ensures
        r is Ok <==> key@.len() >= UUID_LEN + FLEX_ID_LEN,
        r matches Ok(v) ==> v@ == key@.subrange(UUID_LEN as int, key@.len() - FLEX_ID_LEN),
        r matches Err(e) ==> e matches AppError::Corrupt { what: Stored::ValueIndex, .. },
{
    if key.len() < UUID_LEN + FLEX_ID_LEN {
        return Err(AppError::corrupt(Stored::ValueIndex, "key is too short"));
    }
    Ok(vstd::slice::slice_subrange(key, UUID_LEN, key.len() - FLEX_ID_LEN))
}

/// Length of the longest common prefix of `a` and `b`.
pub open spec fn common_len(a: Seq<u8>, b: Seq<u8>) -> nat
    decreases a.len(),
{
    if a.len() == 0 || b.len() == 0 || a[0] != b[0] {
        0
    } else {
        1 + common_len(a.drop_first(), b.drop_first())
    }
}

/// `c` is the length of the longest common prefix of `a` and `b`.
pub open spec fn is_common_len(a: Seq<u8>, b: Seq<u8>, c: int) -> bool {
    &&& 0 <= c <= a.len()
    &&& c <= b.len()
    &&& forall|j: int| 0 <= j < c ==> a[j] == b[j]
    &&& (c < a.len() && c < b.len() ==> a[c] != b[c])
}

proof fn lemma_common_len(a: Seq<u8>, b: Seq<u8>)
    ensures
        is_common_len(a, b, common_len(a, b) as int),
        forall|c: int| is_common_len(a, b, c) ==> c == common_len(a, b),
    decreases a.len(),
{
    if a.len() == 0 || b.len() == 0 || a[0] != b[0] {
    } else {
        let a1 = a.drop_first();
        let b1 = b.drop_first();
        lemma_common_len(a1, b1);
        assert forall|j: int| 0 <= j < common_len(a, b) implies a[j] == b[j] by {
            if j > 0 {
                assert(a[j] == a1[j - 1] && b[j] == b1[j - 1]);
            }
        }
        assert forall|c: int| is_common_len(a, b, c) implies c == common_len(a, b) by {
            if c > 0 {
                assert(is_common_len(a1, b1, c - 1)) by {
                    assert forall|j: int| 0 <= j < c - 1 implies a1[j] == b1[j] by {
                        assert(a[j + 1] == b[j + 1]);
                    }
                }
            }
        }
    }
}

fn common_prefix_len(a: &[u8], b: &[u8]) -> (c: usize)
    ensures
        c == common_len(a@, b@),
        c <= a@.len(),
        c <= b@.len(),
{
    let mut i: usize = 0;
    while i < a.len() && i < b.len() && a[i] == b[i]
        invariant
            i <= a@.len(),
            i <= b@.len(),
            forall|j: int| 0 <= j < i ==> a@[j] == b@[j],
        decreases a@.len() - i,
    {
        i += 1;
    }
    proof {
        lemma_common_len(a@, b@);
        assert(is_common_len(a@, b@, i as int));
    }
    i
}

/// How much of `hi` the upper bound keeps: the common prefix of `lo` and `hi` and the
/// one byte after it, or the common prefix alone when it is all of `lo`.
pub open spec fn spec_upper_keep(lo: Seq<u8>, hi: Seq<u8>) -> int {
    let c = common_len(lo, hi) as int;
    let keep = if lo.len() == c {
        c
    } else {
        c + 1
    };
    if keep < hi.len() {
        keep
    } else {
        hi.len() as int
    }
}

/// `(start, end)` of the scan for values from `lo` to `hi`, both included.
pub open spec fn spec_range_scan_bounds(t: Seq<u8>, lo: Seq<u8>, hi: Seq<u8>) -> (
    Seq<u8>,
    Option<Seq<u8>>,
) {
    (t + lo, spec_prefix_end(t + hi.subrange(0, spec_upper_keep(lo, hi))))
}

/// The scan range of the index keys whose value lies between `lo` and `hi` (both
/// included): a lower bound (included) and an upper bound (excluded, `None` for none).
///
/// The range holds every such key but may hold others too, because the value is
/// stored at variable length right before the region: callers filter again with
/// [`vkey_from_key`].
pub fn range_scan_bounds(table_id: TableId, lo_vkey: &[u8], hi_vkey: &[u8]) -> (r: (
    Vec<u8>,
    Option<Vec<u8>>,
))
    ensures
        r.0@ == spec_range_scan_bounds(table_id@, lo_vkey@, hi_vkey@).0,
        match r.1 {
            Some(e) => spec_range_scan_bounds(table_id@, lo_vkey@, hi_vkey@).1 == Some(e@),
            None => spec_range_scan_bounds(table_id@, lo_vkey@, hi_vkey@).1 is None,
        },
{
    let start = make_prefix(table_id, lo_vkey);
    let common = common_prefix_len(lo_vkey, hi_vkey);
    let keep = if lo_vkey.len() == common {
        common
    } else {
        common + 1
    };
    let k = if keep < hi_vkey.len() {
        keep
    } else {
        hi_vkey.len()
    };
    let head = vstd::slice::slice_subrange(hi_vkey, 0, k);
    let end = prefix_end(make_prefix(table_id, head).as_slice());
    (start, end)
}

/// Every index key whose value lies between `lo` and `hi` falls inside the range of
/// [`range_scan_bounds`], whatever region follows the value.
pub proof fn lemma_range_scan_covers(t: Seq<u8>, lo: Seq<u8>, hi: Seq<u8>, v: Seq<u8>, f: Seq<u8>)
    requires
        lex_le(lo, v),
        lex_le(v, hi),
    ensures
        in_range(
            t + v + f,
            spec_range_scan_bounds(t, lo, hi).0,
            spec_range_scan_bounds(t, lo, hi).1,
        ),
{
    let key = t + v + f;
    let tl = t.len() as int;
    assert forall|j: int| 0 <= j < v.len() implies #[trigger] key[tl + j] == v[j] by {}
    assert forall|j: int| 0 <= j < tl implies #[trigger] key[j] == t[j] by {}
    // lower bound
    let start = t + lo;
    if lo =~= v {
        assert(is_prefix(start, key)) by {
            assert(key.subrange(0, start.len() as int) =~= start);
        }
        lemma_prefix_le(start, key);
    } else if lo.len() < v.len() && is_prefix(lo, v) {
        assert(is_prefix(start, key)) by {
            assert forall|j: int| 0 <= j < start.len() implies key.subrange(0, start.len() as int)[j]
                == start[j] by {
                if j >= tl {
                    assert(v.subrange(0, lo.len() as int)[j - tl] == lo[j - tl]);
                }
            }
            assert(key.subrange(0, start.len() as int) =~= start);
        }
        lemma_prefix_le(start, key);
    } else {
        let i = choose|i: int| #[trigger] first_diff_lt(lo, v, i);
        assert(first_diff_lt(start, key, tl + i));
    }
    // upper bound
    let k = spec_upper_keep(lo, hi);
    let p = t + hi.subrange(0, k);
    lemma_prefix_end_covers_exactly(p, key);
    lemma_prefix_end_covers_exactly(p, p);
    lemma_common_len(lo, hi);
    let c = common_len(lo, hi) as int;
    assert(p.subrange(0, p.len() as int) =~= p);
    // either the key extends `p` or it sorts before it
    let extends = is_prefix(p, key);
    if !extends {
        if v =~= hi {
            assert(key.subrange(0, p.len() as int) =~= p);
        } else if v.len() < hi.len() && is_prefix(v, hi) {
            if v.len() >= k {
                assert(key.subrange(0, p.len() as int) =~= p) by {
                    assert forall|j: int| 0 <= j < p.len() implies key.subrange(0, p.len() as int)[j]
                        == p[j] by {
                        if j >= tl {
                            assert(hi.subrange(0, v.len() as int)[j - tl] == v[j - tl]);
                        }
                    }
                }
            } else {
                // `v` would be a proper prefix of `lo`, below it
                assert forall|j: int| 0 <= j < v.len() implies lo[j] == v[j] by {
                    assert(hi.subrange(0, v.len() as int)[j] == v[j]);
                }
                assert(v.len() < lo.len());
                assert(lo.subrange(0, v.len() as int) =~= v);
                assert(lex_lt(v, lo));
                lemma_lex_trichotomy(v, lo);
            }
        } else {
            let i = choose|i: int| #[trigger] first_diff_lt(v, hi, i);
            if i >= k {
                assert(key.subrange(0, p.len() as int) =~= p) by {
                    assert forall|j: int| 0 <= j < p.len() implies key.subrange(0, p.len() as int)[j]
                        == p[j] by {
                        if j >= tl {
                            assert(v[j - tl] == hi[j - tl]);
                        }
                    }
                }
            } else {
                assert(first_diff_lt(key, p, tl + i));
                match spec_prefix_end(p) {
                    Some(e) => {
                        lemma_lex_trans(key, p, e);
                    },
                    None => {},
                }
            }
        }
    }
}

/// `256^n`.
pub open spec fn pow256(n: nat) -> nat
    decreases n,
{
    if n == 0 {
        1
    } else {
        256 * pow256((n - 1) as nat)
    }
}

/// The unsigned big-endian value of `s`.
pub open spec fn unsigned_be(s: Seq<u8>) -> nat
    decreases s.len(),
{
    if s.len() == 0 {
        0
    } else {
        unsigned_be(s.drop_last()) * 256 + s.last() as nat
    }
}

/// The two's complement big-endian value of `s`: negative when its top bit is set.
pub open spec fn signed_be(s: Seq<u8>) -> int {
    if s.len() > 0 && s[0] >= 128 {
        unsigned_be(s) - pow256(s.len())
    } else {
        unsigned_be(s) as int
    }
}

/// The first byte weighs `256^(n-1)`.
pub proof fn lemma_unsigned_be_first(s: Seq<u8>)
    requires
        s.len() > 0,
    ensures
        unsigned_be(s) == s[0] as nat * pow256((s.len() - 1) as nat) + unsigned_be(s.subrange(1, s.len() as int)),
    decreases s.len(),
{
    if s.len() == 1 {
        assert(s.subrange(1, 1) =~= Seq::<u8>::empty());
        assert(s.drop_last() =~= Seq::<u8>::empty());
        assert(s.last() == s[0]);
        assert(unsigned_be(Seq::<u8>::empty()) == 0);
        assert(pow256(0) == 1);
        assert(unsigned_be(s) == unsigned_be(s.drop_last()) * 256 + s.last() as nat);
        let x0 = s[0] as nat;
        let one = pow256(0);
        assert(x0 * one == x0) by (nonlinear_arith)
            requires
                one == 1,
        ;
    } else {
        let init = s.drop_last();
        lemma_unsigned_be_first(init);
        assert(init[0] == s[0]);
        let t = s.subrange(1, s.len() as int);
        let ti = init.subrange(1, init.len() as int);
        assert(t.drop_last() =~= ti);
        assert(t.last() == s.last());
        assert(unsigned_be(t) == unsigned_be(ti) * 256 + s.last() as nat);
        assert(unsigned_be(s) == unsigned_be(init) * 256 + s.last() as nat);
        let p = pow256((s.len() - 2) as nat);
        assert((init.len() - 1) as nat == (s.len() - 2) as nat);
        assert(pow256((init.len() - 1) as nat) == p);
        assert(pow256((s.len() - 1) as nat) == 256 * p);
        let (x0, u, l) = (s[0] as nat, unsigned_be(ti), s.last() as nat);
        assert((x0 * p + u) * 256 + l == x0 * (256 * p) + (u * 256 + l)) by (nonlinear_arith);
    }
}

/// Byte strings of one length compare as their unsigned big-endian values.
pub proof fn lemma_lex_is_unsigned_order(a: Seq<u8>, b: Seq<u8>)
    requires
        a.len() == b.len(),
    ensures
        lex_lt(a, b) <==> unsigned_be(a) < unsigned_be(b),
        a =~= b <==> unsigned_be(a) == unsigned_be(b),
    decreases a.len(),
{
    if a.len() == 0 {
        assert(a =~= b);
        assert(!lex_lt(a, b)) by {
            lemma_lex_trichotomy(a, b);
        }
    } else {
        let (a0, b0) = (a.drop_last(), b.drop_last());
        let (x, y) = (a.last(), b.last());
        lemma_lex_is_unsigned_order(a0, b0);
        let n = a0.len() as int;
        // The order of the pushed strings: the prefixes decide, unless they are equal.
        assert(lex_lt(a, b) <==> (lex_lt(a0, b0) || (a0 =~= b0 && x < y))) by {
            if lex_lt(a0, b0) {
                assert(!(a0.len() < b0.len()));
                let i = choose|i: int| #[trigger] first_diff_lt(a0, b0, i);
                assert forall|j: int| 0 <= j < i implies a[j] == b[j] by {
                    assert(a[j] == a0[j]);
                    assert(b[j] == b0[j]);
                }
                assert(a[i] == a0[i] && b[i] == b0[i]);
                assert(first_diff_lt(a, b, i));
            }
            if a0 =~= b0 && x < y {
                assert forall|j: int| 0 <= j < n implies a[j] == b[j] by {
                    assert(a[j] == a0[j]);
                    assert(b[j] == b0[j]);
                }
                assert(first_diff_lt(a, b, n));
            }
            if lex_lt(a, b) {
                let i = choose|i: int| #[trigger] first_diff_lt(a, b, i);
                if i < n {
                    assert(first_diff_lt(a0, b0, i));
                } else {
                    assert(a0 =~= b0);
                }
            }
        }
        assert(a =~= b <==> (a0 =~= b0 && x == y)) by {
            if a =~= b {
                assert(a0 =~= b0);
            }
            if a0 =~= b0 && x == y {
                assert(a =~= a0.push(x));
                assert(b =~= b0.push(y));
            }
        }
        let (va, vb) = (unsigned_be(a0), unsigned_be(b0));
        assert(unsigned_be(a) == va * 256 + x as nat);
        assert(unsigned_be(b) == vb * 256 + y as nat);
        assert(va < vb ==> va * 256 + x < vb * 256 + y) by (nonlinear_arith)
            requires
                x < 256,
                y < 256,
        ;
        assert(vb < va ==> vb * 256 + y < va * 256 + x) by (nonlinear_arith)
            requires
                x < 256,
                y < 256,
        ;
    }
}

/// The value order of integers is the byte order of their encoding: for two
/// big-endian two's complement integers of the same width, the smaller value has the
/// smaller encoded key. Negative numbers thus come before zero and the positive ones.
pub proof fn lemma_int_encoding_preserves_order(a: Seq<u8>, b: Seq<u8>)
    requires
        a.len() == b.len(),
        a.len() > 0,
    ensures
        signed_be(a) < signed_be(b) <==> lex_lt(
            spec_order_preserving(TableDataType::Int, a),
            spec_order_preserving(TableDataType::Int, b),
        ),
{
    let n = a.len();
    let half = pow256((n - 1) as nat) * 128;
    assert forall|s: Seq<u8>| s.len() == n implies #[trigger] unsigned_be(spec_order_preserving(TableDataType::Int, s))
        == signed_be(s) + half by {
        let e = spec_order_preserving(TableDataType::Int, s);
        lemma_unsigned_be_first(s);
        lemma_unsigned_be_first(e);
        assert(e.subrange(1, n as int) =~= s.subrange(1, n as int));
        let b0 = s[0];
        assert(e[0] == b0 ^ 0x80);
        assert(b0 >= 128 ==> b0 ^ 0x80 == b0 - 128) by (bit_vector);
        assert(b0 < 128 ==> b0 ^ 0x80 == b0 + 128) by (bit_vector);
        let p = pow256((n - 1) as nat);
        assert(pow256(n as nat) == 256 * p);
        assert(b0 >= 128 ==> (b0 - 128) * p == b0 * p - 256 * p + 128 * p) by (nonlinear_arith);
        assert(b0 < 128 ==> (b0 + 128) * p == b0 * p + 128 * p) by (nonlinear_arith);
    }
    let ea = spec_order_preserving(TableDataType::Int, a);
    let eb = spec_order_preserving(TableDataType::Int, b);
    lemma_lex_is_unsigned_order(ea, eb);
}

/// Only integers are re-encoded: the index key of a text, boolean, enum or presence
/// value is its bytes unchanged, so such values compare in the index exactly as their
/// bytes do. Every key has the length of its value.
pub proof fn lemma_other_types_keep_bytes(data_type: TableDataType, a: Seq<u8>, b: Seq<u8>)
    ensures
        spec_order_preserving(data_type, a).len() == a.len(),
        !(data_type is Int) ==> spec_order_preserving(data_type, a) == a,
        !(data_type is Int) ==> (lex_lt(a, b) <==> lex_lt(
            spec_order_preserving(data_type, a),
            spec_order_preserving(data_type, b),
        )),
{
}

} // verus!
