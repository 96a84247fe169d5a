//! The value index of the single-node store, over every value type it knows.
//!
//! An entry has the key `table_id(16) ‖ enc(value) ‖ region(14)` and no value.
//! `enc` preserves order: the byte order of encoded values is the natural order of
//! the values, so equality is a prefix scan and a range is a range scan.

use vstd::prelude::*;

use crate::bytes::append_bytes;
use crate::bytes::lex_lt;
use crate::encoding::value_index::{
    lemma_int_encoding_preserves_order, lemma_lex_is_unsigned_order, lemma_unsigned_be_first, pow256, signed_be,
    unsigned_be,
};
use crate::models::{AppError, FlexId, TableDataType, TableId, FLEX_ID_LEN};

verus! {

/// The types of values the single-node store holds.
#[derive(Debug, Clone, Copy, PartialEq, Eq)]
pub enum ColumnType {
    TinyInt,
    SmallInt,
    Int,
    BigInt,
    Float,
    Double,
    Text,
    Boolean,
    Enum,
    Presence,
}

/// Integers are stored big-endian: flipping the sign bit puts negative numbers
/// first. Floats are stored as big-endian IEEE 754: a negative one has all its bits
/// flipped, a positive one its sign bit set. Text, booleans, enum numbers and presence
/// sort as stored.
pub open spec fn spec_order_preserving(column: ColumnType, value: Seq<u8>) -> Seq<u8> {
    if value.len() == 0 {
        value
    } else {
        match column {
            ColumnType::TinyInt | ColumnType::SmallInt | ColumnType::Int | ColumnType::BigInt => value.update(
                0,
                value[0] ^ 0x80,
            ),
            ColumnType::Float | ColumnType::Double => if value[0] & 0x80 != 0 {
                value.map_values(|b: u8| b ^ 0xFF)
            } else {
                value.update(0, value[0] ^ 0x80)
            },
            _ => value,
        }
    }
}

/// The stored bytes of a value, re-encoded so that byte order is value order.
pub fn order_preserving(column: ColumnType, value: &[u8]) -> (key: Vec<u8>)
    ensures
        key@ == spec_order_preserving(column, value@),
{
    let mut key = vstd::slice::slice_to_vec(value);
    if key.len() == 0 {
        return key;
    }
    match column {
        ColumnType::TinyInt | ColumnType::SmallInt | ColumnType::Int | ColumnType::BigInt => {
            let b0 = key[0];
            key.set(0, b0 ^ 0x80);
        },
        ColumnType::Float | ColumnType::Double => {
            let b0 = key[0];
            if b0 & 0x80 != 0 {
                let mut i: usize = 0;
                while i < key.len()
                    invariant
                        i <= key@.len(),
                        key@.len() == value@.len(),
                        forall|j: int| 0 <= j < i ==> key@[j] == value@[j] ^ 0xFF,
                        forall|j: int| i <= j < key@.len() ==> key@[j] == value@[j],
                    decreases key@.len() - i,
                {
                    let b = key[i];
                    key.set(i, b ^ 0xFF);
                    i += 1;
                }
                assert(key@ =~= value@.map_values(|b: u8| b ^ 0xFF));
            } else {
                key.set(0, b0 ^ 0x80);
            }
        },
        ColumnType::Text | ColumnType::Boolean | ColumnType::Enum | ColumnType::Presence => {},
    }
    key
}

/// The index key `table_id ‖ vkey ‖ region`.
pub fn make_key(table_id: TableId, vkey: &[u8], flexid: &FlexId) -> (key: Vec<u8>)
    ensures
        key@ == table_id@ + vkey@ + flexid@,
{
    let mut key: Vec<u8> = Vec::new();
    append_bytes(&mut key, table_id.into_bytes().as_slice());
    append_bytes(&mut key, vkey);
    append_bytes(&mut key, flexid.encode().as_slice());
    key
}

/// The prefix `table_id ‖ vkey` that all entries of one value share.
pub fn make_prefix(table_id: TableId, vkey: &[u8]) -> (prefix: Vec<u8>)
    ensures
        prefix@ == table_id@ + vkey@,
{
    let mut prefix: Vec<u8> = Vec::new();
    append_bytes(&mut prefix, table_id.into_bytes().as_slice());
    append_bytes(&mut prefix, vkey);
    prefix
}

/// The region in the last 14 bytes of an index key; a key too short to hold a table
/// and a region is an internal error.
pub fn flexid_from_key(key: &[u8]) -> (r: Result<FlexId, AppError>)
    ensures
        r is Ok <==> key@.len() >= 16 + FLEX_ID_LEN,
        r matches Ok(f) ==> f@ == key@.subrange(key@.len() - FLEX_ID_LEN, key@.len() as int),
        r matches Err(e) ==> e is InternalError,
{
    if key.len() < 16 + FLEX_ID_LEN {
        return Err(AppError::InternalError("value_index key too short".to_string()));
    }
    let len = key.len();
    let start = len - FLEX_ID_LEN;
    let mut bytes = [0u8; 14];
    let mut i: usize = 0;
    while i < FLEX_ID_LEN
        invariant
            i <= FLEX_ID_LEN,
            len == key@.len(),
            start + FLEX_ID_LEN == len,
            forall|j: int| 0 <= j < i ==> bytes@[j] == key@[start + j],
        decreases FLEX_ID_LEN - i,
    {
        bytes[i] = key[start + i];
        i += 1;
    }
    assert(bytes@ =~= key@.subrange(key@.len() - FLEX_ID_LEN, key@.len() as int));
    Ok(FlexId(bytes))
}

/// The value order of integer columns is the byte order of their index keys: for two
/// big-endian two's complement integers of a column's width, the smaller value has the
/// smaller encoded key, negative numbers first.
pub proof fn lemma_integer_columns_preserve_order(column: ColumnType, a: Seq<u8>, b: Seq<u8>)
    requires
        column is TinyInt || column is SmallInt || column is Int || column is BigInt,
        a.len() == b.len(),
        a.len() > 0,
    ensures
        signed_be(a) < signed_be(b) <==> lex_lt(spec_order_preserving(column, a), spec_order_preserving(column, b)),
{
    assert(spec_order_preserving(column, a) == crate::encoding::value_index::spec_order_preserving(
        TableDataType::Int,
        a,
    ));
    assert(spec_order_preserving(column, b) == crate::encoding::value_index::spec_order_preserving(
        TableDataType::Int,
        b,
    ));
    lemma_int_encoding_preserves_order(a, b);
}

/// IEEE 754 bits read for comparing: the magnitude (the bits below the sign bit, as
/// an unsigned big-endian number) carrying the sign bit's sign. For two bit patterns
/// that are not NaN, one float is below the other exactly when this number is below,
/// except that `-0` and `+0`, equal as floats, are both 0 here too.
pub open spec fn sign_magnitude(s: Seq<u8>) -> int {
    let half = pow256((s.len() - 1) as nat) * 128;
    if s[0] >= 128 {
        half - unsigned_be(s)
    } else {
        unsigned_be(s) as int
    }
}

/// Flipping every bit of `s` gives the complement of its unsigned value.
proof fn lemma_unsigned_be_complement(s: Seq<u8>)
    ensures
        unsigned_be(s.map_values(|b: u8| b ^ 0xFF)) == pow256(s.len()) - 1 - unsigned_be(s),
    decreases s.len(),
{
    let f = s.map_values(|b: u8| b ^ 0xFF);
    if s.len() > 0 {
        let s0 = s.drop_last();
        lemma_unsigned_be_complement(s0);
        assert(f.drop_last() =~= s0.map_values(|b: u8| b ^ 0xFF));
        let x = s.last();
        assert(f.last() == x ^ 0xFF);
        assert(x ^ 0xFF == 255 - x) by (bit_vector);
        assert(pow256(s.len()) == 256 * pow256(s0.len()));
    }
}

/// The key of a float column as an unsigned number: just above the midpoint for a
/// positive pattern, just below it for a negative one.
proof fn lemma_float_key_value(column: ColumnType, s: Seq<u8>)
    requires
        column is Float || column is Double,
        s.len() > 0,
    ensures
        spec_order_preserving(column, s).len() == s.len(),
        s[0] >= 128 ==> sign_magnitude(s) <= 0 && unsigned_be(spec_order_preserving(column, s))
            == pow256((s.len() - 1) as nat) * 128 - 1 + sign_magnitude(s),
        s[0] < 128 ==> sign_magnitude(s) >= 0 && unsigned_be(spec_order_preserving(column, s))
            == pow256((s.len() - 1) as nat) * 128 + sign_magnitude(s),
{
    let n = s.len();
    let p = pow256((n - 1) as nat);
    let e = spec_order_preserving(column, s);
    lemma_unsigned_be_first(s);
    let b0 = s[0];
    let rest = unsigned_be(s.subrange(1, n as int));
    assert(b0 & 0x80 != 0 <==> b0 >= 128) by (bit_vector);
    if b0 >= 128 {
        lemma_unsigned_be_complement(s);
        assert(pow256(n) == 256 * p);
        assert(b0 * p >= 128 * p) by (nonlinear_arith)
            requires
                b0 >= 128,
        ;
    } else {
        lemma_unsigned_be_first(e);
        assert(e.subrange(1, n as int) =~= s.subrange(1, n as int));
        assert(e[0] == b0 ^ 0x80);
        assert(b0 < 128 ==> b0 ^ 0x80 == b0 + 128) by (bit_vector);
        assert((b0 + 128) * p == b0 * p + 128 * p) by (nonlinear_arith);
    }
}

/// The order of float columns: for two bit patterns of one width, a smaller
/// [`sign_magnitude`] (for patterns that are not NaN, a smaller float) gives a smaller
/// index key, and the key keeps the value's length.
pub proof fn lemma_float_columns_preserve_order(column: ColumnType, a: Seq<u8>, b: Seq<u8>)
    requires
        column is Float || column is Double,
        a.len() == b.len(),
        a.len() > 0,
    ensures
        spec_order_preserving(column, a).len() == a.len(),
        sign_magnitude(a) < sign_magnitude(b) ==> lex_lt(
            spec_order_preserving(column, a),
            spec_order_preserving(column, b),
        ),
{
    lemma_float_key_value(column, a);
    lemma_float_key_value(column, b);
    lemma_lex_is_unsigned_order(spec_order_preserving(column, a), spec_order_preserving(column, b));
}

/// Text, booleans, enum numbers and presence are indexed as stored: the key of a value
/// of these columns is its bytes unchanged, so two texts compare in the index exactly
/// as their UTF-8 bytes do (a range filter from `lo` to `hi` finds every text between
/// them).
pub proof fn lemma_plain_columns_keep_bytes(column: ColumnType, a: Seq<u8>, b: Seq<u8>)
    requires
        column is Text || column is Boolean || column is Enum || column is Presence,
    ensures
        spec_order_preserving(column, a) == a,
        lex_lt(a, b) <==> lex_lt(spec_order_preserving(column, a), spec_order_preserving(column, b)),
        a == b <==> spec_order_preserving(column, a) == spec_order_preserving(column, b),
{
}

/// Every column's key has the length of the stored value.
pub proof fn lemma_keys_keep_length(column: ColumnType, v: Seq<u8>)
    ensures
        spec_order_preserving(column, v).len() == v.len(),
{
}

} // verus!
