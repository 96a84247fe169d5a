//! Byte representations shared by every backend. The layout of each backend's own
//! keys lives with that backend.

pub mod acl;
pub mod shard_entry;
pub mod value_index;

use vstd::prelude::*;
use vstd::utf8::*;
use vstd::string::{StringExecFns, StringSliceAdditionalSpecFns};

use crate::bytes::{append_bytes, copy_prefix, first_diff_lt, is_prefix, lemma_prefix_le, lex_le, lex_lt};
use crate::models::{AppError, DatabaseId};

verus! {

/// Byte length of an identifier embedded in a key. Its fixed length is what lets
/// `identifier ‖ variable-length rest` be split without ambiguity.
pub const UUID_LEN: usize = 16;

/// The exclusive end of the range of all keys that start with `p`: drop the trailing
/// 0xFF bytes and increment the last byte left. No such end exists when every byte
/// is 0xFF (or `p` is empty).
pub open spec fn spec_prefix_end(p: Seq<u8>) -> Option<Seq<u8>>
    decreases p.len(),
{
    if p.len() == 0 {
        None
    } else if p.last() < 0xFF {
        Some(p.drop_last().push((p.last() + 1) as u8))
    } else {
        spec_prefix_end(p.drop_last())
    }
}

/// Whether `k` lies in the scan range `[start, end)`, `None` meaning no upper bound.
pub open spec fn in_range(k: Seq<u8>, start: Seq<u8>, end: Option<Seq<u8>>) -> bool {
    &&& lex_le(start, k)
    &&& match end {
        Some(e) => lex_lt(k, e),
        None => true,
    }
}

/// The range `[p, prefix_end(p))` holds exactly the keys that start with `p`.
pub proof fn lemma_prefix_end_covers_exactly(p: Seq<u8>, k: Seq<u8>)
    ensures
        is_prefix(p, k) <==> in_range(k, p, spec_prefix_end(p)),
    decreases p.len(),
{
    if p.len() == 0 {
        assert(k.subrange(0, 0) =~= p);
        lemma_prefix_le(p, k);
    } else {
        let q = p.drop_last();
        let b = p.last();
        if b < 0xFF {
            let e = q.push((b + 1) as u8);
            let n = p.len() - 1;
            if is_prefix(p, k) {
                lemma_prefix_le(p, k);
                assert(k[n] == k.subrange(0, p.len() as int)[n]);
                assert forall|j: int| 0 <= j < n implies k[j] == e[j] by {
                    assert(k[j] == k.subrange(0, p.len() as int)[j]);
                }
                assert(first_diff_lt(k, e, n));
            }
            if in_range(k, p, Some(e)) && !is_prefix(p, k) {
                if p =~= k {
                    assert(k.subrange(0, p.len() as int) =~= p);
                } else if p.len() < k.len() && is_prefix(p, k) {
                } else {
                    let i = choose|i: int| #[trigger] first_diff_lt(p, k, i);
                    if k.len() < e.len() && is_prefix(k, e) {
                        assert(e[i] == e.subrange(0, k.len() as int)[i]);
                    } else {
                        let m = choose|m: int| #[trigger] first_diff_lt(k, e, m);
                        if i < m {
                            assert(k[i] == e[i]);
                        } else if m < i {
                            assert(k[m] == p[m]);
                        }
                    }
                }
            }
        } else {
            lemma_prefix_end_covers_exactly(q, k);
            if is_prefix(p, k) {
                lemma_prefix_le(p, k);
                assert(k.subrange(0, q.len() as int) =~= q) by {
                    assert forall|j: int| 0 <= j < q.len() implies k.subrange(0, q.len() as int)[j]
                        == q[j] by {
                        assert(k[j] == k.subrange(0, p.len() as int)[j]);
                    }
                }
            }
            if in_range(k, p, spec_prefix_end(q)) && !is_prefix(p, k) {
                if p =~= k {
                    assert(k.subrange(0, p.len() as int) =~= p);
                } else if p.len() < k.len() && is_prefix(p, k) {
                } else {
                    let i = choose|i: int| #[trigger] first_diff_lt(p, k, i);
                    assert(i < q.len());
                    assert(first_diff_lt(q, k, i));
                    assert(!is_prefix(q, k)) by {
                        if is_prefix(q, k) {
                            assert(k.subrange(0, q.len() as int)[i] == q[i]);
                        }
                    }
                }
            }
        }
    }
}

/// See [`spec_prefix_end`].
pub fn prefix_end(prefix: &[u8]) -> (r: Option<Vec<u8>>)
    ensures
        match r {
            Some(v) => spec_prefix_end(prefix@) == Some(v@),
            None => spec_prefix_end(prefix@) is None,
        },
{
    let mut n: usize = prefix.len();
    assert(prefix@.subrange(0, prefix@.len() as int) =~= prefix@);
    while n > 0
        invariant
            n <= prefix@.len(),
            spec_prefix_end(prefix@) == spec_prefix_end(prefix@.subrange(0, n as int)),
        decreases n,
    {
        let last = prefix[n - 1];
        let ghost cur = prefix@.subrange(0, n as int);
        if last < 0xFF {
            let mut end = copy_prefix(prefix, n - 1);
            end.push(last + 1);
            assert(cur.drop_last() =~= prefix@.subrange(0, n - 1));
            assert(end@ =~= cur.drop_last().push((cur.last() + 1) as u8));
            return Some(end);
        }
        assert(cur.drop_last() =~= prefix@.subrange(0, n - 1));
        n -= 1;
    }
    None
}

/// `db_id(16) ‖ name`: a name together with the database it belongs to.
#[derive(Debug, Clone, PartialEq, Eq)]
pub struct OwnedName {
    pub db_id: DatabaseId,
    pub name: String,
}

impl OwnedName {
    pub fn new(db_id: DatabaseId, name: &str) -> (o: OwnedName)
        ensures
            o.db_id == db_id,
            o.name@ == name@,
    {
        OwnedName { db_id, name: name.to_owned() }
    }

    /// The stored form of an owned name.
    pub open spec fn spec_bytes(db_id: DatabaseId, name: Seq<char>) -> Seq<u8> {
        db_id@ + encode_utf8(name)
    }

    pub fn into_bytes(self) -> (out: Vec<u8>)
        ensures
            out@ == Self::spec_bytes(self.db_id, self.name@),
    {
        let mut out: Vec<u8> = Vec::new();
        let id = self.db_id.into_bytes();
        append_bytes(&mut out, id.as_slice());
        append_bytes(&mut out, self.name.as_str().as_bytes());
        out
    }

    pub fn into_parts(self) -> (parts: (DatabaseId, String))
        ensures
            parts.0 == self.db_id,
            parts.1 == self.name,
    {
        (self.db_id, self.name)
    }

    /// Which byte strings decode, and to what: 16 identifier bytes, then valid UTF-8.
    pub open spec fn spec_decode(bytes: Seq<u8>) -> Option<(Seq<u8>, Seq<char>)> {
        if bytes.len() < UUID_LEN || !valid_utf8(bytes.subrange(UUID_LEN as int, bytes.len() as int)) {
            None
        } else {
            Some((bytes.subrange(0, UUID_LEN as int), decode_utf8(bytes.subrange(UUID_LEN as int, bytes.len() as int))))
        }
    }

    /// Reads the stored form back. Too short for an identifier, or a name that is not
    /// UTF-8, is an internal error.
    pub fn decode(bytes: &[u8]) -> (r: Result<OwnedName, AppError>)
        ensures
            match Self::spec_decode(bytes@) {
                Some((id, name)) => r matches Ok(o) && o.db_id@ == id && o.name@ == name,
                None => r matches Err(AppError::InternalError(_)),
            },
    {
        if bytes.len() < UUID_LEN {
            return Err(AppError::InternalError("entry is too short to carry a database id".to_string()));
        }
        let id = id_from_slice(bytes, 0);
        let rest = vstd::slice::slice_subrange(bytes, UUID_LEN, bytes.len());
        match str_from_utf8(rest) {
            Ok(name) => {
                proof {
                    encode_utf8_decode_utf8(name@);
                }
                Ok(OwnedName::new(DatabaseId(id), name))
            },
            Err(detail) => Err(not_utf8("name is not valid utf-8", detail)),
        }
    }

    /// Storing a name and reading it back gives the same name.
    pub proof fn lemma_round_trip(db_id: DatabaseId, name: Seq<char>)
        ensures
            Self::spec_decode(Self::spec_bytes(db_id, name)) == Some((db_id@, name)),
    {
        let b = Self::spec_bytes(db_id, name);
        assert(b.subrange(0, 16) =~= db_id@);
        assert(b.subrange(16, b.len() as int) =~= encode_utf8(name));
        encode_utf8_valid_utf8(name);
        encode_utf8_decode_utf8(name);
    }
}

impl<'a> TryFrom<&'a [u8]> for OwnedName {
    type Error = AppError;

    /// As [`OwnedName::decode`].
    fn try_from(bytes: &'a [u8]) -> (r: Result<OwnedName, AppError>)
        ensures
            match OwnedName::spec_decode(bytes@) {
                Some((id, name)) => r matches Ok(o) && o.db_id@ == id && o.name@ == name,
                None => r matches Err(AppError::InternalError(_)),
            },
    {
        OwnedName::decode(bytes)
    }
}

/// The trait-level specification claims nothing; what `try_from` returns is stated by
/// its own `ensures`, which callers of the impl see.
impl<'a> vstd::std_specs::convert::TryFromSpecImpl<&'a [u8]> for OwnedName {
    open spec fn obeys_try_from_spec() -> bool {
        false
    }

    open spec fn try_from_spec(bytes: &'a [u8]) -> Result<OwnedName, AppError> {
        vstd::pervasive::arbitrary()
    }
}

/// The 16 bytes of `bytes` from `at`.
pub fn id_from_slice(bytes: &[u8], at: usize) -> (id: [u8; 16])
    requires
        at + 16 <= bytes@.len(),
    ensures
        id@ == bytes@.subrange(at as int, at + 16),
{
    let mut id = [0u8; 16];
    let len = bytes.len();
    let mut i: usize = 0;
    while i < 16
        invariant
            i <= 16,
            len == bytes@.len(),
            at + 16 <= len,
            forall|j: int| 0 <= j < i ==> id@[j] == bytes@[at + j],
        decreases 16 - i,
    {
        id[i] = bytes[at + i];
        i += 1;
    }
    assert(id@ =~= bytes@.subrange(at as int, at + 16));
    id
}

/// `std::str::from_utf8`: the bytes as text when they are valid UTF-8, else the
/// decoder's description of where they stop being so. What that description says is
/// left unstated.
#[verifier::external_body]
pub(crate) fn str_from_utf8(bytes: &[u8]) -> (r: Result<&str, String>)
    ensures
        r is Ok <==> valid_utf8(bytes@),
        r matches Ok(s) ==> s.spec_bytes() == bytes@,
{
    match std::str::from_utf8(bytes) {
        Ok(s) => Ok(s),
        Err(e) => Err(e.to_string()),
    }
}

/// `what` followed by `": "` and `detail`.
pub open spec fn with_detail(what: Seq<char>, detail: Seq<char>) -> Seq<char> {
    what + ": "@ + detail
}

/// An internal error for text that is not UTF-8: `what`, then the decoder's detail.
pub fn not_utf8(what: &str, detail: String) -> (e: AppError)
    ensures
        e matches AppError::InternalError(m) && m@ == with_detail(what@, detail@),
{
    let mut m = String::from_str(what);
    m.append(": ");
    m.append(detail.as_str());
    AppError::InternalError(m)
}

} // verus!
