//! Composite keys of the single-node store. The bytes are laid out as the distributed
//! store lays them out, so both sort keys the same way.

use vstd::prelude::*;

use vstd::string::StringSliceAdditionalSpecFns;

use crate::bytes::append_bytes;
use crate::encoding::{id_from_slice, str_from_utf8};
use crate::models::{DatabaseId, FlexId, TableId, FLEX_ID_LEN};

verus! {

/// Why a composite key could not be read back.
#[derive(Debug, Clone, Copy, PartialEq, Eq)]
pub enum KeyDecodeError {
    /// The key has the wrong length.
    InvalidLength,
    /// The name in the key is not UTF-8.
    InvalidUtf8,
}

/// A database and a name in it: `db_id(16) ‖ name`.
pub struct DbIdAndName;

impl DbIdAndName {
    pub open spec fn spec_encode(db_id: DatabaseId, name: Seq<u8>) -> Seq<u8> {
        db_id@ + name
    }

    pub fn encode(db_id: DatabaseId, name: &str) -> (bytes: Vec<u8>)
        ensures
            bytes@ == Self::spec_encode(db_id, name.spec_bytes()),
    {
        let mut bytes: Vec<u8> = Vec::new();
        append_bytes(&mut bytes, db_id.into_bytes().as_slice());
        append_bytes(&mut bytes, name.as_bytes());
        bytes
    }

    /// The database and the name; shorter than an identifier, or a name that is not
    /// UTF-8, is refused.
    pub fn decode(bytes: &[u8]) -> (r: Result<(DatabaseId, &str), KeyDecodeError>)
        ensures
            bytes@.len() < 16 ==> r == Err::<(DatabaseId, &str), _>(KeyDecodeError::InvalidLength),
            bytes@.len() >= 16 ==> match r {
                Ok((id, name)) => id@ == bytes@.subrange(0, 16) && name.spec_bytes() == bytes@.subrange(
                    16,
                    bytes@.len() as int,
                ) && vstd::utf8::valid_utf8(bytes@.subrange(16, bytes@.len() as int)),
                Err(e) => e == KeyDecodeError::InvalidUtf8 && !vstd::utf8::valid_utf8(
                    bytes@.subrange(16, bytes@.len() as int),
                ),
            },
    {
        if bytes.len() < 16 {
            return Err(KeyDecodeError::InvalidLength);
        }
        let id = DatabaseId(id_from_slice(bytes, 0));
        let rest = vstd::slice::slice_subrange(bytes, 16, bytes.len());
        match str_from_utf8(rest) {
            Ok(name) => Ok((id, name)),
            Err(_) => Err(KeyDecodeError::InvalidUtf8),
        }
    }

    /// Decoding gives back what was encoded.
    pub proof fn lemma_round_trip(db_id: DatabaseId, name: Seq<u8>)
        ensures
            Self::spec_encode(db_id, name).subrange(0, 16) == db_id@,
            Self::spec_encode(db_id, name).subrange(16, Self::spec_encode(db_id, name).len() as int) == name,
    {
        assert(Self::spec_encode(db_id, name).subrange(0, 16) =~= db_id@);
        assert(Self::spec_encode(db_id, name).subrange(16, Self::spec_encode(db_id, name).len() as int) =~= name);
    }
}

/// A table and a region in it: `table_id(16) ‖ region(14)`.
pub struct TableIdAndFlexId;

impl TableIdAndFlexId {
    pub open spec fn spec_encode(table_id: TableId, flex_id: FlexId) -> Seq<u8> {
        table_id@ + flex_id@
    }

    pub fn encode(table_id: TableId, flex_id: &FlexId) -> (bytes: Vec<u8>)
        ensures
            bytes@ == Self::spec_encode(table_id, *flex_id),
    {
        let mut bytes: Vec<u8> = Vec::new();
        append_bytes(&mut bytes, table_id.into_bytes().as_slice());
        append_bytes(&mut bytes, flex_id.encode().as_slice());
        bytes
    }

    /// The table and the region; a key of any other length is refused.
    pub fn decode(bytes: &[u8]) -> (r: Result<(TableId, FlexId), KeyDecodeError>)
        ensures
            r is Ok <==> bytes@.len() == 16 + FLEX_ID_LEN,
            r matches Ok((t, f)) ==> t@ == bytes@.subrange(0, 16) && f@ == bytes@.subrange(16, 30),
            r matches Err(e) ==> e == KeyDecodeError::InvalidLength,
    {
        if bytes.len() != 16 + FLEX_ID_LEN {
            return Err(KeyDecodeError::InvalidLength);
        }
        let table_id = TableId(id_from_slice(bytes, 0));
        let mut region = [0u8; 14];
        let mut i: usize = 0;
        while i < FLEX_ID_LEN
            invariant
                i <= FLEX_ID_LEN,
                bytes@.len() == 30,
                forall|j: int| 0 <= j < i ==> region@[j] == bytes@[16 + j],
            decreases FLEX_ID_LEN - i,
        {
            region[i] = bytes[16 + i];
            i += 1;
        }
        assert(region@ =~= bytes@.subrange(16, 30));
        Ok((table_id, FlexId(region)))
    }

    /// Decoding gives back what was encoded.
    pub proof fn lemma_round_trip(table_id: TableId, flex_id: FlexId)
        ensures
            Self::spec_encode(table_id, flex_id).len() == 16 + FLEX_ID_LEN,
            Self::spec_encode(table_id, flex_id).subrange(0, 16) == table_id@,
            Self::spec_encode(table_id, flex_id).subrange(16, 30) == flex_id@,
    {
        assert(Self::spec_encode(table_id, flex_id).subrange(0, 16) =~= table_id@);
        assert(Self::spec_encode(table_id, flex_id).subrange(16, 30) =~= flex_id@);
    }
}

} // verus!
