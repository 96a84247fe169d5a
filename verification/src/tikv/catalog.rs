//! The rows that catalog operations of the distributed backend write: copying a
//! table's data, renaming a table, and retiring a removed table for sweeping.

use vstd::prelude::*;
use vstd::string::StringSliceAdditionalSpecFns;
use vstd::utf8::encode_utf8;

use super::config::retire;
use super::keys::{
    database, database_id_index, replace_leading_id, spec_replace_leading_id, spec_table, table, table_id_index, Ns,
};
use crate::encoding::UUID_LEN;
use super::kv::{mutation_view, Mutation};
use super::staging::clone_bytes;
use crate::encoding::OwnedName;
use crate::models::{AppError, DatabaseId, TableId};

verus! {

/// A table's data rows under the identifier of its copy: every key has the table
/// identifier after its tag replaced, and every value is kept. A key too short to
/// carry a table is an internal error.
pub fn copy_rows(entries: Vec<(Vec<u8>, Vec<u8>)>, copy_id: TableId) -> (r: Result<Vec<(Vec<u8>, Vec<u8>)>, AppError>)
    ensures
        r is Ok <==> forall|i: int| 0 <= i < entries@.len() ==> (#[trigger] entries@[i]).0@.len() >= 1 + UUID_LEN,
        r matches Ok(rows) ==> rows@.len() == entries@.len() && forall|i: int| 0 <= i < rows@.len() ==> {
            &&& (#[trigger] rows@[i]).0@ == spec_replace_leading_id(entries@[i].0@, copy_id@)
            &&& rows@[i].1@ == entries@[i].1@
        },
        r matches Err(e) ==> e is InternalError,
{
    let mut copied: Vec<(Vec<u8>, Vec<u8>)> = Vec::new();
    let mut i: usize = 0;
    while i < entries.len()
        invariant
            i <= entries@.len(),
            copied@.len() == i,
            forall|j: int| 0 <= j < i ==> (#[trigger] entries@[j]).0@.len() >= 1 + UUID_LEN,
            forall|j: int| 0 <= j < i ==> {
                &&& (#[trigger] copied@[j]).0@ == spec_replace_leading_id(entries@[j].0@, copy_id@)
                &&& copied@[j].1@ == entries@[j].1@
            },
        decreases entries@.len() - i,
    {
        let mut dst = clone_bytes(&entries[i].0);
        match replace_leading_id(&mut dst, copy_id) {
            Ok(()) => {},
            Err(e) => {
                return Err(e);
            },
        }
        copied.push((dst, clone_bytes(&entries[i].1)));
        i += 1;
    }
    Ok(copied)
}

/// The new name of a table, if the update changes it: a new name equal to the current
/// one changes nothing.
pub fn name_change<'a>(table_name: &str, new_name: Option<&'a str>) -> (r: Option<&'a str>)
    ensures
        r is Some <==> new_name is Some && new_name->0@ != table_name@,
        r matches Some(n) ==> n@ == new_name->0@,
{
    match new_name {
        Some(nn) => {
            proof {
                vstd::utf8::encode_utf8_decode_utf8(nn@);
                vstd::utf8::encode_utf8_decode_utf8(table_name@);
            }
            if crate::keymap::keys_equal(nn.as_bytes(), table_name.as_bytes()) {
                None
            } else {
                Some(nn)
            }
        },
        None => None,
    }
}

/// What renaming a table changes besides writing its entry under the new name: the
/// entry under the old name goes, and the table's identifier points at the new name.
pub fn rename_mutations(db_id: DatabaseId, old_name: &str, new_name: &str, table_id: TableId) -> (ms: Vec<Mutation>)
    ensures
        ms@.len() == 2,
        mutation_view(ms@[0]) == (spec_table(db_id, old_name@), None::<Seq<u8>>),
        mutation_view(ms@[1]) == (
            seq![Ns::TableIdIndex.spec_tag()] + table_id@,
            Some(OwnedName::spec_bytes(db_id, new_name@)),
        ),
{
    let mut ms: Vec<Mutation> = Vec::new();
    ms.push(Mutation::Delete(table(db_id, old_name)));
    ms.push(Mutation::Put(table_id_index(table_id), OwnedName::new(db_id, new_name).into_bytes()));
    ms
}

/// What retiring a removed table changes: its entry and its identifier's entry go,
/// and it is queued for the sweeper, which reclaims its data later.
pub fn retire_mutations(db_id: DatabaseId, table_name: &str, table_id: TableId) -> (ms: Vec<Mutation>)
    ensures
        ms@.len() == 3,
        mutation_view(ms@[0]) == (spec_table(db_id, table_name@), None::<Seq<u8>>),
        mutation_view(ms@[1]) == (seq![Ns::TableIdIndex.spec_tag()] + table_id@, None::<Seq<u8>>),
        mutation_view(ms@[2]) == (seq![Ns::Garbage.spec_tag()] + table_id@, Some(seq![0x31u8])),
{
    let mut ms: Vec<Mutation> = Vec::new();
    ms.push(Mutation::Delete(table(db_id, table_name)));
    ms.push(Mutation::Delete(table_id_index(table_id)));
    let (key, value) = retire(table_id);
    ms.push(Mutation::Put(key, value));
    ms
}

/// What renaming a database changes besides writing its entry under the new name:
/// the entry under the old name goes, and the database's identifier points at the new
/// name.
pub fn database_rename_mutations(old_name: &str, new_name: &str, db_id: DatabaseId) -> (ms: Vec<Mutation>)
    ensures
        ms@.len() == 2,
        mutation_view(ms@[0]) == (seq![Ns::Databases.spec_tag()] + encode_utf8(old_name@), None::<Seq<u8>>),
        mutation_view(ms@[1]) == (seq![Ns::DatabaseIdIndex.spec_tag()] + db_id@, Some(encode_utf8(new_name@))),
{
    let mut ms: Vec<Mutation> = Vec::new();
    ms.push(Mutation::Delete(database(old_name)));
    ms.push(Mutation::Put(database_id_index(db_id), vstd::slice::slice_to_vec(new_name.as_bytes())));
    ms
}

/// The rows of a database's own entry and of its identifier, which go when it is
/// removed (its tables are retired first).
pub fn database_removal_keys(name: &str, db_id: DatabaseId) -> (keys: Vec<Vec<u8>>)
    ensures
        keys@.len() == 2,
        keys@[0]@ == seq![Ns::Databases.spec_tag()] + encode_utf8(name@),
        keys@[1]@ == seq![Ns::DatabaseIdIndex.spec_tag()] + db_id@,
{
    let mut keys: Vec<Vec<u8>> = Vec::new();
    keys.push(database(name));
    keys.push(database_id_index(db_id));
    keys
}

/// The rows of a new database besides its entry: its identifier points at its name.
pub fn database_id_row(name: &str, db_id: DatabaseId) -> (row: (Vec<u8>, Vec<u8>))
    ensures
        row.0@ == seq![Ns::DatabaseIdIndex.spec_tag()] + db_id@,
        row.1@ == encode_utf8(name@),
{
    (database_id_index(db_id), vstd::slice::slice_to_vec(name.as_bytes()))
}

} // verus!
