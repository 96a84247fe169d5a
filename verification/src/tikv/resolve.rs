//! Resolving many `(database, table)` names at once in two batched reads: first the
//! databases, then the tables of the databases found. Each read asks for every key
//! once, whatever the number of references, and the answers come back in the order of
//! the references.
//!
//! A name that is not found is not an error: telling a caller without privileges that
//! a name exists, before authorising it, would leak it.

use vstd::prelude::*;
use vstd::utf8::encode_utf8;

use super::keys::{database, spec_table, table, Ns};
use crate::keymap::{strictly_ascending, KeyMap};
use crate::models::DatabaseId;

verus! {

/// The key of a database's catalog entry.
pub open spec fn spec_database_key(name: Seq<char>) -> Seq<u8> {
    seq![Ns::Databases.spec_tag()] + encode_utf8(name)
}

/// A database identifier found for a database key.
pub struct FoundDatabase(pub DatabaseId);

impl View for FoundDatabase {
    type V = DatabaseId;

    open spec fn view(&self) -> DatabaseId {
        self.0
    }
}

pub open spec fn key_views(keys: Seq<Vec<u8>>) -> Seq<Seq<u8>> {
    keys.map_values(|k: Vec<u8>| k@)
}

/// The keys of the databases that the references name, each once, in ascending
/// order. Empty database names are left out.
pub fn database_keys(refs: &Vec<(String, String)>) -> (keys: Vec<Vec<u8>>)
    ensures
        strictly_ascending(key_views(keys@)),
        forall|k: Seq<u8>| #[trigger] key_views(keys@).contains(k) <==> exists|i: int|
            0 <= i < refs@.len() && refs@[i].0@.len() > 0 && k == spec_database_key(#[trigger] refs@[i].0@),
{
    let mut m: KeyMap<()> = KeyMap::new();
    let mut i: usize = 0;
    while i < refs.len()
        invariant
            i <= refs@.len(),
            forall|k: Seq<u8>| #[trigger] m@.contains_key(k) <==> exists|j: int|
                0 <= j < i && refs@[j].0@.len() > 0 && k == spec_database_key(#[trigger] refs@[j].0@),
        decreases refs@.len() - i,
    {
        let name = refs[i].0.as_str();
        let ghost before = m@;
        if !name.is_empty() {
            m.insert(database(name), ());
        }
        proof {
            assert forall|k: Seq<u8>| #[trigger] m@.contains_key(k) <==> exists|j: int|
                0 <= j < i + 1 && refs@[j].0@.len() > 0 && k == spec_database_key(#[trigger] refs@[j].0@) by {
                if m@.contains_key(k) && !before.contains_key(k) {
                    assert(refs@[i as int].0@.len() > 0 && k == spec_database_key(refs@[i as int].0@));
                }
                if exists|j: int| 0 <= j < i + 1 && refs@[j].0@.len() > 0 && k == spec_database_key(
                    #[trigger] refs@[j].0@,
                ) {
                    let j = choose|j: int| 0 <= j < i + 1 && refs@[j].0@.len() > 0 && k == spec_database_key(
                        #[trigger] refs@[j].0@,
                    );
                    if j < i {
                        assert(before.contains_key(k));
                    }
                }
            }
        }
        i += 1;
    }
    let keys = m.key_list();
    proof {
        assert forall|k: Seq<u8>| #[trigger] key_views(keys@).contains(k) <==> exists|i: int|
            0 <= i < refs@.len() && refs@[i].0@.len() > 0 && k == spec_database_key(#[trigger] refs@[i].0@) by {
            assert(m@.contains_key(k) <==> key_views(keys@).contains(k));
        }
    }
    keys
}

/// The keys of the tables that the references name in the databases that were found,
/// each once, in ascending order. Empty table names are left out.
pub fn table_keys(refs: &Vec<(String, String)>, found: &KeyMap<FoundDatabase>) -> (keys: Vec<Vec<u8>>)
    ensures
        strictly_ascending(key_views(keys@)),
        forall|k: Seq<u8>| #[trigger] key_views(keys@).contains(k) <==> exists|i: int|
            0 <= i < refs@.len() && refs@[i].1@.len() > 0 && found@.contains_key(spec_database_key(refs@[i].0@))
                && k == spec_table(found@[spec_database_key(refs@[i].0@)], #[trigger] refs@[i].1@),
{
    let mut m: KeyMap<()> = KeyMap::new();
    let mut i: usize = 0;
    while i < refs.len()
        invariant
            i <= refs@.len(),
            forall|k: Seq<u8>| #[trigger] m@.contains_key(k) <==> exists|j: int|
                0 <= j < i && refs@[j].1@.len() > 0 && found@.contains_key(spec_database_key(refs@[j].0@)) && k
                    == spec_table(found@[spec_database_key(refs@[j].0@)], #[trigger] refs@[j].1@),
        decreases refs@.len() - i,
    {
        let table_name = refs[i].1.as_str();
        let db_key = database(refs[i].0.as_str());
        let ghost before = m@;
        if !table_name.is_empty() {
            match found.get(db_key.as_slice()) {
                Some(id) => {
                    let key = table(id.0, table_name);
                    let ghost k_i = key@;
                    m.insert(key, ());
                    assert(k_i == spec_table(found@[spec_database_key(refs@[i as int].0@)], refs@[i as int].1@));
                },
                None => {},
            }
        }
        proof {
            assert forall|k: Seq<u8>| #[trigger] m@.contains_key(k) <==> exists|j: int|
                0 <= j < i + 1 && refs@[j].1@.len() > 0 && found@.contains_key(spec_database_key(refs@[j].0@)) && k
                    == spec_table(found@[spec_database_key(refs@[j].0@)], #[trigger] refs@[j].1@) by {
                if m@.contains_key(k) && !before.contains_key(k) {
                    assert(refs@[i as int].1@.len() > 0 && found@.contains_key(spec_database_key(refs@[i as int].0@))
                        && k == spec_table(found@[spec_database_key(refs@[i as int].0@)], refs@[i as int].1@));
                }
                if exists|j: int| 0 <= j < i + 1 && refs@[j].1@.len() > 0 && found@.contains_key(
                    spec_database_key(refs@[j].0@),
                ) && k == spec_table(found@[spec_database_key(refs@[j].0@)], #[trigger] refs@[j].1@) {
                    let j = choose|j: int| 0 <= j < i + 1 && refs@[j].1@.len() > 0 && found@.contains_key(
                        spec_database_key(refs@[j].0@),
                    ) && k == spec_table(found@[spec_database_key(refs@[j].0@)], #[trigger] refs@[j].1@);
                    if j < i {
                        assert(before.contains_key(k));
                    }
                }
            }
        }
        i += 1;
    }
    let keys = m.key_list();
    proof {
        assert forall|k: Seq<u8>| #[trigger] key_views(keys@).contains(k) <==> exists|i: int|
            0 <= i < refs@.len() && refs@[i].1@.len() > 0 && found@.contains_key(spec_database_key(refs@[i].0@))
                && k == spec_table(found@[spec_database_key(refs@[i].0@)], #[trigger] refs@[i].1@) by {
            assert(m@.contains_key(k) <==> key_views(keys@).contains(k));
        }
    }
    keys
}

/// How one reference resolved: the database's identifier when the database was found,
/// and then, for a non-empty table name, the key under which its table is looked up.
pub open spec fn spec_resolution(found: Map<Seq<u8>, DatabaseId>, db_name: Seq<char>, table_name: Seq<char>) -> (
    Option<DatabaseId>,
    Option<Seq<u8>>,
) {
    if db_name.len() > 0 && found.contains_key(spec_database_key(db_name)) {
        let id = found[spec_database_key(db_name)];
        (Some(id), if table_name.len() > 0 {
            Some(spec_table(id, table_name))
        } else {
            None
        })
    } else {
        (None, None)
    }
}

/// How one `(database, table)` reference resolved: the database's identifier when the
/// database exists, and then, for a non-empty table name, the key under which the
/// table's entry is looked up (absent from the store when the table does not exist).
#[derive(Debug, PartialEq, Eq)]
pub struct ResolvedTable {
    pub db_id: Option<DatabaseId>,
    pub table_key: Option<Vec<u8>>,
}

/// The resolution of every reference, in the order of the references.
pub fn resolutions(refs: &Vec<(String, String)>, found: &KeyMap<FoundDatabase>) -> (r: Vec<ResolvedTable>)
    ensures
        r@.len() == refs@.len(),
        forall|i: int| 0 <= i < r@.len() ==> {
            let s = spec_resolution(found@, refs@[i].0@, refs@[i].1@);
            &&& (#[trigger] r@[i]).db_id == s.0
            &&& (r@[i].table_key is Some <==> s.1 is Some)
            &&& r@[i].table_key matches Some(k) ==> k@ == s.1->0
        },
{
    let mut out: Vec<ResolvedTable> = Vec::new();
    let mut i: usize = 0;
    while i < refs.len()
        invariant
            i <= refs@.len(),
            out@.len() == i,
            forall|j: int| 0 <= j < i ==> {
                let s = spec_resolution(found@, refs@[j].0@, refs@[j].1@);
                &&& (#[trigger] out@[j]).db_id == s.0
                &&& (out@[j].table_key is Some <==> s.1 is Some)
                &&& out@[j].table_key matches Some(k) ==> k@ == s.1->0
            },
        decreases refs@.len() - i,
    {
        let db_name = refs[i].0.as_str();
        let table_name = refs[i].1.as_str();
        proof {
            assert(db_name@ == refs@[i as int].0@);
            assert(table_name@ == refs@[i as int].1@);
        }
        let entry = if db_name.is_empty() {
            (None, None)
        } else {
            match found.get(database(db_name).as_slice()) {
                Some(id) => {
                    let key = if !table_name.is_empty() {
                        Some(table(id.0, table_name))
                    } else {
                        None
                    };
                    (Some(id.0), key)
                },
                None => (None, None),
            }
        };
        let ghost sp = spec_resolution(found@, refs@[i as int].0@, refs@[i as int].1@);
        assert(entry.0 == sp.0);
        assert(entry.1 is Some <==> sp.1 is Some);
        assert(entry.1 matches Some(k) ==> k@ == sp.1->0);
        let ghost before = out@;
        out.push(ResolvedTable { db_id: entry.0, table_key: entry.1 });
        proof {
            assert forall|j: int| 0 <= j < i + 1 implies {
                let s = spec_resolution(found@, refs@[j].0@, refs@[j].1@);
                &&& (#[trigger] out@[j]).db_id == s.0
                &&& (out@[j].table_key is Some <==> s.1 is Some)
                &&& out@[j].table_key matches Some(k) ==> k@ == s.1->0
            } by {
                if j < i {
                    assert(out@[j] == before[j]);
                }
            }
        }
        i += 1;
    }
    out
}

} // verus!
