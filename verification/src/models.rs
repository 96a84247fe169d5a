//! The identifiers, roles, value types and errors that the storage layer speaks of.

use vstd::prelude::*;

verus! {

/// Identifier of a database (the 16 bytes of a UUID).
#[derive(Debug, Clone, Copy, PartialEq, Eq, Hash, PartialOrd, Ord)]
pub struct DatabaseId(pub [u8; 16]);

/// Identifier of a table (the 16 bytes of a UUID).
#[derive(Debug, Clone, Copy, PartialEq, Eq, Hash, PartialOrd, Ord)]
pub struct TableId(pub [u8; 16]);

/// Identifier of a user or another holder of privileges (the 16 bytes of a UUID).
#[derive(Debug, Clone, Copy, PartialEq, Eq, Hash, PartialOrd, Ord)]
pub struct PrincipalId(pub [u8; 16]);

/// Byte length of an encoded spatial region.
pub const FLEX_ID_LEN: usize = 14;

/// A spatial region, held as its fixed-length encoding. The encoding sorts the
/// regions in their tree order, so keys can embed it as it is.
#[derive(Debug, Clone, Copy, PartialEq, Eq, Hash, PartialOrd, Ord)]
pub struct FlexId(pub [u8; 14]);

impl View for DatabaseId {
    type V = Seq<u8>;

    open spec fn view(&self) -> Seq<u8> {
        self.0@
    }
}

impl View for TableId {
    type V = Seq<u8>;

    open spec fn view(&self) -> Seq<u8> {
        self.0@
    }
}

impl View for PrincipalId {
    type V = Seq<u8>;

    open spec fn view(&self) -> Seq<u8> {
        self.0@
    }
}

impl View for FlexId {
    type V = Seq<u8>;

    open spec fn view(&self) -> Seq<u8> {
        self.0@
    }
}

impl DatabaseId {
    pub fn into_bytes(self) -> (b: [u8; 16])
        ensures
            b@ == self@,
    {
        self.0
    }
}

impl TableId {
    pub fn into_bytes(self) -> (b: [u8; 16])
        ensures
            b@ == self@,
    {
        self.0
    }

    /// The all-zero identifier. It names no table; a target whose table slot holds it
    /// is a whole database.
    pub fn nil() -> (t: TableId)
        ensures
            t@ == Seq::new(16, |i: int| 0u8),
    {
        let t = TableId([0u8; 16]);
        assert(t@ =~= Seq::new(16, |i: int| 0u8));
        t
    }

    pub open spec fn spec_is_nil(self) -> bool {
        forall|i: int| 0 <= i < 16 ==> #[trigger] self@[i] == 0
    }

    pub fn is_nil(&self) -> (b: bool)
        ensures
            b == self.spec_is_nil(),
    {
        let mut i: usize = 0;
        while i < 16
            invariant
                i <= 16,
                forall|j: int| 0 <= j < i ==> #[trigger] self@[j] == 0,
            decreases 16 - i,
        {
            if self.0[i] != 0 {
                assert(self@[i as int] != 0);
                return false;
            }
            i += 1;
        }
        true
    }
}

impl PrincipalId {
    pub fn into_bytes(self) -> (b: [u8; 16])
        ensures
            b@ == self@,
    {
        self.0
    }
}

impl FlexId {
    pub fn encode(&self) -> (b: [u8; 14])
        ensures
            b@ == self@,
    {
        self.0
    }
}

impl From<[u8; 16]> for DatabaseId {
    fn from(bytes: [u8; 16]) -> (id: DatabaseId) {
        DatabaseId(bytes)
    }
}

impl vstd::std_specs::convert::FromSpecImpl<[u8; 16]> for DatabaseId {
    open spec fn obeys_from_spec() -> bool {
        true
    }

    open spec fn from_spec(bytes: [u8; 16]) -> DatabaseId {
        DatabaseId(bytes)
    }
}

impl From<[u8; 16]> for TableId {
    fn from(bytes: [u8; 16]) -> (id: TableId) {
        TableId(bytes)
    }
}

impl vstd::std_specs::convert::FromSpecImpl<[u8; 16]> for TableId {
    open spec fn obeys_from_spec() -> bool {
        true
    }

    open spec fn from_spec(bytes: [u8; 16]) -> TableId {
        TableId(bytes)
    }
}

impl From<[u8; 16]> for PrincipalId {
    fn from(bytes: [u8; 16]) -> (id: PrincipalId) {
        PrincipalId(bytes)
    }
}

impl vstd::std_specs::convert::FromSpecImpl<[u8; 16]> for PrincipalId {
    open spec fn obeys_from_spec() -> bool {
        true
    }

    open spec fn from_spec(bytes: [u8; 16]) -> PrincipalId {
        PrincipalId(bytes)
    }
}

/// What a privilege is held on: a whole database, or one table inside it.
#[derive(Debug, Clone, Copy, PartialEq, Eq, Hash, PartialOrd, Ord)]
pub struct DataTarget {
    pub db_id: DatabaseId,
    pub table: Option<TableId>,
}

impl DataTarget {
    pub fn database(db_id: DatabaseId) -> (t: DataTarget)
        ensures
            t == (DataTarget { db_id, table: None }),
    {
        DataTarget { db_id, table: None }
    }

    pub fn table(db_id: DatabaseId, table_id: TableId) -> (t: DataTarget)
        ensures
            t == (DataTarget { db_id, table: Some(table_id) }),
    {
        DataTarget { db_id, table: Some(table_id) }
    }

    /// The table slot of the target: the table's identifier, or all zeros for a database.
    pub open spec fn spec_slot(self) -> Seq<u8> {
        match self.table {
            Some(t) => t@,
            None => Seq::new(16, |i: int| 0u8),
        }
    }

    pub fn slot(&self) -> (s: TableId)
        ensures
            s@ == self.spec_slot(),
    {
        match self.table {
            Some(t) => t,
            None => TableId::nil(),
        }
    }

    /// A table target never carries the all-zero identifier, which stands for the database.
    pub open spec fn well_formed(self) -> bool {
        match self.table {
            Some(t) => !t.spec_is_nil(),
            None => true,
        }
    }

    pub open spec fn spec_from_slot(db_id: DatabaseId, slot: TableId) -> DataTarget {
        if slot.spec_is_nil() {
            DataTarget { db_id, table: None }
        } else {
            DataTarget { db_id, table: Some(slot) }
        }
    }

    pub fn from_slot(db_id: DatabaseId, slot: TableId) -> (t: DataTarget)
        ensures
            t == Self::spec_from_slot(db_id, slot),
            t.well_formed(),
            t.db_id == db_id,
            t.spec_slot() == slot@,
    {
        proof {
            if slot.spec_is_nil() {
                assert(slot@ =~= Seq::new(16, |i: int| 0u8));
            }
        }
        if slot.is_nil() {
            DataTarget::database(db_id)
        } else {
            DataTarget::table(db_id, slot)
        }
    }
}

/// A role on data.
#[derive(Debug, Clone, Copy, PartialEq, Eq, Structural, Hash, PartialOrd, Ord)]
pub enum DataRole {
    Read,
    Write,
    Admin,
}

impl DataRole {
    pub open spec fn spec_to_byte(self) -> u8 {
        match self {
            DataRole::Read => 1,
            DataRole::Write => 2,
            DataRole::Admin => 3,
        }
    }

    /// The single byte that stores the role.
    pub fn to_byte(self) -> (b: u8)
        ensures
            b == self.spec_to_byte(),
    {
        match self {
            DataRole::Read => 1,
            DataRole::Write => 2,
            DataRole::Admin => 3,
        }
    }

    pub open spec fn spec_from_byte(b: u8) -> Option<DataRole> {
        if b == 1 {
            Some(DataRole::Read)
        } else if b == 2 {
            Some(DataRole::Write)
        } else if b == 3 {
            Some(DataRole::Admin)
        } else {
            None
        }
    }

    /// Reads a stored role; an unknown byte is corruption.
    pub fn from_byte(b: u8) -> (r: Result<DataRole, AppError>)
        ensures
            match Self::spec_from_byte(b) {
                Some(role) => r == Ok::<DataRole, AppError>(role),
                None => r is Err && r->Err_0 is InternalError,
            },
    {
        if b == 1 {
            Ok(DataRole::Read)
        } else if b == 2 {
            Ok(DataRole::Write)
        } else if b == 3 {
            Ok(DataRole::Admin)
        } else {
            Err(AppError::InternalError("acl row holds an unknown role".to_string()))
        }
    }
}

/// The type of the values of a table, as far as the value index cares.
#[derive(Debug, Clone, Copy, PartialEq, Eq, Hash)]
pub enum TableDataType {
    Int,
    Text,
    Boolean,
    Enum,
    Presence,
}

/// What was found corrupt.
#[derive(Debug, Clone, Copy, PartialEq, Eq)]
pub enum Stored {
    Shard,
    ValueIndex,
    UserRecord,
}

/// What a request named that was missing or already there.
#[derive(Debug, Clone, Copy, PartialEq, Eq)]
pub enum Resource {
    Database,
    Table,
    User,
}

/// The errors of the storage layer.
#[derive(Debug, Clone, PartialEq, Eq)]
pub enum AppError {
    /// A bug or an inconsistency inside the store.
    InternalError(String),
    /// The backend failed, or a stored value failed its integrity check.
    StorageError(String),
    /// A write lost a race and could be retried.
    Conflict(String),
    /// Bytes read back do not have the shape they were written with.
    Corrupt { what: Stored, detail: String },
    /// A named database, table or user does not exist.
    NotFound { resource: Resource, name: String },
    /// A database, table or user of that name exists already.
    AlreadyExists { resource: Resource, name: String },
    /// A name that cannot be used.
    InvalidName { reason: String },
    /// The on-disk format is not the one this build reads.
    SchemaVersionMismatch { found: Option<u32>, expected: u32 },
}

impl AppError {
    pub fn corrupt(what: Stored, detail: &str) -> (e: AppError)
        ensures
            e matches AppError::Corrupt { what: w, detail: d } && w == what && d@ == detail@,
    {
        AppError::Corrupt { what, detail: detail.to_string() }
    }
}

/// Version of the on-disk format. Raised on every incompatible change.
pub const SCHEMA_VERSION: u32 = 2;

} // verus!
