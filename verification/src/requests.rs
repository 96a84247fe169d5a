//! The checks a catalog request makes on its names before it reads the store.

use vstd::prelude::*;
use vstd::string::StringExecFns;

use crate::models::{AppError, Resource};

verus! {

/// A request to create a table names its database and the new table. An empty
/// database name can name no database, so it is not found; an empty table name is
/// refused as a name.
pub fn check_table_names(db_name: &str, table_name: &str) -> (r: Result<(), AppError>)
    ensures
        db_name@.len() == 0 ==> (r matches Err(AppError::NotFound { resource: Resource::Database, name })
            && name@ == db_name@),
        db_name@.len() > 0 && table_name@.len() == 0 ==> (r matches Err(AppError::InvalidName { reason })
            && reason@ == "table name cannot be empty"@),
        db_name@.len() > 0 && table_name@.len() > 0 ==> r is Ok,
{
    if db_name.is_empty() {
        return Err(AppError::NotFound { resource: Resource::Database, name: String::from_str(db_name) });
    }
    if table_name.is_empty() {
        return Err(AppError::InvalidName { reason: String::from_str("table name cannot be empty") });
    }
    Ok(())
}

/// A table of the new name found in the database refuses the request.
pub fn check_table_absent(table_name: &str, found: bool) -> (r: Result<(), AppError>)
    ensures
        found ==> (r matches Err(AppError::AlreadyExists { resource: Resource::Table, name })
            && name@ == table_name@),
        !found ==> r is Ok,
{
    if found {
        Err(AppError::AlreadyExists { resource: Resource::Table, name: String::from_str(table_name) })
    } else {
        Ok(())
    }
}

} // verus!
