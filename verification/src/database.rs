//! The database handle: creates or opens the underlying store and begins
//! transactions on it.

use vstd::prelude::*;

verus! {

use crate::store;
use crate::tx::{ReadTransaction, WriteTransaction};

/// Owns one underlying store database.
pub struct Database {
    inner: store::RawDatabase,
}

impl Database {
    /// Creates (or opens, if it exists) the database file at the given
    /// path.
    pub fn create(path: &str) -> Result<Database, redb::DatabaseError> {
        Ok(Database { inner: store::db_create(path)? })
    }

    /// Opens an existing database file.
    pub fn open(path: &str) -> Result<Database, redb::DatabaseError> {
        Ok(Database { inner: store::db_open(path)? })
    }

    /// Creates a fresh, empty database over an in-memory backend: nothing
    /// touches disk, and the contents vanish with the handle.
    pub fn create_in_memory() -> Result<Database, redb::DatabaseError> {
        Ok(Database { inner: store::db_create_in_memory()? })
    }

    /// Begins a snapshot-isolated read transaction.
    pub fn begin_read(&self) -> Result<ReadTransaction, redb::TransactionError> {
        Ok(ReadTransaction::from_raw(store::db_begin_read(&self.inner)?))
    }

    /// Begins the single active write transaction.
    pub fn begin_write(&self) -> Result<WriteTransaction, redb::TransactionError> {
        Ok(WriteTransaction::from_raw(store::db_begin_write(&self.inner)?))
    }
}

} // verus!
