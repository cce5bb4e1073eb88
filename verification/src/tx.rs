//! Transaction wrappers: thin lifecycle shims that own a store transaction
//! and open typed tables from it. The binding of a table name to key/value
//! types is unchecked against anything persisted — the only enforcement is
//! that whatever bytes exist decode as the requested types, deferred to
//! first access.

use vstd::prelude::*;

verus! {

use core::marker::PhantomData;
use crate::codec::Codec;
use crate::sort::Lexicographical;
use crate::store;
use crate::{ReadOnlyTable, Table};

/// An immutable schema token: a table name plus the static key/value types
/// it is opened under. It exists only to parameterize `open_table`; no type
/// metadata is ever persisted with the table.
pub struct TableDefinition<'a, K, V> {
    name: &'a str,
    _key_type: PhantomData<K>,
    _value_type: PhantomData<V>,
}

impl<'a, K, V> View for TableDefinition<'a, K, V> {
    type V = Seq<char>;

    closed spec fn view(&self) -> Seq<char> {
        self.name@
    }
}

impl<'a, K, V> TableDefinition<'a, K, V> {
    /// Binds a table name to the chosen key/value types. The store refuses
    /// an empty table name by aborting, so it is excluded up front.
    pub fn new(name: &'a str) -> (r: Self)
        requires
            name@.len() > 0,
        ensures
            r@ == name@,
    {
        TableDefinition { name, _key_type: PhantomData, _value_type: PhantomData }
    }
}

/// Owns a snapshot-isolated store read transaction.
pub struct ReadTransaction {
    inner: store::RawReadTxn,
}

impl ReadTransaction {
    pub(crate) fn from_raw(inner: store::RawReadTxn) -> Self {
        ReadTransaction { inner }
    }

    /// The underlying store transaction, for operations this layer does
    /// not wrap.
    pub fn as_raw(&self) -> &store::RawReadTxn {
        &self.inner
    }

    /// Opens the named table as a typed read-only snapshot. The table's
    /// contents are whatever the snapshot holds; nothing is known of them
    /// until they are read. The store aborts on an empty table name, so a
    /// definition built by [`TableDefinition::new`] is required.
    pub fn open_table<'a, K: Codec, V: Codec>(&self, table_def: &TableDefinition<'a, K, V>)
        -> Result<ReadOnlyTable<K, V, Lexicographical>, redb::TableError>
        requires
            table_def@.len() > 0,
    {
        Ok(ReadOnlyTable::from_raw(store::open_table_ro(&self.inner, table_def.name)?))
    }
}

/// Owns the store's single active write transaction; committing consumes
/// it, making further use impossible.
pub struct WriteTransaction {
    inner: store::RawWriteTxn,
}

impl WriteTransaction {
    pub(crate) fn from_raw(inner: store::RawWriteTxn) -> Self {
        WriteTransaction { inner }
    }

    /// The underlying store transaction, for operations this layer does
    /// not wrap.
    pub fn as_raw(&self) -> &store::RawWriteTxn {
        &self.inner
    }

    /// Opens the named table for reading and writing under the chosen
    /// types. The table's starting contents are whatever the store holds.
    /// The store aborts on an empty table name, so a definition built by
    /// [`TableDefinition::new`] is required.
    pub fn open_table<'s, 'a, K: Codec, V: Codec>(
        &'s self,
        table_def: &TableDefinition<'a, K, V>,
    ) -> Result<Table<'s, K, V, Lexicographical>, redb::TableError>
        requires
            table_def@.len() > 0,
    {
        Ok(Table::from_raw(store::open_table_rw(&self.inner, table_def.name)?))
    }

    /// Commits the transaction's writes to the store, consuming it. The
    /// durability guarantee is the store's.
    pub fn commit(self) -> Result<(), redb::CommitError> {
        store::commit_txn(self.inner)
    }
}

} // verus!
