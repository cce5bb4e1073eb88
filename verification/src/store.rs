//! The trusted boundary to the underlying byte-oriented transactional store
//! (the `redb` crate). Everything in this module is believed, not proved:
//! each item's contract states only what `redb`'s source and documentation
//! show. The rest of the crate is verified against these contracts.
//!
//! The store keeps raw `&[u8]` keys in unsigned byte-wise (lexicographic)
//! order: `redb`'s `Key` implementation for `&[u8]` compares with the
//! standard slice ordering. The contracts below state order-sensitive
//! results (`first`, `last`, `range`) in terms of that order.

use vstd::prelude::*;

verus! {

use core::ops::Bound;
use crate::range::{RangeBound, byte_bound_view, is_range_listing};
use crate::sort::{lex_le, lex_lt};

/// An opened store database, held opaquely: the crate's own `Database`
/// shares the underlying type's name, so the type is wrapped rather than
/// declared.
#[verifier::external_body]
pub struct RawDatabase {
    inner: redb::Database,
}

/// A store read transaction, held opaquely for the same reason.
#[verifier::external_body]
pub struct RawReadTxn {
    inner: redb::ReadTransaction,
}

/// A store write transaction, held opaquely for the same reason.
#[verifier::external_body]
pub struct RawWriteTxn {
    inner: redb::WriteTransaction,
}

#[verifier::external_type_specification]
#[verifier::external_body]
pub struct ExDatabaseError(redb::DatabaseError);

#[verifier::external_type_specification]
#[verifier::external_body]
pub struct ExTransactionError(redb::TransactionError);

#[verifier::external_type_specification]
#[verifier::external_body]
pub struct ExTableError(redb::TableError);

#[verifier::external_type_specification]
#[verifier::external_body]
pub struct ExStorageError(redb::StorageError);

#[verifier::external_type_specification]
#[verifier::external_body]
pub struct ExCommitError(redb::CommitError);

/// A store table opened in a write transaction, keyed and valued by raw
/// bytes. Held opaquely: `redb::Table`'s type parameters carry trait bounds
/// the verifier cannot express, so the concrete instantiation is wrapped.
#[verifier::external_body]
pub struct RawTable<'txn> {
    inner: redb::Table<'txn, &'static [u8], &'static [u8]>,
}

/// A store table opened in a read transaction; the non-mutating counterpart
/// of [`RawTable`].
#[verifier::external_body]
pub struct RawReadTable {
    inner: redb::ReadOnlyTable<&'static [u8], &'static [u8]>,
}

/// A store cursor over an ordered sub-sequence of a table's entries,
/// held opaquely for the same reason as [`RawTable`].
#[verifier::external_body]
pub struct RawRange<'a> {
    inner: redb::Range<'a, &'static [u8], &'static [u8]>,
}

/// The entries a write-transaction table currently holds, as a map from raw
/// key bytes to raw value bytes.
pub uninterp spec fn table_entries(t: RawTable) -> Map<Seq<u8>, Seq<u8>>;

/// The entries a store cursor has yet to yield, in the order it will yield
/// them.
pub uninterp spec fn range_entries(r: RawRange) -> Seq<(Seq<u8>, Seq<u8>)>;

/// The entries a read-transaction table holds, as a map from raw key bytes
/// to raw value bytes.
pub uninterp spec fn read_table_entries(t: RawReadTable) -> Map<Seq<u8>, Seq<u8>>;

/// Relies on `redb::Database::create`: creates (or opens) the database file
/// at the given path. Nothing is assumed about its contents.
#[verifier::external_body]
pub(crate) fn db_create(path: &str) -> Result<RawDatabase, redb::DatabaseError> {
    Ok(RawDatabase { inner: redb::Database::create(path)? })
}

/// Relies on `redb::Builder::create_with_backend` over
/// `redb::backends::InMemoryBackend`: a fresh store kept entirely in
/// memory, starting empty.
#[verifier::external_body]
pub(crate) fn db_create_in_memory() -> Result<RawDatabase, redb::DatabaseError> {
    let backend = redb::backends::InMemoryBackend::new();
    Ok(RawDatabase { inner: redb::Builder::new().create_with_backend(backend)? })
}

/// Relies on `redb::Database::open`: opens an existing database file.
#[verifier::external_body]
pub(crate) fn db_open(path: &str) -> Result<RawDatabase, redb::DatabaseError> {
    Ok(RawDatabase { inner: redb::Database::open(path)? })
}

/// Relies on `redb::Database::begin_write`: begins the single active write
/// transaction.
#[verifier::external_body]
pub(crate) fn db_begin_write(db: &RawDatabase) -> Result<RawWriteTxn, redb::TransactionError> {
    Ok(RawWriteTxn { inner: db.inner.begin_write()? })
}

/// Relies on `redb::Database::begin_read`: begins a snapshot-isolated read
/// transaction.
#[verifier::external_body]
pub(crate) fn db_begin_read(db: &RawDatabase) -> Result<RawReadTxn, redb::TransactionError> {
    Ok(RawReadTxn { inner: db.inner.begin_read()? })
}

/// Relies on `redb::WriteTransaction::open_table`: opens the named table for
/// reading and writing. Its starting contents are whatever the store holds;
/// nothing is assumed about them. A second open of the same name in the
/// same transaction fails with `TableAlreadyOpen`, so each returned handle
/// is the only path to its table's contents — which is what lets those
/// contents be modeled as a function of the handle. The store's table
/// definition asserts that the name is non-empty, so the empty name is
/// excluded here.
#[verifier::external_body]
pub(crate) fn open_table_rw<'txn>(txn: &'txn RawWriteTxn, name: &str) -> (r: Result<
    RawTable<'txn>,
    redb::TableError,
>)
    requires
        name@.len() > 0,
{
    let def: redb::TableDefinition<&'static [u8], &'static [u8]> = redb::TableDefinition::new(
        name,
    );
    Ok(RawTable { inner: txn.inner.open_table(def)? })
}

/// Relies on `redb::ReadTransaction::open_table`: opens the named table as a
/// snapshot for reading. As on the write side, the store asserts that the
/// name is non-empty, so the empty name is excluded here.
#[verifier::external_body]
pub(crate) fn open_table_ro(txn: &RawReadTxn, name: &str) -> (r: Result<
    RawReadTable,
    redb::TableError,
>)
    requires
        name@.len() > 0,
{
    let def: redb::TableDefinition<&'static [u8], &'static [u8]> = redb::TableDefinition::new(
        name,
    );
    Ok(RawReadTable { inner: txn.inner.open_table(def)? })
}

/// Relies on `redb::WriteTransaction::commit`: persists the transaction's
/// writes and consumes it.
#[verifier::external_body]
pub(crate) fn commit_txn(txn: RawWriteTxn) -> Result<(), redb::CommitError> {
    txn.inner.commit()
}

/// Relies on `redb::ReadableTable::get`: returns the value stored under the
/// given raw key, if any.
#[verifier::external_body]
pub(crate) fn raw_get(t: &RawTable, key: &[u8]) -> (r: Result<Option<Vec<u8>>, redb::StorageError>)
    ensures
        r matches Ok(o) ==> {
            &&& o is Some <==> table_entries(*t).contains_key(key@)
            &&& o matches Some(v) ==> v@ == table_entries(*t)[key@]
        },
{
    match redb::ReadableTable::get(&t.inner, key) {
        Ok(Some(g)) => Ok(Some(g.value().to_vec())),
        Ok(None) => Ok(None),
        Err(e) => Err(e),
    }
}

/// Relies on `redb::Table::insert`: maps the key to the value, returning the
/// previously stored value if the key was present.
#[verifier::external_body]
pub(crate) fn raw_insert(t: &mut RawTable, key: &[u8], value: &[u8]) -> (r: Result<
    Option<Vec<u8>>,
    redb::StorageError,
>)
    ensures
        r matches Ok(o) ==> {
            &&& table_entries(*final(t)) == table_entries(*old(t)).insert(key@, value@)
            &&& o is Some <==> table_entries(*old(t)).contains_key(key@)
            &&& o matches Some(v) ==> v@ == table_entries(*old(t))[key@]
        },
{
    match t.inner.insert(key, value) {
        Ok(Some(g)) => Ok(Some(g.value().to_vec())),
        Ok(None) => Ok(None),
        Err(e) => Err(e),
    }
}

/// Relies on `redb::Table::remove`: removes the key, returning the value it
/// held if it was present.
#[verifier::external_body]
pub(crate) fn raw_remove(t: &mut RawTable, key: &[u8]) -> (r: Result<
    Option<Vec<u8>>,
    redb::StorageError,
>)
    ensures
        r matches Ok(o) ==> {
            &&& table_entries(*final(t)) == table_entries(*old(t)).remove(key@)
            &&& o is Some <==> table_entries(*old(t)).contains_key(key@)
            &&& o matches Some(v) ==> v@ == table_entries(*old(t))[key@]
        },
{
    match t.inner.remove(key) {
        Ok(Some(g)) => Ok(Some(g.value().to_vec())),
        Ok(None) => Ok(None),
        Err(e) => Err(e),
    }
}

/// Relies on `redb::ReadableTable::first`: returns the entry whose key is
/// least in the store's byte-wise key order, or `None` on an empty table.
#[verifier::external_body]
pub(crate) fn raw_first(t: &RawTable) -> (r: Result<
    Option<(Vec<u8>, Vec<u8>)>,
    redb::StorageError,
>)
    ensures
        r matches Ok(o) ==> {
            &&& o is None <==> table_entries(*t) =~= Map::<Seq<u8>, Seq<u8>>::empty()
            &&& o matches Some((k, v)) ==> {
                &&& table_entries(*t).contains_key(k@)
                &&& table_entries(*t)[k@] == v@
                &&& forall|k2: Seq<u8>| table_entries(*t).contains_key(k2) ==> lex_le(k@, k2)
            }
        },
{
    match redb::ReadableTable::first(&t.inner) {
        Ok(Some((k, v))) => Ok(Some((k.value().to_vec(), v.value().to_vec()))),
        Ok(None) => Ok(None),
        Err(e) => Err(e),
    }
}

/// Relies on `redb::ReadableTable::last`: returns the entry whose key is
/// greatest in the store's byte-wise key order, or `None` on an empty table.
#[verifier::external_body]
pub(crate) fn raw_last(t: &RawTable) -> (r: Result<
    Option<(Vec<u8>, Vec<u8>)>,
    redb::StorageError,
>)
    ensures
        r matches Ok(o) ==> {
            &&& o is None <==> table_entries(*t) =~= Map::<Seq<u8>, Seq<u8>>::empty()
            &&& o matches Some((k, v)) ==> {
                &&& table_entries(*t).contains_key(k@)
                &&& table_entries(*t)[k@] == v@
                &&& forall|k2: Seq<u8>| table_entries(*t).contains_key(k2) ==> lex_le(k2, k@)
            }
        },
{
    match redb::ReadableTable::last(&t.inner) {
        Ok(Some((k, v))) => Ok(Some((k.value().to_vec(), v.value().to_vec()))),
        Ok(None) => Ok(None),
        Err(e) => Err(e),
    }
}

/// Relies on `redb::ReadableTable::get` on a read-only table.
#[verifier::external_body]
pub(crate) fn ro_get(t: &RawReadTable, key: &[u8]) -> (r: Result<
    Option<Vec<u8>>,
    redb::StorageError,
>)
    ensures
        r matches Ok(o) ==> {
            &&& o is Some <==> read_table_entries(*t).contains_key(key@)
            &&& o matches Some(v) ==> v@ == read_table_entries(*t)[key@]
        },
{
    match redb::ReadableTable::get(&t.inner, key) {
        Ok(Some(g)) => Ok(Some(g.value().to_vec())),
        Ok(None) => Ok(None),
        Err(e) => Err(e),
    }
}

/// Relies on `redb::ReadableTable::first` on a read-only table.
#[verifier::external_body]
pub(crate) fn ro_first(t: &RawReadTable) -> (r: Result<
    Option<(Vec<u8>, Vec<u8>)>,
    redb::StorageError,
>)
    ensures
        r matches Ok(o) ==> {
            &&& o is None <==> read_table_entries(*t) =~= Map::<Seq<u8>, Seq<u8>>::empty()
            &&& o matches Some((k, v)) ==> {
                &&& read_table_entries(*t).contains_key(k@)
                &&& read_table_entries(*t)[k@] == v@
                &&& forall|k2: Seq<u8>| read_table_entries(*t).contains_key(k2) ==> lex_le(k@, k2)
            }
        },
{
    match redb::ReadableTable::first(&t.inner) {
        Ok(Some((k, v))) => Ok(Some((k.value().to_vec(), v.value().to_vec()))),
        Ok(None) => Ok(None),
        Err(e) => Err(e),
    }
}

/// Relies on `redb::ReadableTable::last` on a read-only table.
#[verifier::external_body]
pub(crate) fn ro_last(t: &RawReadTable) -> (r: Result<
    Option<(Vec<u8>, Vec<u8>)>,
    redb::StorageError,
>)
    ensures
        r matches Ok(o) ==> {
            &&& o is None <==> read_table_entries(*t) =~= Map::<Seq<u8>, Seq<u8>>::empty()
            &&& o matches Some((k, v)) ==> {
                &&& read_table_entries(*t).contains_key(k@)
                &&& read_table_entries(*t)[k@] == v@
                &&& forall|k2: Seq<u8>| read_table_entries(*t).contains_key(k2) ==> lex_le(k2, k@)
            }
        },
{
    match redb::ReadableTable::last(&t.inner) {
        Ok(Some((k, v))) => Ok(Some((k.value().to_vec(), v.value().to_vec()))),
        Ok(None) => Ok(None),
        Err(e) => Err(e),
    }
}

/// Relies on `redb::ReadableTable::range`: a cursor over the entries whose
/// keys lie within the given byte bounds, yielded in ascending byte order.
#[verifier::external_body]
pub(crate) fn raw_range<'t>(
    t: &'t RawTable,
    start: RangeBound<&[u8]>,
    end: RangeBound<&[u8]>,
) -> (r: Result<RawRange<'t>, redb::StorageError>)
    ensures
        r matches Ok(rg) ==> is_range_listing(
            table_entries(*t),
            byte_bound_view(start),
            byte_bound_view(end),
            range_entries(rg),
        ),
{
    let s: Bound<&[u8]> = match start {
        RangeBound::Unbounded => Bound::Unbounded,
        RangeBound::Included(x) => Bound::Included(x),
        RangeBound::Excluded(x) => Bound::Excluded(x),
    };
    let e: Bound<&[u8]> = match end {
        RangeBound::Unbounded => Bound::Unbounded,
        RangeBound::Included(x) => Bound::Included(x),
        RangeBound::Excluded(x) => Bound::Excluded(x),
    };
    Ok(RawRange { inner: redb::ReadableTable::range::<&[u8]>(&t.inner, (s, e))? })
}

/// Relies on `redb::ReadableTable::range` on a read-only table.
#[verifier::external_body]
pub(crate) fn ro_range(
    t: &RawReadTable,
    start: RangeBound<&[u8]>,
    end: RangeBound<&[u8]>,
) -> (r: Result<RawRange<'static>, redb::StorageError>)
    ensures
        r matches Ok(rg) ==> is_range_listing(
            read_table_entries(*t),
            byte_bound_view(start),
            byte_bound_view(end),
            range_entries(rg),
        ),
{
    let s: Bound<&[u8]> = match start {
        RangeBound::Unbounded => Bound::Unbounded,
        RangeBound::Included(x) => Bound::Included(x),
        RangeBound::Excluded(x) => Bound::Excluded(x),
    };
    let e: Bound<&[u8]> = match end {
        RangeBound::Unbounded => Bound::Unbounded,
        RangeBound::Included(x) => Bound::Included(x),
        RangeBound::Excluded(x) => Bound::Excluded(x),
    };
    Ok(RawRange { inner: t.inner.range::<&[u8]>((s, e))? })
}

/// Relies on `redb::Range`'s iterator: yields the cursor's remaining
/// entries in order, one per step, and `None` once it is exhausted.
#[verifier::external_body]
pub(crate) fn raw_range_next(rg: &mut RawRange) -> (r: Option<
    Result<(Vec<u8>, Vec<u8>), redb::StorageError>,
>)
    ensures
        r is None ==> range_entries(*old(rg)).len() == 0 && range_entries(*final(rg)).len() == 0,
        r matches Some(Ok((k, v))) ==> {
            &&& range_entries(*old(rg)).len() > 0
            &&& k@ == range_entries(*old(rg))[0].0
            &&& v@ == range_entries(*old(rg))[0].1
            &&& range_entries(*final(rg)) == range_entries(*old(rg)).skip(1)
        },
{
    match rg.inner.next() {
        None => None,
        Some(Ok((k, v))) => Some(Ok((k.value().to_vec(), v.value().to_vec()))),
        Some(Err(e)) => Some(Err(e)),
    }
}

} // verus!
