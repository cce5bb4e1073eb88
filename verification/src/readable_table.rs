//! The read-side table interface: the non-mutating operations that both
//! table handles expose, so callers can work against either.

use vstd::prelude::*;

verus! {

use crate::access_guard::AccessGuard;
use crate::codec::Codec;
use crate::range::{Range, RangeBound, encoded_bound, is_range_listing};
use crate::sort::{SortKey, SortOrder, lex_le};
use redb::StorageError;
use crate::{ReadOnlyTable, Table};

/// The non-mutating subset of a typed table's operations, offered by both
/// [`Table`] and [`ReadOnlyTable`].
pub trait ReadableTable<K: Codec, V: Codec, S: SortOrder>: Sized {
    /// The entries the table holds, as a map from encoded key bytes to
    /// encoded value bytes.
    spec fn entries(&self) -> Map<Seq<u8>, Seq<u8>>;

    /// Looks the key up by its encoding; a found value comes back as an
    /// undecoded guard, absence as `None`.
    fn get(&self, key: &K) -> (r: Result<Option<AccessGuard<V>>, StorageError>)
        ensures
            r matches Ok(o) ==> {
                &&& o is Some <==> self.entries().contains_key(K::encoding_of(key.deep_view()))
                &&& o matches Some(g) ==> g@ == self.entries()[K::encoding_of(key.deep_view())]
            },
    ;

    /// The entry with the least key in the store's byte order, or `None`
    /// on a table with no entries.
    fn first(&self) -> (r: Result<Option<(AccessGuard<K, SortKey<S>>, AccessGuard<V>)>, StorageError>)
        ensures
            r matches Ok(o) ==> {
                &&& o is None <==> self.entries() =~= Map::<Seq<u8>, Seq<u8>>::empty()
                &&& o matches Some((kg, vg)) ==> {
                    &&& self.entries().contains_key(kg@)
                    &&& vg@ == self.entries()[kg@]
                    &&& forall|k2: Seq<u8>| self.entries().contains_key(k2) ==> lex_le(kg@, k2)
                }
            },
    ;

    /// The entry with the greatest key in the store's byte order, or
    /// `None` on a table with no entries.
    fn last(&self) -> (r: Result<Option<(AccessGuard<K, SortKey<S>>, AccessGuard<V>)>, StorageError>)
        ensures
            r matches Ok(o) ==> {
                &&& o is None <==> self.entries() =~= Map::<Seq<u8>, Seq<u8>>::empty()
                &&& o matches Some((kg, vg)) ==> {
                    &&& self.entries().contains_key(kg@)
                    &&& vg@ == self.entries()[kg@]
                    &&& forall|k2: Seq<u8>| self.entries().contains_key(k2) ==> lex_le(k2, kg@)
                }
            },
    ;

    /// A cursor over the entries whose keys lie between the given typed
    /// bounds, encoded with the same inclusivity.
    fn range(&self, start: RangeBound<&K>, end: RangeBound<&K>) -> (r: Result<
        Range<'_, K, V, SortKey<S>>,
        StorageError,
    >)
        ensures
            r matches Ok(rg) ==> is_range_listing(
                self.entries(),
                encoded_bound(start),
                encoded_bound(end),
                rg@,
            ),
    ;
}

impl<K: Codec, V: Codec, S: SortOrder> ReadableTable<K, V, S> for ReadOnlyTable<K, V, S> {
    open spec fn entries(&self) -> Map<Seq<u8>, Seq<u8>> {
        self.view()
    }

    fn get(&self, key: &K) -> (r: Result<Option<AccessGuard<V>>, StorageError>) {
        ReadOnlyTable::get(self, key)
    }

    fn first(&self) -> (r: Result<
        Option<(AccessGuard<K, SortKey<S>>, AccessGuard<V>)>,
        StorageError,
    >) {
        ReadOnlyTable::first(self)
    }

    fn last(&self) -> (r: Result<
        Option<(AccessGuard<K, SortKey<S>>, AccessGuard<V>)>,
        StorageError,
    >) {
        ReadOnlyTable::last(self)
    }

    fn range(&self, start: RangeBound<&K>, end: RangeBound<&K>) -> (r: Result<
        Range<'_, K, V, SortKey<S>>,
        StorageError,
    >) {
        ReadOnlyTable::range(self, start, end)
    }
}

impl<'txn, K: Codec, V: Codec, S: SortOrder> ReadableTable<K, V, S> for Table<'txn, K, V, S> {
    open spec fn entries(&self) -> Map<Seq<u8>, Seq<u8>> {
        self.view()
    }

    fn get(&self, key: &K) -> (r: Result<Option<AccessGuard<V>>, StorageError>) {
        Table::get(self, key)
    }

    fn first(&self) -> (r: Result<
        Option<(AccessGuard<K, SortKey<S>>, AccessGuard<V>)>,
        StorageError,
    >) {
        Table::first(self)
    }

    fn last(&self) -> (r: Result<
        Option<(AccessGuard<K, SortKey<S>>, AccessGuard<V>)>,
        StorageError,
    >) {
        Table::last(self)
    }

    fn range(&self, start: RangeBound<&K>, end: RangeBound<&K>) -> (r: Result<
        Range<'_, K, V, SortKey<S>>,
        StorageError,
    >) {
        Table::range(self, start, end)
    }
}

} // verus!
