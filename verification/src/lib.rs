//! A typed, ordered key-value table layer over a raw byte-oriented
//! embedded transactional store.
//!
//! Callers define tables over domain key/value types; this layer transcodes
//! those types to and from the canonical byte representation the underlying
//! store requires (big-endian, variable-length integer encoding), while
//! preserving a byte-level ordering semantic for keys.
//!
//! Each table operation encodes its typed arguments into a fresh buffer;
//! callers that want to reuse one instead can drive the codec directly
//! through [`Codec::encode_into`], which appends to a buffer they pass by
//! exclusive reference.

mod access_guard;
mod codec;
mod database;
mod range;
mod readable_table;
mod sort;
mod store;
mod tx;

pub use access_guard::{AccessError, AccessGuard};
pub use database::Database;
pub use readable_table::ReadableTable;
pub use tx::{ReadTransaction, TableDefinition, WriteTransaction};
pub use range::{Range, RangeBound, above_lo, below_hi, byte_bound_view, encode_bound, encoded_bound, in_byte_range, is_range_listing, owned_bound_view};
pub use codec::{Codec, DecodeError, decode_value, decode_varint64, decoded_value, encode_value, encode_varint64, lemma_varint64_order, lemma_varint64_round_trip, lemma_zigzag64_round_trip, num_cmp, parse_varint32, parse_varint64, unzigzag64, varint64, zigzag64};
pub use sort::{Lexicographical, SortKey, SortOrder, lemma_lex_cmp_eq, lemma_lex_first_diff, lex_cmp, lex_cmp_from, lex_le, lex_lt};
pub use store::{RawDatabase, RawRange, RawReadTable, RawReadTxn, RawTable, RawWriteTxn, range_entries, read_table_entries, table_entries};
pub use redb::StorageError;

use vstd::prelude::*;

verus! {

use core::marker::PhantomData;
use vstd::pervasive::unreached;
use crate::range::as_byte_bound;

/// A typed handle over one store table opened in a read transaction,
/// exposing the non-mutating operations. The table's entries are modeled
/// as a map from encoded key bytes to encoded value bytes.
pub struct ReadOnlyTable<K, V, S = Lexicographical> {
    raw: RawReadTable,
    _k: PhantomData<K>,
    _v: PhantomData<V>,
    _s: PhantomData<S>,
}

impl<K, V, S> View for ReadOnlyTable<K, V, S> {
    type V = Map<Seq<u8>, Seq<u8>>;

    closed spec fn view(&self) -> Map<Seq<u8>, Seq<u8>> {
        read_table_entries(self.raw)
    }
}

impl<K: Codec, V: Codec, S: SortOrder> ReadOnlyTable<K, V, S> {
    pub(crate) fn from_raw(raw: RawReadTable) -> (r: Self)
        ensures
            r@ == read_table_entries(raw),
    {
        ReadOnlyTable { raw, _k: PhantomData, _v: PhantomData, _s: PhantomData }
    }

    /// The raw byte-keyed store table underneath this typed handle.
    pub fn as_raw(&self) -> &RawReadTable {
        &self.raw
    }

    /// Looks the key up: its encoding is handed to the store, and a found
    /// value comes back as an undecoded guard. Absence is `None`, never an
    /// error.
    pub fn get(&self, key: &K) -> (r: Result<Option<AccessGuard<V>>, StorageError>)
        ensures
            K::wf_model(key.deep_view()),
            r matches Ok(o) ==> {
                &&& o is Some <==> self@.contains_key(K::encoding_of(key.deep_view()))
                &&& o matches Some(g) ==> g@ == self@[K::encoding_of(key.deep_view())]
            },
    {
        let kb = encode_value(key);
        match store::ro_get(&self.raw, kb.as_slice()) {
            Ok(Some(v)) => Ok(Some(AccessGuard::new(v))),
            Ok(None) => Ok(None),
            Err(e) => Err(e),
        }
    }

    /// The entry with the least key in the store's byte order, or `None`
    /// on a table with no entries.
    pub fn first(&self) -> (r: Result<
        Option<(AccessGuard<K, SortKey<S>>, AccessGuard<V>)>,
        StorageError,
    >)
        ensures
            r matches Ok(o) ==> {
                &&& o is None <==> self@ =~= Map::<Seq<u8>, Seq<u8>>::empty()
                &&& o matches Some((kg, vg)) ==> {
                    &&& self@.contains_key(kg@)
                    &&& vg@ == self@[kg@]
                    &&& forall|k2: Seq<u8>| self@.contains_key(k2) ==> lex_le(kg@, k2)
                }
            },
    {
        match store::ro_first(&self.raw) {
            Ok(Some((k, v))) => Ok(Some((AccessGuard::new(k), AccessGuard::new(v)))),
            Ok(None) => Ok(None),
            Err(e) => Err(e),
        }
    }

    /// The entry with the greatest key in the store's byte order, or
    /// `None` on a table with no entries.
    pub fn last(&self) -> (r: Result<
        Option<(AccessGuard<K, SortKey<S>>, AccessGuard<V>)>,
        StorageError,
    >)
        ensures
            r matches Ok(o) ==> {
                &&& o is None <==> self@ =~= Map::<Seq<u8>, Seq<u8>>::empty()
                &&& o matches Some((kg, vg)) ==> {
                    &&& self@.contains_key(kg@)
                    &&& vg@ == self@[kg@]
                    &&& forall|k2: Seq<u8>| self@.contains_key(k2) ==> lex_le(k2, kg@)
                }
            },
    {
        match store::ro_last(&self.raw) {
            Ok(Some((k, v))) => Ok(Some((AccessGuard::new(k), AccessGuard::new(v)))),
            Ok(None) => Ok(None),
            Err(e) => Err(e),
        }
    }

    /// A cursor over the entries whose keys lie between the given typed
    /// bounds, which are encoded with the same inclusivity. An empty or
    /// inverted bound pair yields an empty sequence, never an error.
    pub fn range(&self, start: RangeBound<&K>, end: RangeBound<&K>) -> (r: Result<
        Range<'_, K, V, SortKey<S>>,
        StorageError,
    >)
        ensures
            r matches Ok(rg) ==> is_range_listing(
                self@,
                encoded_bound(start),
                encoded_bound(end),
                rg@,
            ),
    {
        let sb = encode_bound(start);
        let eb = encode_bound(end);
        let rg = store::ro_range(&self.raw, as_byte_bound(&sb), as_byte_bound(&eb))?;
        Ok(Range::from_raw(rg))
    }
}

/// A typed handle over one store table opened in a write transaction: the
/// primary public surface. Every operation encodes its typed arguments,
/// delegates to the store's raw-byte operation, and wraps any returned raw
/// bytes in a typed guard for lazy decoding.
pub struct Table<'txn, K, V, S = Lexicographical> {
    raw: RawTable<'txn>,
    _k: PhantomData<K>,
    _v: PhantomData<V>,
    _s: PhantomData<S>,
}

impl<'txn, K, V, S> View for Table<'txn, K, V, S> {
    type V = Map<Seq<u8>, Seq<u8>>;

    closed spec fn view(&self) -> Map<Seq<u8>, Seq<u8>> {
        table_entries(self.raw)
    }
}

impl<'txn, K: Codec, V: Codec, S: SortOrder> Table<'txn, K, V, S> {
    pub(crate) fn from_raw(raw: RawTable<'txn>) -> (r: Self)
        ensures
            r@ == table_entries(raw),
    {
        Table { raw, _k: PhantomData, _v: PhantomData, _s: PhantomData }
    }

    /// The raw byte-keyed store table underneath this typed handle.
    pub fn as_raw(&self) -> &RawTable<'txn> {
        &self.raw
    }

    /// The raw store table, mutably: whatever the caller does through it
    /// becomes this handle's state.
    pub fn as_raw_mut(&mut self) -> (r: &mut RawTable<'txn>)
        ensures
            table_entries(*r) == old(self)@,
            final(self)@ == table_entries(*final(r)),
    {
        &mut self.raw
    }

    /// Looks the key up: its encoding is handed to the store, and a found
    /// value comes back as an undecoded guard. Absence is `None`, never an
    /// error.
    pub fn get(&self, key: &K) -> (r: Result<Option<AccessGuard<V>>, StorageError>)
        ensures
            K::wf_model(key.deep_view()),
            r matches Ok(o) ==> {
                &&& o is Some <==> self@.contains_key(K::encoding_of(key.deep_view()))
                &&& o matches Some(g) ==> g@ == self@[K::encoding_of(key.deep_view())]
            },
    {
        let kb = encode_value(key);
        match store::raw_get(&self.raw, kb.as_slice()) {
            Ok(Some(v)) => Ok(Some(AccessGuard::new(v))),
            Ok(None) => Ok(None),
            Err(e) => Err(e),
        }
    }

    /// Maps the key to the value, both in their canonical encodings, and
    /// returns the previously stored value if one existed.
    pub fn insert(&mut self, key: &K, value: &V) -> (r: Result<
        Option<AccessGuard<V>>,
        StorageError,
    >)
        ensures
            K::wf_model(key.deep_view()),
            V::wf_model(value.deep_view()),
            r matches Ok(o) ==> {
                &&& final(self)@ == old(self)@.insert(
                    K::encoding_of(key.deep_view()),
                    V::encoding_of(value.deep_view()),
                )
                &&& o is Some <==> old(self)@.contains_key(K::encoding_of(key.deep_view()))
                &&& o matches Some(g) ==> g@ == old(self)@[K::encoding_of(key.deep_view())]
            },
    {
        let kb = encode_value(key);
        let vb = encode_value(value);
        match store::raw_insert(&mut self.raw, kb.as_slice(), vb.as_slice()) {
            Ok(Some(v)) => Ok(Some(AccessGuard::new(v))),
            Ok(None) => Ok(None),
            Err(e) => Err(e),
        }
    }

    /// Removes the key, returning the value it held if it was present.
    /// Removing an absent key returns `None` and leaves the table
    /// unchanged.
    pub fn remove(&mut self, key: &K) -> (r: Result<Option<AccessGuard<V>>, StorageError>)
        ensures
            K::wf_model(key.deep_view()),
            r matches Ok(o) ==> {
                &&& final(self)@ == old(self)@.remove(K::encoding_of(key.deep_view()))
                &&& o is Some <==> old(self)@.contains_key(K::encoding_of(key.deep_view()))
                &&& o matches Some(g) ==> g@ == old(self)@[K::encoding_of(key.deep_view())]
            },
    {
        let kb = encode_value(key);
        match store::raw_remove(&mut self.raw, kb.as_slice()) {
            Ok(Some(v)) => Ok(Some(AccessGuard::new(v))),
            Ok(None) => Ok(None),
            Err(e) => Err(e),
        }
    }

    /// The entry with the least key in the store's byte order, or `None`
    /// on a table with no entries.
    pub fn first(&self) -> (r: Result<
        Option<(AccessGuard<K, SortKey<S>>, AccessGuard<V>)>,
        StorageError,
    >)
        ensures
            r matches Ok(o) ==> {
                &&& o is None <==> self@ =~= Map::<Seq<u8>, Seq<u8>>::empty()
                &&& o matches Some((kg, vg)) ==> {
                    &&& self@.contains_key(kg@)
                    &&& vg@ == self@[kg@]
                    &&& forall|k2: Seq<u8>| self@.contains_key(k2) ==> lex_le(kg@, k2)
                }
            },
    {
        match store::raw_first(&self.raw) {
            Ok(Some((k, v))) => Ok(Some((AccessGuard::new(k), AccessGuard::new(v)))),
            Ok(None) => Ok(None),
            Err(e) => Err(e),
        }
    }

    /// The entry with the greatest key in the store's byte order, or
    /// `None` on a table with no entries.
    pub fn last(&self) -> (r: Result<
        Option<(AccessGuard<K, SortKey<S>>, AccessGuard<V>)>,
        StorageError,
    >)
        ensures
            r matches Ok(o) ==> {
                &&& o is None <==> self@ =~= Map::<Seq<u8>, Seq<u8>>::empty()
                &&& o matches Some((kg, vg)) ==> {
                    &&& self@.contains_key(kg@)
                    &&& vg@ == self@[kg@]
                    &&& forall|k2: Seq<u8>| self@.contains_key(k2) ==> lex_le(k2, kg@)
                }
            },
    {
        match store::raw_last(&self.raw) {
            Ok(Some((k, v))) => Ok(Some((AccessGuard::new(k), AccessGuard::new(v)))),
            Ok(None) => Ok(None),
            Err(e) => Err(e),
        }
    }

    /// A cursor over the entries whose keys lie between the given typed
    /// bounds, which are encoded with the same inclusivity. An empty or
    /// inverted bound pair yields an empty sequence, never an error.
    pub fn range(&self, start: RangeBound<&K>, end: RangeBound<&K>) -> (r: Result<
        Range<'_, K, V, SortKey<S>>,
        StorageError,
    >)
        ensures
            r matches Ok(rg) ==> is_range_listing(
                self@,
                encoded_bound(start),
                encoded_bound(end),
                rg@,
            ),
    {
        let sb = encode_bound(start);
        let eb = encode_bound(end);
        let rg = store::raw_range(&self.raw, as_byte_bound(&sb), as_byte_bound(&eb))?;
        Ok(Range::from_raw(rg))
    }

    /// Applies the predicate to every entry whose key lies within the given
    /// bounds, decoding key and value first, and removes the entries it
    /// rejects. Entries outside the bounds are untouched. Decode failure
    /// here is fatal — the bounds are required to cover well-formed entries
    /// only — since retaining assumes all covered entries were written by
    /// matching code.
    pub fn retain_in<F: Fn(&K, &V) -> bool>(
        &mut self,
        start: RangeBound<&K>,
        end: RangeBound<&K>,
        predicate: F,
    ) -> (r: Result<(), StorageError>)
        requires
            forall|k: K, v: V| #[trigger] call_requires(predicate, (&k, &v)),
            forall|kb: Seq<u8>|
                #[trigger] old(self)@.contains_key(kb) && in_byte_range(
                    kb,
                    encoded_bound(start),
                    encoded_bound(end),
                ) ==> decoded_value::<K>(kb) is Ok && decoded_value::<V>(old(self)@[kb]) is Ok,
        ensures
            r is Ok ==> {
                &&& forall|kb: Seq<u8>|
                    #[trigger] final(self)@.contains_key(kb) ==> old(self)@.contains_key(kb)
                        && final(self)@[kb] == old(self)@[kb]
                &&& forall|kb: Seq<u8>|
                    #[trigger] old(self)@.contains_key(kb) && !in_byte_range(
                        kb,
                        encoded_bound(start),
                        encoded_bound(end),
                    ) ==> final(self)@.contains_key(kb)
                &&& forall|kb: Seq<u8>|
                    #[trigger] old(self)@.contains_key(kb) && in_byte_range(
                        kb,
                        encoded_bound(start),
                        encoded_bound(end),
                    ) && final(self)@.contains_key(kb) ==> entry_verdict::<K, V, F>(
                        predicate,
                        kb,
                        old(self)@[kb],
                        true,
                    )
                &&& forall|kb: Seq<u8>|
                    #[trigger] old(self)@.contains_key(kb) && in_byte_range(
                        kb,
                        encoded_bound(start),
                        encoded_bound(end),
                    ) && !final(self)@.contains_key(kb) ==> entry_verdict::<K, V, F>(
                        predicate,
                        kb,
                        old(self)@[kb],
                        false,
                    )
            },
    {
        let ghost lo = encoded_bound(start);
        let ghost hi = encoded_bound(end);
        let ghost m0 = self@;
        let sb = encode_bound(start);
        let eb = encode_bound(end);
        // The cursor borrows the table, so the covered entries are first
        // collected whole; the removals happen afterwards.
        let mut entries: Vec<(Vec<u8>, Vec<u8>)> = Vec::new();
        let ghost mut es: Seq<(Seq<u8>, Seq<u8>)> = Seq::empty();
        {
            let mut rg = match store::raw_range(&self.raw, as_byte_bound(&sb), as_byte_bound(&eb)) {
                Ok(rg) => rg,
                Err(e) => {
                    return Err(e);
                },
            };
            proof {
                es = store::range_entries(rg);
                assert(es.skip(0) =~= es);
            }
            let mut done = false;
            while !done
                invariant
                    is_range_listing(m0, lo, hi, es),
                    entries@.len() <= es.len(),
                    forall|j: int|
                        0 <= j < entries@.len() ==> (#[trigger] entries@[j].0@, entries@[j].1@)
                            == es[j],
                    !done ==> store::range_entries(rg) == es.skip(entries@.len() as int),
                    done ==> entries@.len() == es.len(),
                decreases es.len() - entries@.len() + (if done {
                    0int
                } else {
                    1
                }),
            {
                match store::raw_range_next(&mut rg) {
                    None => {
                        proof {
                            assert(es.skip(entries@.len() as int).len() == 0);
                        }
                        done = true;
                    },
                    Some(Ok((kb, vb))) => {
                        proof {
                            let n = entries@.len() as int;
                            assert(es.skip(n)[0] == es[n]);
                            assert(es.skip(n).skip(1) =~= es.skip(n + 1));
                        }
                        entries.push((kb, vb));
                    },
                    Some(Err(e)) => {
                        return Err(e);
                    },
                }
            }
        }
        let n = entries.len();
        let mut i: usize = 0;
        while i < n
            invariant
                n == entries@.len(),
                i <= n,
                m0 == old(self)@,
                entries@.len() == es.len(),
                is_range_listing(m0, lo, hi, es),
                forall|j: int|
                    0 <= j < es.len() ==> (#[trigger] entries@[j].0@, entries@[j].1@) == es[j],
                forall|k: K, v: V| #[trigger] call_requires(predicate, (&k, &v)),
                forall|kb: Seq<u8>|
                    #[trigger] m0.contains_key(kb) && in_byte_range(kb, lo, hi) ==> decoded_value::<
                        K,
                    >(kb) is Ok && decoded_value::<V>(m0[kb]) is Ok,
                forall|kb: Seq<u8>|
                    #[trigger] self@.contains_key(kb) ==> m0.contains_key(kb) && self@[kb]
                        == m0[kb],
                forall|kb: Seq<u8>|
                    #[trigger] m0.contains_key(kb) && !(exists|j: int|
                        0 <= j < i && (#[trigger] es[j]).0 == kb) ==> self@.contains_key(kb),
                forall|j: int|
                    0 <= j < i && #[trigger] self@.contains_key(es[j].0) ==> entry_verdict::<
                        K,
                        V,
                        F,
                    >(predicate, es[j].0, m0[es[j].0], true),
                forall|j: int|
                    0 <= j < i && !(#[trigger] self@.contains_key(es[j].0)) ==> entry_verdict::<
                        K,
                        V,
                        F,
                    >(predicate, es[j].0, m0[es[j].0], false),
            decreases n - i,
        {
            proof {
                assert((entries@[i as int].0@, entries@[i as int].1@) == es[i as int]);
                assert(m0.contains_key(es[i as int].0) && in_byte_range(es[i as int].0, lo, hi));
                assert(m0[es[i as int].0] == es[i as int].1);
                assert_forall_distinct_keys(es, i as int);
            }
            let entry = &entries[i];
            let k: K = match decode_value::<K>(entry.0.as_slice()) {
                Ok(k) => k,
                Err(_) => unreached(),
            };
            let v: V = match decode_value::<V>(entry.1.as_slice()) {
                Ok(v) => v,
                Err(_) => unreached(),
            };
            let keep = predicate(&k, &v);
            let ghost before = self@;
            if !keep {
                match store::raw_remove(&mut self.raw, entry.0.as_slice()) {
                    Ok(_) => (),
                    Err(e) => {
                        return Err(e);
                    },
                }
            }
            proof {
                let ki = es[i as int].0;
                assert(before.contains_key(ki));
                assert(call_ensures(predicate, (&k, &v), keep));
                if keep {
                    assert(self@.contains_key(ki));
                    assert(entry_verdict::<K, V, F>(predicate, ki, m0[ki], true));
                } else {
                    assert(self@ == before.remove(ki));
                    assert(!self@.contains_key(ki));
                    assert(entry_verdict::<K, V, F>(predicate, ki, m0[ki], false));
                }
                assert forall|j: int|
                    0 <= j < i + 1 && #[trigger] self@.contains_key(es[j].0) implies entry_verdict::<
                    K,
                    V,
                    F,
                >(predicate, es[j].0, m0[es[j].0], true) by {
                    if j < i {
                        assert(es[j].0 != ki);
                        assert(before.contains_key(es[j].0));
                    }
                }
                assert forall|j: int|
                    0 <= j < i + 1 && !(#[trigger] self@.contains_key(
                        es[j].0,
                    )) implies entry_verdict::<K, V, F>(predicate, es[j].0, m0[es[j].0], false) by {
                    if j < i {
                        assert(es[j].0 != ki);
                        if before.contains_key(es[j].0) {
                            assert(self@.contains_key(es[j].0));
                        }
                    }
                }
            }
            i = i + 1;
        }
        proof {
            assert forall|kb: Seq<u8>|
                #[trigger] m0.contains_key(kb) && !in_byte_range(kb, lo, hi) implies self@.contains_key(
                kb,
            ) by {
                if exists|j: int| 0 <= j < i && (#[trigger] es[j]).0 == kb {
                    let j = choose|j: int| 0 <= j < i && (#[trigger] es[j]).0 == kb;
                    assert(in_byte_range(es[j].0, lo, hi));
                }
            }
            assert forall|kb: Seq<u8>|
                #[trigger] m0.contains_key(kb) && in_byte_range(kb, lo, hi)
                    && self@.contains_key(kb) implies entry_verdict::<K, V, F>(
                predicate,
                kb,
                m0[kb],
                true,
            ) by {
                let j = choose|j: int| 0 <= j < es.len() && (#[trigger] es[j]).0 == kb;
                assert(es[j].1 == m0[kb]);
            }
            assert forall|kb: Seq<u8>|
                #[trigger] m0.contains_key(kb) && in_byte_range(kb, lo, hi) && !self@.contains_key(
                    kb,
                ) implies entry_verdict::<K, V, F>(predicate, kb, m0[kb], false) by {
                let j = choose|j: int| 0 <= j < es.len() && (#[trigger] es[j]).0 == kb;
                assert(es[j].1 == m0[kb]);
            }
        }
        Ok(())
    }

    /// Applies the predicate to every entry in the table, decoding key and
    /// value, and removes the entries it rejects: a predicate that accepts
    /// everything leaves the table unchanged, one that rejects everything
    /// empties it. Decode failure is fatal, since retaining assumes all
    /// stored entries are well-formed for the table's types.
    pub fn retain<F: Fn(&K, &V) -> bool>(&mut self, predicate: F) -> (r: Result<
        (),
        StorageError,
    >)
        requires
            forall|k: K, v: V| #[trigger] call_requires(predicate, (&k, &v)),
            forall|kb: Seq<u8>|
                #[trigger] old(self)@.contains_key(kb) ==> decoded_value::<K>(kb) is Ok
                    && decoded_value::<V>(old(self)@[kb]) is Ok,
        ensures
            r is Ok ==> {
                &&& forall|kb: Seq<u8>|
                    #[trigger] final(self)@.contains_key(kb) ==> old(self)@.contains_key(kb)
                        && final(self)@[kb] == old(self)@[kb]
                &&& forall|kb: Seq<u8>|
                    #[trigger] old(self)@.contains_key(kb) && final(self)@.contains_key(kb)
                        ==> entry_verdict::<K, V, F>(predicate, kb, old(self)@[kb], true)
                &&& forall|kb: Seq<u8>|
                    #[trigger] old(self)@.contains_key(kb) && !final(self)@.contains_key(kb)
                        ==> entry_verdict::<K, V, F>(predicate, kb, old(self)@[kb], false)
            },
    {
        self.retain_in(RangeBound::Unbounded, RangeBound::Unbounded, predicate)
    }
}

/// Strictly ascending keys are distinct: no earlier entry of a range
/// listing shares the key at `i`.
proof fn assert_forall_distinct_keys(es: Seq<(Seq<u8>, Seq<u8>)>, i: int)
    requires
        0 <= i < es.len(),
        forall|a: int, b: int| 0 <= a < b < es.len() ==> #[trigger] lex_lt(es[a].0, es[b].0),
    ensures
        forall|j: int| 0 <= j < i ==> (#[trigger] es[j]).0 != es[i].0,
{
    assert forall|j: int| 0 <= j < i implies (#[trigger] es[j]).0 != es[i].0 by {
        assert(lex_lt(es[j].0, es[i].0));
        if es[j].0 == es[i].0 {
            sort::lemma_lex_cmp_eq(es[i].0, es[i].0);
        }
    }
}

/// The predicate `f`, applied to the typed pair that the entry
/// `(kb, vb)` decodes to, can return the verdict `b`.
pub open spec fn entry_verdict<K: Codec, V: Codec, F: Fn(&K, &V) -> bool>(
    f: F,
    kb: Seq<u8>,
    vb: Seq<u8>,
    b: bool,
) -> bool {
    exists|k: K, v: V|
        {
            &&& decoded_value::<K>(kb) == Ok::<K::V, DecodeError>(k.deep_view())
            &&& decoded_value::<V>(vb) == Ok::<V::V, DecodeError>(v.deep_view())
            &&& #[trigger] call_ensures(f, (&k, &v), b)
        }
}

/// Ordering over a range: entries come out sorted by the byte order of
/// their encoded keys — that is what [`is_range_listing`] states — and for
/// unsigned integer keys that byte order is the numeric order, so any two
/// entries of the listing carry numerically ascending keys.
/// Ordering over a range, stated against the comparator: the entries of a
/// range listing come out strictly ascending under [`Lexicographical`]'s
/// comparison of their encoded keys — the one order a table can be opened
/// with. In particular each entry a cursor yields compares strictly below
/// the next one.
pub proof fn lemma_range_listing_sorted(
    m: Map<Seq<u8>, Seq<u8>>,
    lo: RangeBound<Seq<u8>>,
    hi: RangeBound<Seq<u8>>,
    s: Seq<(Seq<u8>, Seq<u8>)>,
    i: int,
    j: int,
)
    requires
        is_range_listing(m, lo, hi, s),
        0 <= i < j < s.len(),
    ensures
        <Lexicographical as SortOrder>::cmp_spec(s[i].0, s[j].0) == core::cmp::Ordering::Less,
{
    assert(lex_lt(s[i].0, s[j].0));
}

/// The converse position law for integer keys: of two entries in a range
/// listing whose keys encode the integers `x < y`, the entry for `x`
/// stands strictly earlier in the listing.
pub proof fn lemma_range_listing_positions(
    m: Map<Seq<u8>, Seq<u8>>,
    lo: RangeBound<Seq<u8>>,
    hi: RangeBound<Seq<u8>>,
    s: Seq<(Seq<u8>, Seq<u8>)>,
    i: int,
    j: int,
    x: u64,
    y: u64,
)
    requires
        is_range_listing(m, lo, hi, s),
        0 <= i < s.len(),
        0 <= j < s.len(),
        s[i].0 == <u64 as Codec>::encoding_of(x),
        s[j].0 == <u64 as Codec>::encoding_of(y),
        x < y,
    ensures
        i < j,
{
    codec::lemma_varint64_order(x, y);
    if i == j {
        lemma_lex_cmp_eq(s[i].0, s[j].0);
        assert(false);
    } else if j < i {
        assert(lex_lt(s[j].0, s[i].0));
        codec::lemma_varint64_order(y, x);
        assert(false);
    }
}

pub proof fn lemma_range_listing_numeric_order(
    m: Map<Seq<u8>, Seq<u8>>,
    lo: RangeBound<Seq<u8>>,
    hi: RangeBound<Seq<u8>>,
    s: Seq<(Seq<u8>, Seq<u8>)>,
    i: int,
    j: int,
    x: u64,
    y: u64,
)
    requires
        is_range_listing(m, lo, hi, s),
        0 <= i < j < s.len(),
        s[i].0 == <u64 as Codec>::encoding_of(x),
        s[j].0 == <u64 as Codec>::encoding_of(y),
    ensures
        x < y,
{
    assert(lex_lt(s[i].0, s[j].0));
    codec::lemma_varint64_order(x, y);
}

/// Round trip: inserting an encodable key/value pair updates the table
/// model so that a lookup of the key finds exactly the value's encoding,
/// and decoding it yields a value equal to the original.
///
/// Together with the contracts of [`Table::insert`], [`Table::get`] and
/// [`AccessGuard::value_try`], this says that `insert(key, value)` followed
/// by `get(key)` decodes to `value`.
pub proof fn lemma_insert_get_round_trip<K: Codec, V: Codec>(
    m: Map<Seq<u8>, Seq<u8>>,
    k: K::V,
    v: V::V,
)
    requires
        K::wf_model(k),
        V::wf_model(v),
    ensures
        m.insert(K::encoding_of(k), V::encoding_of(v)).contains_key(K::encoding_of(k)),
        decoded_value::<V>(m.insert(K::encoding_of(k), V::encoding_of(v))[K::encoding_of(k)])
            == Ok::<V::V, DecodeError>(v),
{
    V::lemma_round_trip(v, Seq::empty());
    assert(V::encoding_of(v) + Seq::<u8>::empty() =~= V::encoding_of(v));
}

/// Remove semantics: after removing a key, a lookup of it misses, so a
/// subsequent `get` returns `None`; removing a key the table does not hold
/// leaves the table unchanged. That `remove` returns the previous value is
/// stated by [`Table::remove`]'s own contract.
pub proof fn lemma_remove_get<K: Codec, V: Codec>(m: Map<Seq<u8>, Seq<u8>>, k: K::V)
    ensures
        !m.remove(K::encoding_of(k)).contains_key(K::encoding_of(k)),
        !m.contains_key(K::encoding_of(k)) ==> m.remove(K::encoding_of(k)) =~= m,
{
}

/// Insert-returns-previous: after `insert(key, v1)`, a second
/// `insert(key, v2)` finds exactly `v1`'s encoding as the previous value —
/// which decodes to `v1` — and leaves the table decoding `v2` under the
/// key.
pub proof fn lemma_insert_insert<K: Codec, V: Codec>(
    m: Map<Seq<u8>, Seq<u8>>,
    k: K::V,
    v1: V::V,
    v2: V::V,
)
    requires
        K::wf_model(k),
        V::wf_model(v1),
        V::wf_model(v2),
    ensures
        ({
            let kenc = K::encoding_of(k);
            let m1 = m.insert(kenc, V::encoding_of(v1));
            let m2 = m1.insert(kenc, V::encoding_of(v2));
            &&& m1.contains_key(kenc)
            &&& decoded_value::<V>(m1[kenc]) == Ok::<V::V, DecodeError>(v1)
            &&& decoded_value::<V>(m2[kenc]) == Ok::<V::V, DecodeError>(v2)
        }),
{
    lemma_insert_get_round_trip::<K, V>(m, k, v1);
    lemma_insert_get_round_trip::<K, V>(m.insert(K::encoding_of(k), V::encoding_of(v1)), k, v2);
}

} // verus!
