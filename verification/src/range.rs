//! Typed range iteration: caller-supplied bounds over keys, translated to
//! byte-level bounds, and a lazy cursor over the entries between them.

use vstd::prelude::*;

verus! {

use core::marker::PhantomData;
use crate::access_guard::AccessGuard;
use crate::codec::Codec;
use crate::sort::{lex_le, lex_lt};
use crate::store;
use crate::store::{RawRange, range_entries};

/// One end of a caller-supplied range of keys.
#[derive(Clone, Copy, Debug)]
pub enum RangeBound<T> {
    /// No constraint at this end.
    Unbounded,
    /// The range includes the given key at this end.
    Included(T),
    /// The range excludes the given key at this end.
    Excluded(T),
}

/// A raw byte bound as the store sees it, lifted to its model.
pub open spec fn byte_bound_view(b: RangeBound<&[u8]>) -> RangeBound<Seq<u8>> {
    match b {
        RangeBound::Unbounded => RangeBound::Unbounded,
        RangeBound::Included(x) => RangeBound::Included(x@),
        RangeBound::Excluded(x) => RangeBound::Excluded(x@),
    }
}

/// The byte-level bound a typed bound translates to: the same end kind —
/// inclusive stays inclusive, exclusive stays exclusive — over the key's
/// canonical encoding.
pub open spec fn encoded_bound<K: Codec>(b: RangeBound<&K>) -> RangeBound<Seq<u8>> {
    match b {
        RangeBound::Unbounded => RangeBound::Unbounded,
        RangeBound::Included(k) => RangeBound::Included(K::encoding_of(k.deep_view())),
        RangeBound::Excluded(k) => RangeBound::Excluded(K::encoding_of(k.deep_view())),
    }
}

/// The key `k` satisfies the lower bound `lo`.
pub open spec fn above_lo(lo: RangeBound<Seq<u8>>, k: Seq<u8>) -> bool {
    match lo {
        RangeBound::Unbounded => true,
        RangeBound::Included(b) => lex_le(b, k),
        RangeBound::Excluded(b) => lex_lt(b, k),
    }
}

/// The key `k` satisfies the upper bound `hi`.
pub open spec fn below_hi(hi: RangeBound<Seq<u8>>, k: Seq<u8>) -> bool {
    match hi {
        RangeBound::Unbounded => true,
        RangeBound::Included(b) => lex_le(k, b),
        RangeBound::Excluded(b) => lex_lt(k, b),
    }
}

/// The key `k` lies between the two byte-level bounds.
pub open spec fn in_byte_range(k: Seq<u8>, lo: RangeBound<Seq<u8>>, hi: RangeBound<Seq<u8>>) -> bool {
    above_lo(lo, k) && below_hi(hi, k)
}

/// `s` lists exactly the entries of `m` whose keys lie between the bounds,
/// in ascending lexicographic key order.
pub open spec fn is_range_listing(
    m: Map<Seq<u8>, Seq<u8>>,
    lo: RangeBound<Seq<u8>>,
    hi: RangeBound<Seq<u8>>,
    s: Seq<(Seq<u8>, Seq<u8>)>,
) -> bool {
    &&& forall|i: int, j: int| 0 <= i < j < s.len() ==> #[trigger] lex_lt(s[i].0, s[j].0)
    &&& forall|i: int|
        0 <= i < s.len() ==> m.contains_key((#[trigger] s[i]).0) && m[s[i].0] == s[i].1
            && in_byte_range(s[i].0, lo, hi)
    &&& forall|k: Seq<u8>|
        #[trigger] m.contains_key(k) && in_byte_range(k, lo, hi) ==> exists|i: int|
            0 <= i < s.len() && (#[trigger] s[i]).0 == k
}

/// An owned byte-level bound, lifted to its model.
pub open spec fn owned_bound_view(b: RangeBound<Vec<u8>>) -> RangeBound<Seq<u8>> {
    match b {
        RangeBound::Unbounded => RangeBound::Unbounded,
        RangeBound::Included(x) => RangeBound::Included(x@),
        RangeBound::Excluded(x) => RangeBound::Excluded(x@),
    }
}

/// Translates a typed bound to the byte-level bound the store is handed:
/// the end kind carries over unchanged — inclusive stays inclusive,
/// exclusive stays exclusive — and the key is replaced by its encoding.
pub fn encode_bound<K: Codec>(b: RangeBound<&K>) -> (r: RangeBound<Vec<u8>>)
    ensures
        owned_bound_view(r) == encoded_bound(b),
        b is Unbounded <==> r is Unbounded,
        b is Included <==> r is Included,
        b is Excluded <==> r is Excluded,
{
    match b {
        RangeBound::Unbounded => RangeBound::Unbounded,
        RangeBound::Included(k) => RangeBound::Included(crate::codec::encode_value(k)),
        RangeBound::Excluded(k) => RangeBound::Excluded(crate::codec::encode_value(k)),
    }
}

/// Borrows an owned byte bound as the slice-level bound the store takes.
pub(crate) fn as_byte_bound(b: &RangeBound<Vec<u8>>) -> (r: RangeBound<&[u8]>)
    ensures
        byte_bound_view(r) == owned_bound_view(*b),
{
    match b {
        RangeBound::Unbounded => RangeBound::Unbounded,
        RangeBound::Included(v) => RangeBound::Included(v.as_slice()),
        RangeBound::Excluded(v) => RangeBound::Excluded(v.as_slice()),
    }
}

/// A lazy, forward-only, non-restartable sequence of key/value guard pairs,
/// backed by a store cursor; it exhausts when the cursor exhausts, and
/// re-iterating requires asking the table for a new range.
pub struct Range<'a, K, V, IK = &'static [u8]> {
    raw: RawRange<'a>,
    _k: PhantomData<K>,
    _v: PhantomData<V>,
    _ik: PhantomData<IK>,
}

impl<'a, K, V, IK> View for Range<'a, K, V, IK> {
    type V = Seq<(Seq<u8>, Seq<u8>)>;

    closed spec fn view(&self) -> Seq<(Seq<u8>, Seq<u8>)> {
        range_entries(self.raw)
    }
}

impl<'a, K: Codec, V: Codec, IK> Range<'a, K, V, IK> {
    pub(crate) fn from_raw(raw: RawRange<'a>) -> (r: Self)
        ensures
            r@ == range_entries(raw),
    {
        Range { raw, _k: PhantomData, _v: PhantomData, _ik: PhantomData }
    }

    /// The next entry, as a fresh pair of undecoded guards; `None` once the
    /// underlying cursor is exhausted. A storage error is surfaced for the
    /// step it occurred on.
    pub fn next(&mut self) -> (r: Option<
        Result<(AccessGuard<K, IK>, AccessGuard<V>), redb::StorageError>,
    >)
        ensures
            r is None ==> old(self)@.len() == 0 && final(self)@.len() == 0,
            r matches Some(Ok((kg, vg))) ==> {
                &&& old(self)@.len() > 0
                &&& kg@ == old(self)@[0].0
                &&& vg@ == old(self)@[0].1
                &&& final(self)@ == old(self)@.skip(1)
            },
    {
        match store::raw_range_next(&mut self.raw) {
            None => None,
            Some(Ok((k, v))) => Some(Ok((AccessGuard::new(k), AccessGuard::new(v)))),
            Some(Err(e)) => Some(Err(e)),
        }
    }
}

} // verus!
