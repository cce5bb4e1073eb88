//! The lazy-decode access guard: a handle to one stored value whose
//! decoding is deferred until the caller actually reads it.

use vstd::prelude::*;

verus! {

use core::marker::PhantomData;
use vstd::pervasive::unreached;
use crate::codec::{Codec, DecodeError, decode_value, decoded_value};

/// Unifies storage failures and decode failures, for callers that want a
/// single error surface at the guard layer.
#[derive(Debug)]
pub enum AccessError {
    /// The underlying store failed; propagated unchanged.
    Storage(redb::StorageError),
    /// The stored bytes did not parse as the requested type.
    Decode(DecodeError),
}

impl From<redb::StorageError> for AccessError {
    fn from(value: redb::StorageError) -> (r: AccessError) {
        AccessError::Storage(value)
    }
}

impl vstd::std_specs::convert::FromSpecImpl<redb::StorageError> for AccessError {
    open spec fn obeys_from_spec() -> bool {
        true
    }

    open spec fn from_spec(v: redb::StorageError) -> AccessError {
        AccessError::Storage(v)
    }
}

impl From<DecodeError> for AccessError {
    fn from(value: DecodeError) -> (r: AccessError) {
        AccessError::Decode(value)
    }
}

impl vstd::std_specs::convert::FromSpecImpl<DecodeError> for AccessError {
    open spec fn obeys_from_spec() -> bool {
        true
    }

    open spec fn from_spec(v: DecodeError) -> AccessError {
        AccessError::Decode(v)
    }
}

/// Holds one store-returned byte value plus a type-level marker for the
/// target decode type `V`; decoding is deferred until [`value`] or
/// [`value_try`] is called. `IV` marks the decode position: a plain value,
/// or a key tagged with its sort-order marker.
///
/// [`value`]: AccessGuard::value
/// [`value_try`]: AccessGuard::value_try
pub struct AccessGuard<V, IV = &'static [u8]> {
    bytes: Vec<u8>,
    _v: PhantomData<V>,
    _iv: PhantomData<IV>,
}

impl<V, IV> View for AccessGuard<V, IV> {
    type V = Seq<u8>;

    closed spec fn view(&self) -> Seq<u8> {
        self.bytes@
    }
}

impl<V, IV> AccessGuard<V, IV> {
    /// Wraps raw stored bytes for later decoding.
    pub(crate) fn new(bytes: Vec<u8>) -> (r: Self)
        ensures
            r@ == bytes@,
    {
        AccessGuard { bytes, _v: PhantomData, _iv: PhantomData }
    }
}

impl<V: Codec, IV> AccessGuard<V, IV> {
    /// Decodes the held bytes eagerly. A decode failure here is treated as
    /// non-recoverable — the wrong type parameter reused on a table, or
    /// data corruption — so malformed bytes are excluded up front: callable
    /// only when the caller trusts that the table's contents were written
    /// by matching code.
    pub fn value(&self) -> (r: V)
        requires
            decoded_value::<V>(self@) is Ok,
        ensures
            decoded_value::<V>(self@) == Ok::<V::V, DecodeError>(r.deep_view()),
    {
        match decode_value::<V>(self.bytes.as_slice()) {
            Ok(v) => v,
            Err(_) => unreached(),
        }
    }

    /// Decodes the held bytes, surfacing malformed data as a recoverable
    /// error — the variant to use when untrusted or heterogeneous encodings
    /// are possible.
    pub fn value_try(&self) -> (r: Result<V, DecodeError>)
        ensures
            match r {
                Ok(v) => decoded_value::<V>(self@) == Ok::<V::V, DecodeError>(v.deep_view()),
                Err(e) => decoded_value::<V>(self@) == Err::<V::V, DecodeError>(e),
            },
    {
        decode_value(self.bytes.as_slice())
    }
}

} // verus!
