//! Byte-sequence ordering: the pluggable comparator mechanism that a typed
//! table delegates its key ordering to.

use vstd::prelude::*;

verus! {

use core::cmp::Ordering;
use vstd::slice::slice_index_get;

/// Three-way lexicographic comparison of two byte sequences, both scanned
/// from index `i` on.
pub open spec fn lex_cmp_from(a: Seq<u8>, b: Seq<u8>, i: int) -> Ordering
    recommends
        0 <= i,
    decreases a.len() - i,
{
    if i >= a.len() && i >= b.len() {
        Ordering::Equal
    } else if i >= a.len() {
        Ordering::Less
    } else if i >= b.len() {
        Ordering::Greater
    } else if a[i] < b[i] {
        Ordering::Less
    } else if a[i] > b[i] {
        Ordering::Greater
    } else {
        lex_cmp_from(a, b, i + 1)
    }
}

/// Three-way lexicographic (unsigned byte-wise) comparison of byte sequences.
/// This is the order the underlying store keeps raw keys in.
pub open spec fn lex_cmp(a: Seq<u8>, b: Seq<u8>) -> Ordering {
    lex_cmp_from(a, b, 0)
}

/// `a` comes strictly before `b` in lexicographic order.
pub open spec fn lex_lt(a: Seq<u8>, b: Seq<u8>) -> bool {
    lex_cmp(a, b) == Ordering::Less
}

/// `a` comes before `b`, or equals it, in lexicographic order.
pub open spec fn lex_le(a: Seq<u8>, b: Seq<u8>) -> bool {
    lex_cmp(a, b) != Ordering::Greater
}

/// Lexicographic comparison reports `Equal` exactly on equal sequences.
pub proof fn lemma_lex_cmp_eq(a: Seq<u8>, b: Seq<u8>)
    ensures
        lex_cmp(a, b) == Ordering::Equal <==> a =~= b,
{
    lemma_lex_cmp_from_eq(a, b, 0);
}

proof fn lemma_lex_cmp_from_eq(a: Seq<u8>, b: Seq<u8>, i: int)
    requires
        0 <= i <= a.len(),
        i <= b.len(),
    ensures
        lex_cmp_from(a, b, i) == Ordering::Equal <==> (a.len() == b.len()
            && forall|j: int| i <= j < a.len() ==> a[j] == b[j]),
    decreases a.len() - i,
{
    if i >= a.len() && i >= b.len() {
    } else if i >= a.len() || i >= b.len() {
    } else if a[i] == b[i] {
        lemma_lex_cmp_from_eq(a, b, i + 1);
        if lex_cmp_from(a, b, i) == Ordering::Equal {
            assert forall|j: int| i <= j < a.len() implies a[j] == b[j] by {
                if j >= i + 1 {
                    assert(a[j] == b[j]);
                } else {
                    assert(j == i);
                }
            }
        } else if a.len() == b.len() && (forall|j: int| i <= j < a.len() ==> a[j] == b[j]) {
            assert(forall|j: int| i + 1 <= j < a.len() ==> a[j] == b[j]);
            assert(false);
        }
    } else {
        if a.len() == b.len() && (forall|j: int| i <= j < a.len() ==> a[j] == b[j]) {
            assert(a[i] == b[i]);
            assert(false);
        }
    }
}

proof fn lemma_lex_walk(a: Seq<u8>, b: Seq<u8>, i: int, j: int)
    requires
        0 <= i <= j,
        j <= a.len(),
        j <= b.len(),
        forall|l: int| i <= l < j ==> a[l] == b[l],
    ensures
        lex_cmp_from(a, b, i) == lex_cmp_from(a, b, j),
    decreases j - i,
{
    if i < j {
        lemma_lex_walk(a, b, i + 1, j);
    }
}

/// Two sequences compare at their first differing index: with everything
/// before `j` equal and index `j` in both, the byte at `j` decides.
pub proof fn lemma_lex_first_diff(a: Seq<u8>, b: Seq<u8>, j: int)
    requires
        0 <= j < a.len(),
        j < b.len(),
        forall|l: int| 0 <= l < j ==> a[l] == b[l],
        a[j] != b[j],
    ensures
        lex_cmp(a, b) == (if a[j] < b[j] {
            Ordering::Less
        } else {
            Ordering::Greater
        }),
{
    lemma_lex_walk(a, b, 0, j);
}

/// A comparator capability over two raw byte sequences, carrying no state.
/// The one order a table can actually be opened with is the store's own
/// byte-wise order, which [`Lexicographical`] realizes; the order parameter
/// on the table types is a type-level marker beyond that.
pub trait SortOrder {
    /// The mathematical order this comparator realizes.
    spec fn cmp_spec(a: Seq<u8>, b: Seq<u8>) -> Ordering;

    /// Compare two raw byte sequences.
    fn compare(data1: &[u8], data2: &[u8]) -> (r: Ordering)
        ensures
            r == Self::cmp_spec(data1@, data2@),
    ;
}

/// The default sort order: unsigned byte-wise comparison, matching the
/// underlying store's own native key ordering.
#[derive(Debug)]
pub struct Lexicographical;

impl SortOrder for Lexicographical {
    open spec fn cmp_spec(a: Seq<u8>, b: Seq<u8>) -> Ordering {
        lex_cmp(a, b)
    }

    fn compare(data1: &[u8], data2: &[u8]) -> (r: Ordering) {
        let mut i: usize = 0;
        loop
            invariant
                0 <= i <= data1@.len(),
                i <= data2@.len(),
                lex_cmp(data1@, data2@) == lex_cmp_from(data1@, data2@, i as int),
            decreases data1@.len() - i,
        {
            if i >= data1.len() && i >= data2.len() {
                return Ordering::Equal;
            }
            if i >= data1.len() {
                return Ordering::Less;
            }
            if i >= data2.len() {
                return Ordering::Greater;
            }
            let x = *slice_index_get(data1, i);
            let y = *slice_index_get(data2, i);
            if x < y {
                return Ordering::Less;
            }
            if x > y {
                return Ordering::Greater;
            }
            i = i + 1;
        }
    }
}

/// Marks a raw byte sequence as "to be ordered using comparator `T`".
/// It carries no identity beyond what it wraps; in guard positions it is a
/// purely type-level marker for key-position decoding.
#[derive(Debug)]
pub struct SortKey<T>(pub T);

} // verus!
