//! The comparator mechanism: the default sort order must realize unsigned
//! byte-wise comparison, the order the underlying store keeps raw keys in.

use core::cmp::Ordering;
use redb_bincode::{encode_value, Lexicographical, SortKey, SortOrder};

#[test]
fn lexicographical_compares_byte_wise() {
    assert_eq!(Lexicographical::compare(b"", b""), Ordering::Equal);
    assert_eq!(Lexicographical::compare(b"", b"a"), Ordering::Less);
    assert_eq!(Lexicographical::compare(b"a", b""), Ordering::Greater);
    assert_eq!(Lexicographical::compare(b"abc", b"abc"), Ordering::Equal);
    assert_eq!(Lexicographical::compare(b"abc", b"abd"), Ordering::Less);
    assert_eq!(Lexicographical::compare(b"abd", b"abc"), Ordering::Greater);
    assert_eq!(Lexicographical::compare(b"ab", b"abc"), Ordering::Less);
    assert_eq!(Lexicographical::compare(b"abc", b"ab"), Ordering::Greater);
    assert_eq!(Lexicographical::compare(&[0x00], &[0xFF]), Ordering::Less);
    // Matches the standard slice ordering on every pair tried.
    let samples: [&[u8]; 6] = [b"", b"a", b"ab", b"b", &[0xFF], &[0x00, 0xFF]];
    for x in samples {
        for y in samples {
            assert_eq!(Lexicographical::compare(x, y), x.cmp(y));
        }
    }
}

#[test]
fn encoded_integer_order_is_numeric_order() {
    // Byte-wise comparison of encodings agrees with numeric comparison,
    // across and within width classes.
    let samples = [
        0u64,
        1,
        249,
        250,
        251,
        0x1234,
        0xFFFF,
        0x1_0000,
        0xFFFF_FFFF,
        0x1_0000_0000,
        u64::MAX,
    ];
    for x in samples {
        for y in samples {
            let ex = encode_value(&x);
            let ey = encode_value(&y);
            assert_eq!(Lexicographical::compare(&ex, &ey), x.cmp(&y), "{} vs {}", x, y);
        }
    }
}

#[test]
fn sort_key_wraps_its_bytes() {
    let key = SortKey::<&[u8]>(b"abc");
    assert_eq!(key.0, b"abc");
}
