//! The byte codec: a single fixed, process-wide encoding applied uniformly
//! to every key and value — big-endian byte order with variable-length
//! integer encoding. An unsigned integer at or below 250 is one bare byte;
//! larger values carry a one-byte width tag (251 for 16 bits, 252 for 32,
//! 253 for 64) followed by that many bits big-endian. Strings are the
//! variable-length byte count followed by the UTF-8 bytes; pairs are the
//! fields in order. For fixed encodings of unsigned integers this makes
//! byte-wise ordering coincide with numeric ordering.

use vstd::prelude::*;

verus! {

use core::cmp::Ordering;
use vstd::slice::{slice_index_get, slice_subrange, slice_to_vec};
use crate::sort::{lemma_lex_cmp_eq, lemma_lex_first_diff, lex_cmp};
use vstd::utf8::{decode_utf8, decode_utf8_encode_utf8, encode_utf8, encode_utf8_decode_utf8,
    encode_utf8_valid_utf8, valid_utf8};

/// Why a byte sequence failed to decode as a value of the requested type.
#[derive(Clone, Copy, Debug, PartialEq, Eq, Structural)]
pub enum DecodeError {
    /// The input ended before the encoding was complete.
    UnexpectedEnd,
    /// A width tag was met that the requested type cannot hold.
    InvalidTag,
    /// A string's bytes were not valid UTF-8.
    InvalidUtf8,
}

/// The two big-endian bytes of a 16-bit integer.
pub open spec fn be_bytes2(x: u16) -> Seq<u8> {
    seq![(x >> 8) as u8, x as u8]
}

/// The four big-endian bytes of a 32-bit integer.
pub open spec fn be_bytes4(x: u32) -> Seq<u8> {
    seq![(x >> 24) as u8, (x >> 16) as u8, (x >> 8) as u8, x as u8]
}

/// The eight big-endian bytes of a 64-bit integer.
pub open spec fn be_bytes8(x: u64) -> Seq<u8> {
    seq![
        (x >> 56) as u8,
        (x >> 48) as u8,
        (x >> 40) as u8,
        (x >> 32) as u8,
        (x >> 24) as u8,
        (x >> 16) as u8,
        (x >> 8) as u8,
        x as u8,
    ]
}

/// The 16-bit integer read big-endian from two bytes of `b` starting at `i`.
pub open spec fn be_val2(b: Seq<u8>, i: int) -> u16
    recommends
        0 <= i,
        i + 2 <= b.len(),
{
    ((b[i] as u16) << 8) | (b[i + 1] as u16)
}

/// The 32-bit integer read big-endian from four bytes of `b` starting at `i`.
pub open spec fn be_val4(b: Seq<u8>, i: int) -> u32
    recommends
        0 <= i,
        i + 4 <= b.len(),
{
    ((b[i] as u32) << 24) | ((b[i + 1] as u32) << 16) | ((b[i + 2] as u32) << 8) | (b[i + 3]
        as u32)
}

/// The 64-bit integer read big-endian from eight bytes of `b` starting at `i`.
pub open spec fn be_val8(b: Seq<u8>, i: int) -> u64
    recommends
        0 <= i,
        i + 8 <= b.len(),
{
    ((b[i] as u64) << 56) | ((b[i + 1] as u64) << 48) | ((b[i + 2] as u64) << 40) | ((b[i + 3]
        as u64) << 32) | ((b[i + 4] as u64) << 24) | ((b[i + 5] as u64) << 16) | ((b[i + 6]
        as u64) << 8) | (b[i + 7] as u64)
}

/// The variable-length encoding of a 64-bit unsigned integer: a bare byte
/// up to 250, otherwise the smallest width class that holds the value,
/// tagged 251, 252 or 253.
pub open spec fn varint64(x: u64) -> Seq<u8> {
    if x <= 250 {
        seq![x as u8]
    } else if x <= 0xFFFF {
        seq![251u8] + be_bytes2(x as u16)
    } else if x <= 0xFFFF_FFFF {
        seq![252u8] + be_bytes4(x as u32)
    } else {
        seq![253u8] + be_bytes8(x)
    }
}

/// Reads one variable-length 64-bit unsigned integer from the front of `b`,
/// giving the value and the number of bytes consumed. Width classes wider
/// than 64 bits (tags 254 and 255) are rejected; a value in a wider class
/// than it needs is accepted, as the format's reference decoder accepts it.
pub open spec fn parse_varint64(b: Seq<u8>) -> Result<(u64, int), DecodeError> {
    if b.len() < 1 {
        Err(DecodeError::UnexpectedEnd)
    } else if b[0] <= 250 {
        Ok((b[0] as u64, 1))
    } else if b[0] == 251 {
        if b.len() < 3 {
            Err(DecodeError::UnexpectedEnd)
        } else {
            Ok(((be_val2(b, 1) as u64), 3))
        }
    } else if b[0] == 252 {
        if b.len() < 5 {
            Err(DecodeError::UnexpectedEnd)
        } else {
            Ok(((be_val4(b, 1) as u64), 5))
        }
    } else if b[0] == 253 {
        if b.len() < 9 {
            Err(DecodeError::UnexpectedEnd)
        } else {
            Ok((be_val8(b, 1), 9))
        }
    } else {
        Err(DecodeError::InvalidTag)
    }
}

/// Reading back an encoded integer, with anything after it, yields the
/// integer and consumes exactly its encoding.
pub proof fn lemma_varint64_round_trip(x: u64, rest: Seq<u8>)
    ensures
        parse_varint64(varint64(x) + rest) == Ok::<(u64, int), DecodeError>(
            (x, varint64(x).len() as int),
        ),
{
    let b = varint64(x) + rest;
    if x <= 250 {
        assert(b[0] == x as u8);
        assert((x as u8) as u64 == x) by (bit_vector)
            requires
                x <= 250,
        ;
    } else if x <= 0xFFFF {
        let y = x as u16;
        assert(b[0] == 251u8 && b[1] == (y >> 8) as u8 && b[2] == y as u8);
        assert(((((y >> 8) as u8) as u16) << 8) | ((y as u8) as u16) == y) by (bit_vector);
        assert((x as u16) as u64 == x) by (bit_vector)
            requires
                x <= 0xFFFF,
        ;
    } else if x <= 0xFFFF_FFFF {
        let y = x as u32;
        assert(b[0] == 252u8 && b[1] == (y >> 24) as u8 && b[2] == (y >> 16) as u8 && b[3] == (y
            >> 8) as u8 && b[4] == y as u8);
        assert(((((y >> 24) as u8) as u32) << 24) | ((((y >> 16) as u8) as u32) << 16) | ((((y
            >> 8) as u8) as u32) << 8) | ((y as u8) as u32) == y) by (bit_vector);
        assert((x as u32) as u64 == x) by (bit_vector)
            requires
                x <= 0xFFFF_FFFF,
        ;
    } else {
        assert(b[0] == 253u8 && b[1] == (x >> 56) as u8 && b[2] == (x >> 48) as u8 && b[3] == (x
            >> 40) as u8 && b[4] == (x >> 32) as u8 && b[5] == (x >> 24) as u8 && b[6] == (x
            >> 16) as u8 && b[7] == (x >> 8) as u8 && b[8] == x as u8);
        assert(((((x >> 56) as u8) as u64) << 56) | ((((x >> 48) as u8) as u64) << 48) | ((((x
            >> 40) as u8) as u64) << 40) | ((((x >> 32) as u8) as u64) << 32) | ((((x >> 24)
            as u8) as u64) << 24) | ((((x >> 16) as u8) as u64) << 16) | ((((x >> 8) as u8)
            as u64) << 8) | ((x as u8) as u64) == x) by (bit_vector);
    }
}

/// Appends the variable-length encoding of `x` to `out`.
pub fn encode_varint64(x: u64, out: &mut Vec<u8>)
    ensures
        final(out)@ == old(out)@ + varint64(x),
{
    if x <= 250 {
        out.push(x as u8);
        assert(out@ =~= old(out)@ + varint64(x));
    } else if x <= 0xFFFF {
        let y = x as u16;
        out.push(251);
        out.push((y >> 8) as u8);
        out.push(y as u8);
        assert(out@ =~= old(out)@ + varint64(x));
    } else if x <= 0xFFFF_FFFF {
        let y = x as u32;
        out.push(252);
        out.push((y >> 24) as u8);
        out.push((y >> 16) as u8);
        out.push((y >> 8) as u8);
        out.push(y as u8);
        assert(out@ =~= old(out)@ + varint64(x));
    } else {
        out.push(253);
        out.push((x >> 56) as u8);
        out.push((x >> 48) as u8);
        out.push((x >> 40) as u8);
        out.push((x >> 32) as u8);
        out.push((x >> 24) as u8);
        out.push((x >> 16) as u8);
        out.push((x >> 8) as u8);
        out.push(x as u8);
        assert(out@ =~= old(out)@ + varint64(x));
    }
}

/// Reads one variable-length 64-bit unsigned integer from `b` at offset
/// `from`, returning the value and the number of bytes consumed.
pub fn decode_varint64(b: &[u8], from: usize) -> (r: Result<(u64, usize), DecodeError>)
    requires
        from <= b@.len(),
    ensures
        match r {
            Ok((v, n)) => parse_varint64(b@.skip(from as int)) == Ok::<(u64, int), DecodeError>(
                (v, n as int),
            ) && from + n <= b@.len(),
            Err(e) => parse_varint64(b@.skip(from as int)) == Err::<(u64, int), DecodeError>(e),
        },
{
    let ghost s = b@.skip(from as int);
    let len = b.len();
    if from >= len {
        return Err(DecodeError::UnexpectedEnd);
    }
    let tag = *slice_index_get(b, from);
    assert(s[0] == tag);
    if tag <= 250 {
        Ok((tag as u64, 1))
    } else if tag == 251 {
        if len - from < 3 {
            return Err(DecodeError::UnexpectedEnd);
        }
        let b1 = *slice_index_get(b, from + 1);
        let b2 = *slice_index_get(b, from + 2);
        assert(s[1] == b1 && s[2] == b2);
        let v = ((b1 as u16) << 8u16) | (b2 as u16);
        Ok((v as u64, 3))
    } else if tag == 252 {
        if len - from < 5 {
            return Err(DecodeError::UnexpectedEnd);
        }
        let b1 = *slice_index_get(b, from + 1);
        let b2 = *slice_index_get(b, from + 2);
        let b3 = *slice_index_get(b, from + 3);
        let b4 = *slice_index_get(b, from + 4);
        assert(s[1] == b1 && s[2] == b2 && s[3] == b3 && s[4] == b4);
        let v = ((b1 as u32) << 24u32) | ((b2 as u32) << 16u32) | ((b3 as u32) << 8u32) | (b4
            as u32);
        Ok((v as u64, 5))
    } else if tag == 253 {
        if len - from < 9 {
            return Err(DecodeError::UnexpectedEnd);
        }
        let b1 = *slice_index_get(b, from + 1);
        let b2 = *slice_index_get(b, from + 2);
        let b3 = *slice_index_get(b, from + 3);
        let b4 = *slice_index_get(b, from + 4);
        let b5 = *slice_index_get(b, from + 5);
        let b6 = *slice_index_get(b, from + 6);
        let b7 = *slice_index_get(b, from + 7);
        let b8 = *slice_index_get(b, from + 8);
        assert(s[1] == b1 && s[2] == b2 && s[3] == b3 && s[4] == b4 && s[5] == b5 && s[6] == b6
            && s[7] == b7 && s[8] == b8);
        let v = ((b1 as u64) << 56u64) | ((b2 as u64) << 48u64) | ((b3 as u64) << 40u64) | ((b4
            as u64) << 32u64) | ((b5 as u64) << 24u64) | ((b6 as u64) << 16u64) | ((b7
            as u64) << 8u64) | (b8 as u64);
        Ok((v, 9))
    } else {
        Err(DecodeError::InvalidTag)
    }
}

/// Three-way numeric comparison of 64-bit unsigned integers.
pub open spec fn num_cmp(x: u64, y: u64) -> Ordering {
    if x < y {
        Ordering::Less
    } else if x == y {
        Ordering::Equal
    } else {
        Ordering::Greater
    }
}

/// The width class an integer encodes in: higher classes carry a higher
/// tag byte and hold strictly larger values.
spec fn varint_class(x: u64) -> int {
    if x <= 250 {
        1
    } else if x <= 0xFFFF {
        2
    } else if x <= 0xFFFF_FFFF {
        3
    } else {
        4
    }
}

proof fn lemma_varint64_order_class2(x: u64, y: u64)
    requires
        250 < x <= 0xFFFF,
        250 < y <= 0xFFFF,
        x != y,
    ensures
        lex_cmp(varint64(x), varint64(y)) == num_cmp(x, y),
{
    let a = varint64(x);
    let b = varint64(y);
    let h_x = ((x as u16) >> 8) as u8;
    let l_x = (x as u16) as u8;
    let h_y = ((y as u16) >> 8) as u8;
    let l_y = (y as u16) as u8;
    assert(a[0] == 251u8 && a[1] == h_x && a[2] == l_x);
    assert(b[0] == 251u8 && b[1] == h_y && b[2] == l_y);
    if h_x != h_y {
        assert((x < y) == (h_x < h_y)) by (bit_vector)
            requires
                h_x == ((x as u16) >> 8) as u8,
                h_y == ((y as u16) >> 8) as u8,
                x <= 0xFFFF,
                y <= 0xFFFF,
                h_x != h_y,
        ;
        lemma_lex_first_diff(a, b, 1);
    } else if l_x != l_y {
        assert((x < y) == (l_x < l_y)) by (bit_vector)
            requires
                h_x == ((x as u16) >> 8) as u8,
                l_x == (x as u16) as u8,
                h_y == ((y as u16) >> 8) as u8,
                l_y == (y as u16) as u8,
                x <= 0xFFFF,
                y <= 0xFFFF,
                h_x == h_y,
        ;
        lemma_lex_first_diff(a, b, 2);
    } else {
        assert(x == y) by (bit_vector)
            requires
                ((x as u16) >> 8) as u8 == ((y as u16) >> 8) as u8,
                (x as u16) as u8 == (y as u16) as u8,
                x <= 0xFFFF,
                y <= 0xFFFF,
        ;
    }
}

proof fn lemma_varint64_order_class3(x: u64, y: u64)
    requires
        0xFFFF < x <= 0xFFFF_FFFF,
        0xFFFF < y <= 0xFFFF_FFFF,
        x != y,
    ensures
        lex_cmp(varint64(x), varint64(y)) == num_cmp(x, y),
{
    let a = varint64(x);
    let b = varint64(y);
    let x4 = x as u32;
    let y4 = y as u32;
    assert(a[0] == 252u8 && a[1] == (x4 >> 24) as u8 && a[2] == (x4 >> 16) as u8 && a[3] == (x4
        >> 8) as u8 && a[4] == x4 as u8);
    assert(b[0] == 252u8 && b[1] == (y4 >> 24) as u8 && b[2] == (y4 >> 16) as u8 && b[3] == (y4
        >> 8) as u8 && b[4] == y4 as u8);
    assert(x4 != y4 && (x < y) == (x4 < y4)) by (bit_vector)
        requires
            x4 == x as u32,
            y4 == y as u32,
            x <= 0xFFFF_FFFF,
            y <= 0xFFFF_FFFF,
            x != y,
    ;
    if (x4 >> 24) as u8 != (y4 >> 24) as u8 {
        assert((x4 < y4) == (((x4 >> 24) as u8) < ((y4 >> 24) as u8))) by (bit_vector)
            requires
                (x4 >> 24) as u8 != (y4 >> 24) as u8,
        ;
        lemma_lex_first_diff(a, b, 1);
    } else if (x4 >> 16) as u8 != (y4 >> 16) as u8 {
        assert((x4 < y4) == (((x4 >> 16) as u8) < ((y4 >> 16) as u8))) by (bit_vector)
            requires
                (x4 >> 24) as u8 == (y4 >> 24) as u8,
                (x4 >> 16) as u8 != (y4 >> 16) as u8,
        ;
        lemma_lex_first_diff(a, b, 2);
    } else if (x4 >> 8) as u8 != (y4 >> 8) as u8 {
        assert((x4 < y4) == (((x4 >> 8) as u8) < ((y4 >> 8) as u8))) by (bit_vector)
            requires
                (x4 >> 24) as u8 == (y4 >> 24) as u8,
                (x4 >> 16) as u8 == (y4 >> 16) as u8,
                (x4 >> 8) as u8 != (y4 >> 8) as u8,
        ;
        lemma_lex_first_diff(a, b, 3);
    } else if x4 as u8 != y4 as u8 {
        assert((x4 < y4) == ((x4 as u8) < (y4 as u8))) by (bit_vector)
            requires
                (x4 >> 24) as u8 == (y4 >> 24) as u8,
                (x4 >> 16) as u8 == (y4 >> 16) as u8,
                (x4 >> 8) as u8 == (y4 >> 8) as u8,
                x4 as u8 != y4 as u8,
        ;
        lemma_lex_first_diff(a, b, 4);
    } else {
        assert(x4 == y4) by (bit_vector)
            requires
                (x4 >> 24) as u8 == (y4 >> 24) as u8,
                (x4 >> 16) as u8 == (y4 >> 16) as u8,
                (x4 >> 8) as u8 == (y4 >> 8) as u8,
                x4 as u8 == y4 as u8,
        ;
    }
}

proof fn lemma_varint64_order_class4(x: u64, y: u64)
    requires
        0xFFFF_FFFF < x,
        0xFFFF_FFFF < y,
        x != y,
    ensures
        lex_cmp(varint64(x), varint64(y)) == num_cmp(x, y),
{
    let a = varint64(x);
    let b = varint64(y);
    assert(a[0] == 253u8 && a[1] == (x >> 56) as u8 && a[2] == (x >> 48) as u8 && a[3] == (x
        >> 40) as u8 && a[4] == (x >> 32) as u8 && a[5] == (x >> 24) as u8 && a[6] == (x
        >> 16) as u8 && a[7] == (x >> 8) as u8 && a[8] == x as u8);
    assert(b[0] == 253u8 && b[1] == (y >> 56) as u8 && b[2] == (y >> 48) as u8 && b[3] == (y
        >> 40) as u8 && b[4] == (y >> 32) as u8 && b[5] == (y >> 24) as u8 && b[6] == (y
        >> 16) as u8 && b[7] == (y >> 8) as u8 && b[8] == y as u8);
    if (x >> 56) as u8 != (y >> 56) as u8 {
        assert((x < y) == (((x >> 56) as u8) < ((y >> 56) as u8))) by (bit_vector)
            requires
                (x >> 56) as u8 != (y >> 56) as u8,
        ;
        lemma_lex_first_diff(a, b, 1);
    } else if (x >> 48) as u8 != (y >> 48) as u8 {
        assert((x < y) == (((x >> 48) as u8) < ((y >> 48) as u8))) by (bit_vector)
            requires
                (x >> 56) as u8 == (y >> 56) as u8,
                (x >> 48) as u8 != (y >> 48) as u8,
        ;
        lemma_lex_first_diff(a, b, 2);
    } else if (x >> 40) as u8 != (y >> 40) as u8 {
        assert((x < y) == (((x >> 40) as u8) < ((y >> 40) as u8))) by (bit_vector)
            requires
                (x >> 56) as u8 == (y >> 56) as u8,
                (x >> 48) as u8 == (y >> 48) as u8,
                (x >> 40) as u8 != (y >> 40) as u8,
        ;
        lemma_lex_first_diff(a, b, 3);
    } else if (x >> 32) as u8 != (y >> 32) as u8 {
        assert((x < y) == (((x >> 32) as u8) < ((y >> 32) as u8))) by (bit_vector)
            requires
                (x >> 56) as u8 == (y >> 56) as u8,
                (x >> 48) as u8 == (y >> 48) as u8,
                (x >> 40) as u8 == (y >> 40) as u8,
                (x >> 32) as u8 != (y >> 32) as u8,
        ;
        lemma_lex_first_diff(a, b, 4);
    } else if (x >> 24) as u8 != (y >> 24) as u8 {
        assert((x < y) == (((x >> 24) as u8) < ((y >> 24) as u8))) by (bit_vector)
            requires
                (x >> 56) as u8 == (y >> 56) as u8,
                (x >> 48) as u8 == (y >> 48) as u8,
                (x >> 40) as u8 == (y >> 40) as u8,
                (x >> 32) as u8 == (y >> 32) as u8,
                (x >> 24) as u8 != (y >> 24) as u8,
        ;
        lemma_lex_first_diff(a, b, 5);
    } else if (x >> 16) as u8 != (y >> 16) as u8 {
        assert((x < y) == (((x >> 16) as u8) < ((y >> 16) as u8))) by (bit_vector)
            requires
                (x >> 56) as u8 == (y >> 56) as u8,
                (x >> 48) as u8 == (y >> 48) as u8,
                (x >> 40) as u8 == (y >> 40) as u8,
                (x >> 32) as u8 == (y >> 32) as u8,
                (x >> 24) as u8 == (y >> 24) as u8,
                (x >> 16) as u8 != (y >> 16) as u8,
        ;
        lemma_lex_first_diff(a, b, 6);
    } else if (x >> 8) as u8 != (y >> 8) as u8 {
        assert((x < y) == (((x >> 8) as u8) < ((y >> 8) as u8))) by (bit_vector)
            requires
                (x >> 56) as u8 == (y >> 56) as u8,
                (x >> 48) as u8 == (y >> 48) as u8,
                (x >> 40) as u8 == (y >> 40) as u8,
                (x >> 32) as u8 == (y >> 32) as u8,
                (x >> 24) as u8 == (y >> 24) as u8,
                (x >> 16) as u8 == (y >> 16) as u8,
                (x >> 8) as u8 != (y >> 8) as u8,
        ;
        lemma_lex_first_diff(a, b, 7);
    } else if x as u8 != y as u8 {
        assert((x < y) == ((x as u8) < (y as u8))) by (bit_vector)
            requires
                (x >> 56) as u8 == (y >> 56) as u8,
                (x >> 48) as u8 == (y >> 48) as u8,
                (x >> 40) as u8 == (y >> 40) as u8,
                (x >> 32) as u8 == (y >> 32) as u8,
                (x >> 24) as u8 == (y >> 24) as u8,
                (x >> 16) as u8 == (y >> 16) as u8,
                (x >> 8) as u8 == (y >> 8) as u8,
                x as u8 != y as u8,
        ;
        lemma_lex_first_diff(a, b, 8);
    } else {
        assert(x == y) by (bit_vector)
            requires
                (x >> 56) as u8 == (y >> 56) as u8,
                (x >> 48) as u8 == (y >> 48) as u8,
                (x >> 40) as u8 == (y >> 40) as u8,
                (x >> 32) as u8 == (y >> 32) as u8,
                (x >> 24) as u8 == (y >> 24) as u8,
                (x >> 16) as u8 == (y >> 16) as u8,
                (x >> 8) as u8 == (y >> 8) as u8,
                x as u8 == y as u8,
        ;
    }
}

proof fn lemma_varint64_order_cross(x: u64, y: u64)
    requires
        varint_class(x) < varint_class(y),
    ensures
        x < y,
        lex_cmp(varint64(x), varint64(y)) == Ordering::Less,
{
    let a = varint64(x);
    let b = varint64(y);
    assert(x <= 250 ==> (x as u8) <= 250u8) by (bit_vector);
    assert(a[0] != b[0] && a[0] < b[0]);
    lemma_lex_first_diff(a, b, 0);
}

/// Ordering law for integer keys under the default byte-wise order: the
/// encodings of two integers compare exactly as the integers do, so a
/// lexicographic range over integer keys runs in numeric order.
pub proof fn lemma_varint64_order(x: u64, y: u64)
    ensures
        lex_cmp(varint64(x), varint64(y)) == num_cmp(x, y),
{
    if x == y {
        lemma_lex_cmp_eq(varint64(x), varint64(y));
    } else if varint_class(x) < varint_class(y) {
        lemma_varint64_order_cross(x, y);
    } else if varint_class(y) < varint_class(x) {
        lemma_varint64_order_cross(y, x);
    } else if x <= 250 {
        assert((x as u8) != (y as u8) && (x < y) == ((x as u8) < (y as u8))) by (bit_vector)
            requires
                x <= 250,
                y <= 250,
                x != y,
        ;
        lemma_lex_first_diff(varint64(x), varint64(y), 0);
    } else if x <= 0xFFFF {
        lemma_varint64_order_class2(x, y);
    } else if x <= 0xFFFF_FFFF {
        lemma_varint64_order_class3(x, y);
    } else {
        lemma_varint64_order_class4(x, y);
    }
}

/// A type this layer can transcode: every value has one canonical byte
/// encoding, stated over the value's mathematical model (its deep view),
/// and decoding reads one value back off the front of a byte sequence.
pub trait Codec: Sized + DeepView {
    /// The canonical encoding of a value whose model is `m`.
    spec fn encoding_of(m: Self::V) -> Seq<u8>;

    /// The models the encoding is faithful on. Every value an executable
    /// encoder or decoder produces or consumes lies within it; only
    /// unbounded ghost models (a string of more than `u64::MAX` bytes)
    /// fall outside.
    spec fn wf_model(m: Self::V) -> bool;

    /// Reads one value of this type off the front of `b`: its model and the
    /// number of bytes consumed, or why decoding failed.
    spec fn decoded_prefix(b: Seq<u8>) -> Result<(Self::V, int), DecodeError>;

    /// Decoding an encoded value, with anything after it, yields the value
    /// back and consumes exactly its encoding.
    proof fn lemma_round_trip(m: Self::V, rest: Seq<u8>)
        requires
            Self::wf_model(m),
        ensures
            Self::decoded_prefix(Self::encoding_of(m) + rest) == Ok::<(Self::V, int), DecodeError>(
                (m, Self::encoding_of(m).len() as int),
            ),
    ;

    /// Appends this value's canonical encoding to `out`.
    fn encode_into(&self, out: &mut Vec<u8>)
        ensures
            final(out)@ == old(out)@ + Self::encoding_of(self.deep_view()),
            Self::wf_model(self.deep_view()),
    ;

    /// Reads one value of this type from `b` at offset `from`.
    fn decode_prefix(b: &[u8], from: usize) -> (r: Result<(Self, usize), DecodeError>)
        requires
            from <= b@.len(),
        ensures
            match r {
                Ok((v, n)) => Self::decoded_prefix(b@.skip(from as int)) == Ok::<
                    (Self::V, int),
                    DecodeError,
                >((v.deep_view(), n as int)) && from + n <= b@.len() && Self::wf_model(
                    v.deep_view(),
                ),
                Err(e) => Self::decoded_prefix(b@.skip(from as int)) == Err::<
                    (Self::V, int),
                    DecodeError,
                >(e),
            },
    ;
}

/// The model a full byte sequence decodes to: its leading value; any
/// trailing bytes are ignored.
pub open spec fn decoded_value<T: Codec>(b: Seq<u8>) -> Result<T::V, DecodeError> {
    match T::decoded_prefix(b) {
        Ok((m, _n)) => Ok(m),
        Err(e) => Err(e),
    }
}

/// Encodes one value into a fresh buffer.
pub fn encode_value<T: Codec>(v: &T) -> (r: Vec<u8>)
    ensures
        r@ == T::encoding_of(v.deep_view()),
        T::wf_model(v.deep_view()),
{
    let mut out: Vec<u8> = Vec::new();
    v.encode_into(&mut out);
    assert(out@ =~= T::encoding_of(v.deep_view()));
    out
}

/// Decodes one value from the front of `b`, ignoring trailing bytes.
pub fn decode_value<T: Codec>(b: &[u8]) -> (r: Result<T, DecodeError>)
    ensures
        match r {
            Ok(v) => decoded_value::<T>(b@) == Ok::<T::V, DecodeError>(v.deep_view()),
            Err(e) => decoded_value::<T>(b@) == Err::<T::V, DecodeError>(e),
        },
{
    proof {
        assert(b@.skip(0) =~= b@);
    }
    match T::decode_prefix(b, 0) {
        Ok((v, _n)) => Ok(v),
        Err(e) => Err(e),
    }
}

impl Codec for u64 {
    open spec fn encoding_of(m: u64) -> Seq<u8> {
        varint64(m)
    }

    open spec fn wf_model(m: u64) -> bool {
        true
    }

    open spec fn decoded_prefix(b: Seq<u8>) -> Result<(u64, int), DecodeError> {
        parse_varint64(b)
    }

    proof fn lemma_round_trip(m: u64, rest: Seq<u8>) {
        lemma_varint64_round_trip(m, rest);
    }

    fn encode_into(&self, out: &mut Vec<u8>) {
        encode_varint64(*self, out);
    }

    fn decode_prefix(b: &[u8], from: usize) -> (r: Result<(u64, usize), DecodeError>) {
        decode_varint64(b, from)
    }
}

impl Codec for u8 {
    open spec fn encoding_of(m: u8) -> Seq<u8> {
        seq![m]
    }

    open spec fn wf_model(m: u8) -> bool {
        true
    }

    open spec fn decoded_prefix(b: Seq<u8>) -> Result<(u8, int), DecodeError> {
        if b.len() < 1 {
            Err(DecodeError::UnexpectedEnd)
        } else {
            Ok((b[0], 1))
        }
    }

    proof fn lemma_round_trip(m: u8, rest: Seq<u8>) {
    }

    fn encode_into(&self, out: &mut Vec<u8>) {
        out.push(*self);
        assert(out@ =~= old(out)@ + seq![*self]);
    }

    fn decode_prefix(b: &[u8], from: usize) -> (r: Result<(u8, usize), DecodeError>) {
        if from >= b.len() {
            return Err(DecodeError::UnexpectedEnd);
        }
        let v = *slice_index_get(b, from);
        assert(b@.skip(from as int)[0] == v);
        Ok((v, 1))
    }
}

impl Codec for bool {
    open spec fn encoding_of(m: bool) -> Seq<u8> {
        seq![if m { 1u8 } else { 0u8 }]
    }

    open spec fn wf_model(m: bool) -> bool {
        true
    }

    open spec fn decoded_prefix(b: Seq<u8>) -> Result<(bool, int), DecodeError> {
        if b.len() < 1 {
            Err(DecodeError::UnexpectedEnd)
        } else if b[0] == 0 {
            Ok((false, 1))
        } else if b[0] == 1 {
            Ok((true, 1))
        } else {
            Err(DecodeError::InvalidTag)
        }
    }

    proof fn lemma_round_trip(m: bool, rest: Seq<u8>) {
    }

    fn encode_into(&self, out: &mut Vec<u8>) {
        out.push(if *self { 1 } else { 0 });
        assert(out@ =~= old(out)@ + Self::encoding_of(self.deep_view()));
    }

    fn decode_prefix(b: &[u8], from: usize) -> (r: Result<(bool, usize), DecodeError>) {
        if from >= b.len() {
            return Err(DecodeError::UnexpectedEnd);
        }
        let v = *slice_index_get(b, from);
        assert(b@.skip(from as int)[0] == v);
        if v == 0 {
            Ok((false, 1))
        } else if v == 1 {
            Ok((true, 1))
        } else {
            Err(DecodeError::InvalidTag)
        }
    }
}

/// Relies on `String::from_utf8`: succeeds exactly on valid UTF-8 input,
/// decoding it to the characters the bytes encode.
#[verifier::external_body]
fn string_from_utf8(v: Vec<u8>) -> (r: Option<String>)
    ensures
        r is Some <==> valid_utf8(v@),
        r matches Some(s) ==> s@ == decode_utf8(v@),
{
    String::from_utf8(v).ok()
}

impl Codec for String {
    open spec fn encoding_of(m: Seq<char>) -> Seq<u8> {
        varint64(encode_utf8(m).len() as u64) + encode_utf8(m)
    }

    open spec fn wf_model(m: Seq<char>) -> bool {
        encode_utf8(m).len() <= u64::MAX
    }

    open spec fn decoded_prefix(b: Seq<u8>) -> Result<(Seq<char>, int), DecodeError> {
        match parse_varint64(b) {
            Err(e) => Err(e),
            Ok((n, c)) => if c + n > b.len() {
                Err(DecodeError::UnexpectedEnd)
            } else if valid_utf8(b.subrange(c, c + n)) {
                Ok((decode_utf8(b.subrange(c, c + n)), c + n))
            } else {
                Err(DecodeError::InvalidUtf8)
            },
        }
    }

    proof fn lemma_round_trip(m: Seq<char>, rest: Seq<u8>) {
        let bytes = encode_utf8(m);
        let len = bytes.len() as u64;
        let b = Self::encoding_of(m) + rest;
        assert(b =~= varint64(len) + (bytes + rest));
        lemma_varint64_round_trip(len, bytes + rest);
        let c = varint64(len).len() as int;
        assert(b.subrange(c, c + len as int) =~= bytes);
        encode_utf8_valid_utf8(m);
        encode_utf8_decode_utf8(m);
    }

    fn encode_into(&self, out: &mut Vec<u8>) {
        let bytes = self.as_str().as_bytes();
        encode_varint64(bytes.len() as u64, out);
        out.extend_from_slice(bytes);
        assert(out@ =~= old(out)@ + Self::encoding_of(self.deep_view()));
    }

    fn decode_prefix(b: &[u8], from: usize) -> (r: Result<(String, usize), DecodeError>) {
        let ghost s = b@.skip(from as int);
        let (n, c) = match decode_varint64(b, from) {
            Ok(p) => p,
            Err(e) => {
                return Err(e);
            },
        };
        let avail = b.len() - from - c;
        if n > avail as u64 {
            return Err(DecodeError::UnexpectedEnd);
        }
        let n_us = n as usize;
        let sub = slice_subrange(b, from + c, from + c + n_us);
        proof {
            assert(sub@ =~= s.subrange(c as int, c + n as int));
        }
        match string_from_utf8(slice_to_vec(sub)) {
            Some(st) => {
                proof {
                    decode_utf8_encode_utf8(sub@);
                }
                Ok((st, c + n_us))
            },
            None => Err(DecodeError::InvalidUtf8),
        }
    }
}

impl Codec for Vec<u8> {
    open spec fn encoding_of(m: Seq<u8>) -> Seq<u8> {
        varint64(m.len() as u64) + m
    }

    open spec fn wf_model(m: Seq<u8>) -> bool {
        m.len() <= u64::MAX
    }

    open spec fn decoded_prefix(b: Seq<u8>) -> Result<(Seq<u8>, int), DecodeError> {
        match parse_varint64(b) {
            Err(e) => Err(e),
            Ok((n, c)) => if c + n > b.len() {
                Err(DecodeError::UnexpectedEnd)
            } else {
                Ok((b.subrange(c, c + n), c + n))
            },
        }
    }

    proof fn lemma_round_trip(m: Seq<u8>, rest: Seq<u8>) {
        let len = m.len() as u64;
        let b = Self::encoding_of(m) + rest;
        assert(b =~= varint64(len) + (m + rest));
        lemma_varint64_round_trip(len, m + rest);
        let c = varint64(len).len() as int;
        assert(b.subrange(c, c + len as int) =~= m);
    }

    fn encode_into(&self, out: &mut Vec<u8>) {
        proof {
            assert(self.deep_view() =~= self@);
        }
        encode_varint64(self.len() as u64, out);
        out.extend_from_slice(self.as_slice());
        assert(out@ =~= old(out)@ + Self::encoding_of(self.deep_view()));
    }

    fn decode_prefix(b: &[u8], from: usize) -> (r: Result<(Vec<u8>, usize), DecodeError>) {
        let ghost s = b@.skip(from as int);
        let (n, c) = match decode_varint64(b, from) {
            Ok(p) => p,
            Err(e) => {
                return Err(e);
            },
        };
        let avail = b.len() - from - c;
        if n > avail as u64 {
            return Err(DecodeError::UnexpectedEnd);
        }
        let n_us = n as usize;
        let sub = slice_subrange(b, from + c, from + c + n_us);
        proof {
            assert(sub@ =~= s.subrange(c as int, c + n as int));
        }
        let out = slice_to_vec(sub);
        proof {
            assert(out.deep_view() =~= out@);
        }
        Ok((out, c + n_us))
    }
}

/// Reads one variable-length integer capped at 32 bits: the 64-bit width
/// tag is rejected, as the reference decoder rejects it for this type.
pub open spec fn parse_varint32(b: Seq<u8>) -> Result<(u32, int), DecodeError> {
    if b.len() < 1 {
        Err(DecodeError::UnexpectedEnd)
    } else if b[0] <= 250 {
        Ok((b[0] as u32, 1))
    } else if b[0] == 251 {
        if b.len() < 3 {
            Err(DecodeError::UnexpectedEnd)
        } else {
            Ok(((be_val2(b, 1) as u32), 3))
        }
    } else if b[0] == 252 {
        if b.len() < 5 {
            Err(DecodeError::UnexpectedEnd)
        } else {
            Ok((be_val4(b, 1), 5))
        }
    } else {
        Err(DecodeError::InvalidTag)
    }
}

impl Codec for u32 {
    open spec fn encoding_of(m: u32) -> Seq<u8> {
        varint64(m as u64)
    }

    open spec fn wf_model(m: u32) -> bool {
        true
    }

    open spec fn decoded_prefix(b: Seq<u8>) -> Result<(u32, int), DecodeError> {
        parse_varint32(b)
    }

    proof fn lemma_round_trip(m: u32, rest: Seq<u8>) {
        let x = m as u64;
        let b = varint64(x) + rest;
        lemma_varint64_round_trip(x, rest);
        assert(x <= 0xFFFF_FFFF) by (bit_vector)
            requires
                x == m as u64,
        ;
        if x <= 250 {
            assert((b[0] as u32) as u64 == b[0] as u64);
        } else if x <= 0xFFFF {
            assert((be_val2(b, 1) as u32) as u64 == be_val2(b, 1) as u64);
        } else {
            assert((be_val4(b, 1)) as u64 == x ==> be_val4(b, 1) == m);
        }
    }

    fn encode_into(&self, out: &mut Vec<u8>) {
        encode_varint64(*self as u64, out);
    }

    fn decode_prefix(b: &[u8], from: usize) -> (r: Result<(u32, usize), DecodeError>) {
        let ghost s = b@.skip(from as int);
        let len = b.len();
        if from >= len {
            return Err(DecodeError::UnexpectedEnd);
        }
        let tag = *slice_index_get(b, from);
        assert(s[0] == tag);
        if tag <= 250 {
            Ok((tag as u32, 1))
        } else if tag == 251 {
            if len - from < 3 {
                return Err(DecodeError::UnexpectedEnd);
            }
            let b1 = *slice_index_get(b, from + 1);
            let b2 = *slice_index_get(b, from + 2);
            assert(s[1] == b1 && s[2] == b2);
            let v = ((b1 as u16) << 8u16) | (b2 as u16);
            Ok((v as u32, 3))
        } else if tag == 252 {
            if len - from < 5 {
                return Err(DecodeError::UnexpectedEnd);
            }
            let b1 = *slice_index_get(b, from + 1);
            let b2 = *slice_index_get(b, from + 2);
            let b3 = *slice_index_get(b, from + 3);
            let b4 = *slice_index_get(b, from + 4);
            assert(s[1] == b1 && s[2] == b2 && s[3] == b3 && s[4] == b4);
            let v = ((b1 as u32) << 24u32) | ((b2 as u32) << 16u32) | ((b3 as u32) << 8u32) | (
            b4 as u32);
            Ok((v, 5))
        } else {
            Err(DecodeError::InvalidTag)
        }
    }
}

/// The zigzag mapping a signed integer is funneled through before the
/// unsigned variable-length encoding: non-negative values go to the even
/// numbers in order, negative values to the odd ones.
pub open spec fn zigzag64(x: i64) -> u64 {
    if x < 0 {
        (!(x as u64) * 2 + 1) as u64
    } else {
        ((x as u64) * 2) as u64
    }
}

/// The inverse of [`zigzag64`].
pub open spec fn unzigzag64(n: u64) -> i64 {
    if n % 2 == 0 {
        (n / 2) as i64
    } else {
        (!(n / 2)) as i64
    }
}

/// The zigzag mapping loses nothing.
pub proof fn lemma_zigzag64_round_trip(x: i64)
    ensures
        unzigzag64(zigzag64(x)) == x,
{
    if x < 0 {
        assert({
            let n = (!(x as u64) * 2 + 1) as u64;
            n % 2 == 1 && (!(n / 2)) as i64 == x
        }) by (bit_vector)
            requires
                x < 0,
        ;
    } else {
        assert({
            let n = ((x as u64) * 2) as u64;
            n % 2 == 0 && (n / 2) as i64 == x
        }) by (bit_vector)
            requires
                x >= 0,
        ;
    }
}

impl Codec for i64 {
    open spec fn encoding_of(m: i64) -> Seq<u8> {
        varint64(zigzag64(m))
    }

    open spec fn wf_model(m: i64) -> bool {
        true
    }

    open spec fn decoded_prefix(b: Seq<u8>) -> Result<(i64, int), DecodeError> {
        match parse_varint64(b) {
            Err(e) => Err(e),
            Ok((n, c)) => Ok((unzigzag64(n), c)),
        }
    }

    proof fn lemma_round_trip(m: i64, rest: Seq<u8>) {
        lemma_varint64_round_trip(zigzag64(m), rest);
        lemma_zigzag64_round_trip(m);
    }

    fn encode_into(&self, out: &mut Vec<u8>) {
        let x = *self;
        let n: u64 = if x < 0 {
            proof {
                assert(!(x as u64) <= 0x7FFF_FFFF_FFFF_FFFFu64) by (bit_vector)
                    requires
                        x < 0,
                ;
            }
            !(x as u64) * 2 + 1
        } else {
            proof {
                assert((x as u64) <= 0x7FFF_FFFF_FFFF_FFFFu64) by (bit_vector)
                    requires
                        x >= 0,
                ;
            }
            (x as u64) * 2
        };
        encode_varint64(n, out);
    }

    fn decode_prefix(b: &[u8], from: usize) -> (r: Result<(i64, usize), DecodeError>) {
        match decode_varint64(b, from) {
            Err(e) => Err(e),
            Ok((n, c)) => {
                let v: i64 = if n % 2 == 0 {
                    proof {
                        assert(n % 2 == 0 ==> n / 2 <= 0x7FFF_FFFF_FFFF_FFFFu64) by (bit_vector);
                    }
                    (n / 2) as i64
                } else {
                    !(n / 2) as i64
                };
                Ok((v, c))
            },
        }
    }
}

impl<A: Codec, B: Codec> Codec for (A, B) {
    open spec fn encoding_of(m: (A::V, B::V)) -> Seq<u8> {
        A::encoding_of(m.0) + B::encoding_of(m.1)
    }

    open spec fn wf_model(m: (A::V, B::V)) -> bool {
        A::wf_model(m.0) && B::wf_model(m.1)
    }

    open spec fn decoded_prefix(b: Seq<u8>) -> Result<((A::V, B::V), int), DecodeError> {
        match A::decoded_prefix(b) {
            Err(e) => Err(e),
            Ok((ma, na)) => match B::decoded_prefix(b.skip(na)) {
                Err(e) => Err(e),
                Ok((mb, nb)) => Ok(((ma, mb), na + nb)),
            },
        }
    }

    proof fn lemma_round_trip(m: (A::V, B::V), rest: Seq<u8>) {
        let ea = A::encoding_of(m.0);
        let eb = B::encoding_of(m.1);
        let b = Self::encoding_of(m) + rest;
        assert(b =~= ea + (eb + rest));
        A::lemma_round_trip(m.0, eb + rest);
        assert(b.skip(ea.len() as int) =~= eb + rest);
        B::lemma_round_trip(m.1, rest);
    }

    fn encode_into(&self, out: &mut Vec<u8>) {
        self.0.encode_into(out);
        self.1.encode_into(out);
        assert(out@ =~= old(out)@ + Self::encoding_of(self.deep_view()));
    }

    fn decode_prefix(b: &[u8], from: usize) -> (r: Result<((A, B), usize), DecodeError>) {
        let blen = b.len();
        let ghost s = b@.skip(from as int);
        let (va, na) = match A::decode_prefix(b, from) {
            Ok(p) => p,
            Err(e) => {
                return Err(e);
            },
        };
        let (vb, nb) = match B::decode_prefix(b, from + na) {
            Ok(p) => p,
            Err(e) => {
                proof {
                    assert(b@.skip((from + na) as int) =~= s.skip(na as int));
                }
                return Err(e);
            },
        };
        proof {
            assert(b@.skip((from + na) as int) =~= s.skip(na as int));
        }
        Ok(((va, vb), na + nb))
    }
}

} // verus!
