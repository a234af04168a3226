//! Fixed-width fields: little-endian integers and byte arrays.
use vstd::prelude::*;
use vstd::arithmetic::div_mod::lemma_fundamental_div_mod_converse;
use crate::error::{protocol_err, Error};
use crate::text::{decimal, message_with_count};

verus! {

/// Unsigned value of the little-endian 16-bit field at `off`.
pub open spec fn u16_le(b: Seq<u8>, off: int) -> int {
    b[off] + 0x100 * b[off + 1]
}

/// Two's-complement value of the little-endian 16-bit field at `off`.
pub open spec fn i16_le(b: Seq<u8>, off: int) -> int {
    if u16_le(b, off) >= 0x8000 {
        u16_le(b, off) - 0x1_0000
    } else {
        u16_le(b, off)
    }
}

/// Unsigned value of the little-endian 32-bit field at `off`.
pub open spec fn u32_le(b: Seq<u8>, off: int) -> int {
    b[off] + 0x100 * b[off + 1] + 0x1_0000 * b[off + 2] + 0x100_0000 * b[off + 3]
}

/// Two's-complement value of the little-endian 32-bit field at `off`.
pub open spec fn i32_le(b: Seq<u8>, off: int) -> int {
    if u32_le(b, off) >= 0x8000_0000 {
        u32_le(b, off) - 0x1_0000_0000
    } else {
        u32_le(b, off)
    }
}

/// A byte read as a two's-complement `i8`.
pub open spec fn signed_byte(b: u8) -> int {
    if b < 0x80 {
        b as int
    } else {
        b - 0x100
    }
}

/// Reads byte `b` as an `i8` (the cast `b as i8`).
pub fn byte_as_i8(b: u8) -> (v: i8)
    ensures
        v == signed_byte(b),
{
    if b < 0x80 {
        b as i8
    } else {
        (b as i16 - 0x100) as i8
    }
}

/// The little-endian u16 at `offset`, which lies inside `data`.
pub(crate) fn u16_at(data: &[u8], offset: usize) -> (v: u16)
    requires
        offset + 2 <= data.len(),
    ensures
        v == u16_le(data@, offset as int),
{
    data[offset] as u16 + (data[offset + 1] as u16) * 0x100
}

/// The little-endian i16 at `offset`, which lies inside `data`.
pub(crate) fn i16_at(data: &[u8], offset: usize) -> (v: i16)
    requires
        offset + 2 <= data.len(),
    ensures
        v == i16_le(data@, offset as int),
{
    let u: i32 = data[offset] as i32 + (data[offset + 1] as i32) * 0x100;
    let v: i32 = if u >= 0x8000 {
        u - 0x1_0000
    } else {
        u
    };
    v as i16
}

/// The little-endian u32 at `offset`, which lies inside `data`.
pub(crate) fn u32_at(data: &[u8], offset: usize) -> (v: u32)
    requires
        offset + 4 <= data.len(),
    ensures
        v == u32_le(data@, offset as int),
{
    data[offset] as u32 + (data[offset + 1] as u32) * 0x100 + (data[offset + 2] as u32) * 0x1_0000
        + (data[offset + 3] as u32) * 0x100_0000
}

/// The little-endian i32 at `offset`, which lies inside `data`.
pub(crate) fn i32_at(data: &[u8], offset: usize) -> (v: i32)
    requires
        offset + 4 <= data.len(),
    ensures
        v == i32_le(data@, offset as int),
{
    let u: i64 = data[offset] as i64 + (data[offset + 1] as i64) * 0x100 + (data[offset + 2] as i64)
        * 0x1_0000 + (data[offset + 3] as i64) * 0x100_0000;
    let v: i64 = if u >= 0x8000_0000 {
        u - 0x1_0000_0000
    } else {
        u
    };
    v as i32
}

/// The `N` bytes at `offset`, which lie inside `data`.
pub(crate) fn bytes_at<const N: usize>(data: &[u8], offset: usize) -> (a: [u8; N])
    requires
        offset + N <= data.len(),
    ensures
        a@ == data@.subrange(offset as int, offset + N),
{
    let mut arr = [0u8; N];
    let mut i: usize = 0;
    while i < N
        invariant
            i <= N,
            offset + N <= data.len(),
            arr@.len() == N,
            forall|j: int| 0 <= j < i ==> arr@[j] == data@[offset + j],
        decreases N - i,
    {
        arr[i] = data[offset + i];
        i += 1;
    }
    assert(arr@ =~= data@.subrange(offset as int, offset + N));
    arr
}

/// Checks that `n` bytes starting at `offset` lie inside a buffer of
/// `len` bytes; fails with "Offset overflow" when `offset + n` does not fit
/// in a `usize`, and with `short_msg` when the buffer is too short.
fn check_span(len: usize, offset: usize, n: usize, short_msg: &str) -> (r: Result<(), Error>)
    ensures
        r is Ok <==> offset + n <= len,
        offset + n > usize::MAX ==> protocol_err(r, "Offset overflow"@),
        len < offset + n <= usize::MAX ==> protocol_err(r, short_msg@),
{
    match offset.checked_add(n) {
        None => Err(Error::protocol("Offset overflow")),
        Some(end) => {
            if end > len {
                Err(Error::protocol(short_msg))
            } else {
                Ok(())
            }
        },
    }
}

/// Read a little-endian u16 from a byte slice
pub fn read_u16_le(data: &[u8], offset: usize) -> (r: Result<u16, Error>)
    ensures
        match r {
            Ok(v) => offset + 2 <= data.len() && v == u16_le(data@, offset as int),
            Err(_) => offset + 2 > data.len(),
        },
        offset + 2 > usize::MAX ==> protocol_err(r, "Offset overflow"@),
        data.len() < offset + 2 <= usize::MAX ==> protocol_err(r, "Buffer too short for u16"@),
{
    match check_span(data.len(), offset, 2, "Buffer too short for u16") {
        Err(e) => Err(e),
        Ok(()) => Ok(u16_at(data, offset)),
    }
}

/// Read a little-endian i16 from a byte slice
pub fn read_i16_le(data: &[u8], offset: usize) -> (r: Result<i16, Error>)
    ensures
        match r {
            Ok(v) => offset + 2 <= data.len() && v == i16_le(data@, offset as int),
            Err(_) => offset + 2 > data.len(),
        },
        offset + 2 > usize::MAX ==> protocol_err(r, "Offset overflow"@),
        data.len() < offset + 2 <= usize::MAX ==> protocol_err(r, "Buffer too short for i16"@),
{
    match check_span(data.len(), offset, 2, "Buffer too short for i16") {
        Err(e) => Err(e),
        Ok(()) => Ok(i16_at(data, offset)),
    }
}

/// Read a little-endian u32 from a byte slice
pub fn read_u32_le(data: &[u8], offset: usize) -> (r: Result<u32, Error>)
    ensures
        match r {
            Ok(v) => offset + 4 <= data.len() && v == u32_le(data@, offset as int),
            Err(_) => offset + 4 > data.len(),
        },
        offset + 4 > usize::MAX ==> protocol_err(r, "Offset overflow"@),
        data.len() < offset + 4 <= usize::MAX ==> protocol_err(r, "Buffer too short for u32"@),
{
    match check_span(data.len(), offset, 4, "Buffer too short for u32") {
        Err(e) => Err(e),
        Ok(()) => Ok(u32_at(data, offset)),
    }
}

/// Read a little-endian i32 from a byte slice
pub fn read_i32_le(data: &[u8], offset: usize) -> (r: Result<i32, Error>)
    ensures
        match r {
            Ok(v) => offset + 4 <= data.len() && v == i32_le(data@, offset as int),
            Err(_) => offset + 4 > data.len(),
        },
        offset + 4 > usize::MAX ==> protocol_err(r, "Offset overflow"@),
        data.len() < offset + 4 <= usize::MAX ==> protocol_err(r, "Buffer too short for i32"@),
{
    match check_span(data.len(), offset, 4, "Buffer too short for i32") {
        Err(e) => Err(e),
        Ok(()) => Ok(i32_at(data, offset)),
    }
}

/// Read a fixed-size byte array
pub fn read_bytes<const N: usize>(data: &[u8], offset: usize) -> (r: Result<[u8; N], Error>)
    ensures
        match r {
            Ok(a) => offset + N <= data.len() && a@ == data@.subrange(offset as int, offset + N),
            Err(_) => offset + N > data.len(),
        },
        offset + N > usize::MAX ==> protocol_err(r, "Offset overflow"@),
        data.len() < offset + N <= usize::MAX ==> protocol_err(
            r,
            "Buffer too short for "@ + decimal(N as nat) + " bytes"@,
        ),
{
    if offset > usize::MAX - N {
        return Err(Error::protocol("Offset overflow"));
    }
    if offset + N > data.len() {
        return Err(Error::Protocol(message_with_count("Buffer too short for ", N, " bytes")));
    }
    Ok(bytes_at(data, offset))
}

/// The little-endian bytes of `x` (`u16::to_le_bytes`).
pub open spec fn u16_le_bytes(x: u16) -> Seq<u8> {
    seq![(x % 0x100) as u8, (x / 0x100) as u8]
}

/// The little-endian bytes of `x` (`i16::to_le_bytes`).
pub open spec fn i16_le_bytes(x: i16) -> Seq<u8> {
    u16_le_bytes(
        (if x < 0 {
            x + 0x1_0000
        } else {
            x as int
        }) as u16,
    )
}

/// The little-endian bytes of `x` (`u32::to_le_bytes`).
pub open spec fn u32_le_bytes(x: u32) -> Seq<u8> {
    seq![
        (x % 0x100) as u8,
        ((x / 0x100) % 0x100) as u8,
        ((x / 0x1_0000) % 0x100) as u8,
        (x / 0x100_0000) as u8,
    ]
}

/// The little-endian bytes of `x` (`i32::to_le_bytes`).
pub open spec fn i32_le_bytes(x: i32) -> Seq<u8> {
    u32_le_bytes(
        (if x < 0 {
            x + 0x1_0000_0000
        } else {
            x as int
        }) as u32,
    )
}

/// Reading a little-endian 16-bit field gives back the value whose bytes
/// were written, and reading then writing gives back the bytes.
pub proof fn lemma_u16_le_roundtrip(x: u16, b: Seq<u8>)
    requires
        b.len() == 2,
    ensures
        u16_le(u16_le_bytes(x), 0) == x,
        u16_le_bytes(u16_le(b, 0) as u16) == b,
{
    assert(u16_le_bytes(u16_le(b, 0) as u16) =~= b);
}

/// The signed 16-bit reader inverts `i16::to_le_bytes`.
pub proof fn lemma_i16_le_roundtrip(x: i16)
    ensures
        i16_le(i16_le_bytes(x), 0) == x,
{
}

/// Reading a little-endian 32-bit field gives back the value whose bytes
/// were written, and reading then writing gives back the bytes.
pub proof fn lemma_u32_le_roundtrip(x: u32, b: Seq<u8>)
    requires
        b.len() == 4,
    ensures
        u32_le(u32_le_bytes(x), 0) == x,
        u32_le_bytes(u32_le(b, 0) as u32) == b,
{
    assert(x % 0x100 + 0x100 * ((x / 0x100) % 0x100) + 0x1_0000 * ((x / 0x1_0000) % 0x100)
        + 0x100_0000 * (x / 0x100_0000) == x) by (bit_vector);
    let b0 = b[0] as int;
    let b1 = b[1] as int;
    let b2 = b[2] as int;
    let b3 = b[3] as int;
    let v = u32_le(b, 0);
    let q1 = b1 + 0x100 * b2 + 0x1_0000 * b3;
    let q2 = b2 + 0x100 * b3;
    lemma_fundamental_div_mod_converse(v, 0x100, q1, b0);
    lemma_fundamental_div_mod_converse(q1, 0x100, q2, b1);
    lemma_fundamental_div_mod_converse(v, 0x1_0000, q2, b0 + 0x100 * b1);
    lemma_fundamental_div_mod_converse(q2, 0x100, b3, b2);
    lemma_fundamental_div_mod_converse(v, 0x100_0000, b3, b0 + 0x100 * b1 + 0x1_0000 * b2);
    assert(u32_le_bytes(v as u32) =~= b);
}

/// The signed 32-bit reader inverts `i32::to_le_bytes`.
pub proof fn lemma_i32_le_roundtrip(x: i32)
    ensures
        i32_le(i32_le_bytes(x), 0) == x,
{
}

} // verus!
