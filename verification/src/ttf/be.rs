//! Big-endian integers read out of a font file's bytes.

use vstd::prelude::*;

use crate::ttf::parser_errors::TableParsingError;

verus! {

/// The offset that an out-of-bounds error reports: the start of the read,
/// or `u32::MAX` for a start that no `u32` holds.
pub open spec fn reported_offset(start: int) -> u32 {
    if start <= u32::MAX {
        start as u32
    } else {
        u32::MAX
    }
}

/// The error for a read that starts at `start` in a buffer of `len` bytes
/// and does not fit in it.
pub open spec fn out_of_bounds(start: int, len: nat) -> TableParsingError {
    TableParsingError::OffsetOutOfBounds { offset: reported_offset(start), table_len: len as usize }
}

/// `size` bytes starting at `start` lie inside `b`.
pub open spec fn fits(b: Seq<u8>, start: int, size: int) -> bool {
    0 <= start && start + size <= b.len()
}

/// The two bytes at `at`, most significant first.
pub open spec fn be_u16(b: Seq<u8>, at: int) -> u16 {
    (b[at] as int * 256 + b[at + 1] as int) as u16
}

/// The four bytes at `at`, most significant first.
pub open spec fn be_u32(b: Seq<u8>, at: int) -> u32 {
    (b[at] as int * 16777216 + b[at + 1] as int * 65536 + b[at + 2] as int * 256
        + b[at + 3] as int) as u32
}

/// A 16-bit pattern read as two's complement.
pub open spec fn as_i16(v: u16) -> i16 {
    if v < 32768 {
        v as i16
    } else {
        (v - 65536) as i16
    }
}

/// An 8-bit pattern read as two's complement.
pub open spec fn as_i8(v: u8) -> i8 {
    if v < 128 {
        v as i8
    } else {
        (v - 256) as i8
    }
}

pub open spec fn read_u8(b: Seq<u8>, start: int) -> Result<u8, TableParsingError> {
    if fits(b, start, 1) {
        Ok(b[start])
    } else {
        Err(out_of_bounds(start, b.len()))
    }
}

pub open spec fn read_i8(b: Seq<u8>, start: int) -> Result<i8, TableParsingError> {
    if fits(b, start, 1) {
        Ok(as_i8(b[start]))
    } else {
        Err(out_of_bounds(start, b.len()))
    }
}

pub open spec fn read_u16(b: Seq<u8>, start: int) -> Result<u16, TableParsingError> {
    if fits(b, start, 2) {
        Ok(be_u16(b, start))
    } else {
        Err(out_of_bounds(start, b.len()))
    }
}

pub open spec fn read_i16(b: Seq<u8>, start: int) -> Result<i16, TableParsingError> {
    if fits(b, start, 2) {
        Ok(as_i16(be_u16(b, start)))
    } else {
        Err(out_of_bounds(start, b.len()))
    }
}

pub open spec fn read_u32(b: Seq<u8>, start: int) -> Result<u32, TableParsingError> {
    if fits(b, start, 4) {
        Ok(be_u32(b, start))
    } else {
        Err(out_of_bounds(start, b.len()))
    }
}

fn out_of_bounds_error(start: u64, len: usize) -> (e: TableParsingError)
    ensures
        e == out_of_bounds(start as int, len as nat),
{
    let offset: u32 = if start <= u32::MAX as u64 {
        start as u32
    } else {
        u32::MAX
    };
    TableParsingError::OffsetOutOfBounds { offset, table_len: len }
}

/// Where `size` bytes starting at `start` lie inside `bytes`, `start` as an index.
fn room(bytes: &Vec<u8>, start: u64, size: u64) -> (r: Option<usize>)
    ensures
        r is Some <==> fits(bytes@, start as int, size as int),
        r matches Some(i) ==> i == start,
{
    let len: usize = bytes.len();
    if start <= len as u64 && size <= len as u64 - start {
        let i: usize = start as usize;
        Some(i)
    } else {
        None
    }
}

/// The byte at `start`.
pub fn u8_at(bytes: &Vec<u8>, start: u64) -> (r: Result<u8, TableParsingError>)
    ensures
        r == read_u8(bytes@, start as int),
{
    if let Some(i) = room(bytes, start, 1) {
        Ok(bytes[i])
    } else {
        Err(out_of_bounds_error(start, bytes.len()))
    }
}

/// The byte at `start`, as a signed number.
pub fn i8_at(bytes: &Vec<u8>, start: u64) -> (r: Result<i8, TableParsingError>)
    ensures
        r == read_i8(bytes@, start as int),
{
    if let Some(i) = room(bytes, start, 1) {
        let v = bytes[i];
        if v < 128 {
            Ok(v as i8)
        } else {
            Ok((v as i16 - 256) as i8)
        }
    } else {
        Err(out_of_bounds_error(start, bytes.len()))
    }
}

fn be_u16_exec(bytes: &Vec<u8>, start: usize) -> (v: u16)
    requires
        fits(bytes@, start as int, 2),
    ensures
        v == be_u16(bytes@, start as int),
{
    let _len: usize = bytes.len();
    let hi = bytes[start] as u16;
    let lo = bytes[start + 1] as u16;
    hi * 256 + lo
}

/// The big-endian `u16` at `start`.
pub fn u16_at(bytes: &Vec<u8>, start: u64) -> (r: Result<u16, TableParsingError>)
    ensures
        r == read_u16(bytes@, start as int),
{
    if let Some(i) = room(bytes, start, 2) {
        Ok(be_u16_exec(bytes, i))
    } else {
        Err(out_of_bounds_error(start, bytes.len()))
    }
}

/// The big-endian `i16` at `start`.
pub fn i16_at(bytes: &Vec<u8>, start: u64) -> (r: Result<i16, TableParsingError>)
    ensures
        r == read_i16(bytes@, start as int),
{
    if let Some(i) = room(bytes, start, 2) {
        let v = be_u16_exec(bytes, i);
        if v < 32768 {
            Ok(v as i16)
        } else {
            Ok((v as i32 - 65536) as i16)
        }
    } else {
        Err(out_of_bounds_error(start, bytes.len()))
    }
}

/// The big-endian `u32` at `start`.
pub fn u32_at(bytes: &Vec<u8>, start: u64) -> (r: Result<u32, TableParsingError>)
    ensures
        r == read_u32(bytes@, start as int),
{
    if let Some(s) = room(bytes, start, 4) {
        Ok(be_u32_from(bytes, s))
    } else {
        Err(out_of_bounds_error(start, bytes.len()))
    }
}

/// The big-endian `u32` at `at`, which lies inside `bytes`.
pub fn be_u32_from(bytes: &Vec<u8>, at: usize) -> (v: u32)
    requires
        at + 4 <= bytes@.len(),
    ensures
        v == be_u32(bytes@, at as int),
{
    let _len: usize = bytes.len();
    let b0 = bytes[at] as u32;
    let b1 = bytes[at + 1] as u32;
    let b2 = bytes[at + 2] as u32;
    let b3 = bytes[at + 3] as u32;
    b0 * 16777216 + b1 * 65536 + b2 * 256 + b3
}

} // verus!
