//! Byte orders, and the decoding of fixed-width integers out of byte slices.

use byteorder::{BigEndian, LittleEndian};
use linux_perf_event_reader::RawData;
use vstd::prelude::*;
use vstd::slice::slice_subrange;

verus! {

/// The order in which a file stores the bytes of its integers.
#[derive(Debug, Clone, Copy, PartialEq, Eq, Structural)]
pub enum Endianness {
    LittleEndian,
    BigEndian,
}

/// The integer stored in the four bytes of `s` that start at `i`.
pub open spec fn u32_at(endian: Endianness, s: Seq<u8>, i: int) -> u32 {
    match endian {
        Endianness::LittleEndian => (s[i] + 0x100 * s[i + 1] + 0x1_0000 * s[i + 2] + 0x100_0000 * s[
            i + 3]) as u32,
        Endianness::BigEndian => (s[i + 3] + 0x100 * s[i + 2] + 0x1_0000 * s[i + 1] + 0x100_0000
            * s[i]) as u32,
    }
}

/// The integer stored in the eight bytes of `s` that start at `i`.
pub open spec fn u64_at(endian: Endianness, s: Seq<u8>, i: int) -> u64 {
    match endian {
        Endianness::LittleEndian => (u32_at(endian, s, i) + 0x1_0000_0000 * u32_at(
            endian,
            s,
            i + 4,
        )) as u64,
        Endianness::BigEndian => (u32_at(endian, s, i + 4) + 0x1_0000_0000 * u32_at(
            endian,
            s,
            i,
        )) as u64,
    }
}

/// Calls `RawData::read_u32::<LittleEndian>` on the bytes of `data`.
///
/// Trusted: the call fails exactly when fewer than four bytes are there, and otherwise returns
/// the first four of them, least significant byte first.
#[verifier::external_body]
fn read_u32_le(data: &[u8]) -> (value: Option<u32>)
    ensures
        value == (if data@.len() < 4 {
            None
        } else {
            Some(u32_at(Endianness::LittleEndian, data@, 0))
        }),
{
    RawData::Single(data).read_u32::<LittleEndian>().ok()
}

/// Calls `RawData::read_u32::<BigEndian>` on the bytes of `data`.
///
/// Trusted: the call fails exactly when fewer than four bytes are there, and otherwise returns
/// the first four of them, most significant byte first.
#[verifier::external_body]
fn read_u32_be(data: &[u8]) -> (value: Option<u32>)
    ensures
        value == (if data@.len() < 4 {
            None
        } else {
            Some(u32_at(Endianness::BigEndian, data@, 0))
        }),
{
    RawData::Single(data).read_u32::<BigEndian>().ok()
}

/// Calls `RawData::read_u64::<LittleEndian>` on the bytes of `data`.
///
/// Trusted: the call fails exactly when fewer than eight bytes are there, and otherwise returns
/// the first eight of them, least significant byte first.
#[verifier::external_body]
fn read_u64_le(data: &[u8]) -> (value: Option<u64>)
    ensures
        value == (if data@.len() < 8 {
            None
        } else {
            Some(u64_at(Endianness::LittleEndian, data@, 0))
        }),
{
    RawData::Single(data).read_u64::<LittleEndian>().ok()
}

/// Calls `RawData::read_u64::<BigEndian>` on the bytes of `data`.
///
/// Trusted: the call fails exactly when fewer than eight bytes are there, and otherwise returns
/// the first eight of them, most significant byte first.
#[verifier::external_body]
fn read_u64_be(data: &[u8]) -> (value: Option<u64>)
    ensures
        value == (if data@.len() < 8 {
            None
        } else {
            Some(u64_at(Endianness::BigEndian, data@, 0))
        }),
{
    RawData::Single(data).read_u64::<BigEndian>().ok()
}

/// `n` is the number of bytes that `s` holds before its first nul byte.
pub open spec fn is_string_len(s: Seq<u8>, n: int) -> bool {
    &&& 0 <= n < s.len()
    &&& s[n] == 0
    &&& forall|j: int| 0 <= j < n ==> s[j] != 0
}

/// Calls `RawData::read_string` on the bytes of `data`, and returns the length of the string.
///
/// Trusted: the call finds no string exactly when `data` holds no nul byte; otherwise the string
/// is everything before the first nul byte.
#[verifier::external_body]
pub(crate) fn read_string_len(data: &[u8]) -> (len: Option<usize>)
    ensures
        match len {
            Some(n) => is_string_len(data@, n as int),
            None => !data@.contains(0),
        },
{
    match RawData::Single(data).read_string() {
        Some(string) => Some(string.len()),
        None => None,
    }
}

/// Decodes the integer that starts at the `i`th byte of `data`; `None` if too few bytes follow.
pub(crate) fn read_u32(endian: Endianness, data: &[u8], i: usize) -> (value: Option<u32>)
    requires
        i <= data@.len(),
    ensures
        value == (if data@.len() < i + 4 {
            None
        } else {
            Some(u32_at(endian, data@, i as int))
        }),
{
    let rest = slice_subrange(data, i, data.len());
    match endian {
        Endianness::LittleEndian => read_u32_le(rest),
        Endianness::BigEndian => read_u32_be(rest),
    }
}

/// Decodes the integer that starts at the `i`th byte of `data`; `None` if too few bytes follow.
pub(crate) fn read_u64(endian: Endianness, data: &[u8], i: usize) -> (value: Option<u64>)
    requires
        i <= data@.len(),
    ensures
        value == (if data@.len() < i + 8 {
            None
        } else {
            Some(u64_at(endian, data@, i as int))
        }),
{
    let rest = slice_subrange(data, i, data.len());
    match endian {
        Endianness::LittleEndian => read_u64_le(rest),
        Endianness::BigEndian => read_u64_be(rest),
    }
}

} // verus!
