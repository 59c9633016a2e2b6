//! The header at the start of a jitdump file.

use crate::bytes::{read_u32, read_u64, u32_at, u64_at, Endianness};
use crate::error::JitDumpError;
use vstd::prelude::*;

verus! {

/// The file header.
#[derive(Debug, Clone, Copy, PartialEq, Eq)]
pub struct JitDumpHeader {
    /// `DTiJ` in a little-endian file, `JiTD` in a big-endian one.
    pub magic: [u8; 4],
    /// The version of the file format.
    pub version: u32,
    /// The size of the file header in bytes, which is the offset of the first record.
    pub total_size: u32,
    /// The ELF machine for which the code in the file was generated.
    pub elf_machine_arch: u32,
    /// The process in which the code was generated.
    pub pid: u32,
    /// When the file was created.
    pub timestamp: u64,
    /// A bit set of flags.
    pub flags: u64,
}

/// The byte order that four magic bytes announce, if they are those of a jitdump file.
pub open spec fn magic_endian(magic: Seq<u8>) -> Option<Endianness> {
    if magic =~= seq![0x44u8, 0x54u8, 0x69u8, 0x4Au8] {
        Some(Endianness::LittleEndian)
    } else if magic =~= seq![0x4Au8, 0x69u8, 0x54u8, 0x44u8] {
        Some(Endianness::BigEndian)
    } else {
        None
    }
}

/// Returns the byte order that four magic bytes announce, if they are those of a jitdump file.
pub fn endian_of_magic(magic: [u8; 4]) -> (endian: Option<Endianness>)
    ensures
        endian == magic_endian(magic@),
{
    if magic[0] == 0x44 && magic[1] == 0x54 && magic[2] == 0x69 && magic[3] == 0x4A {
        Some(Endianness::LittleEndian)
    } else if magic[0] == 0x4A && magic[1] == 0x69 && magic[2] == 0x54 && magic[3] == 0x44 {
        Some(Endianness::BigEndian)
    } else {
        None
    }
}

impl JitDumpHeader {
    /// The size of the fields of a file header.
    pub const SIZE: usize = 40;

    /// The fields of this header are those that `s`, the start of a file, stores.
    pub open spec fn is_stored_in(self, s: Seq<u8>) -> bool {
        &&& s.len() >= Self::SIZE
        &&& self.magic@ == s.take(4)
        &&& magic_endian(s.take(4)) matches Some(endian) && {
            &&& self.version == u32_at(endian, s, 4)
            &&& self.total_size == u32_at(endian, s, 8)
            &&& self.elf_machine_arch == u32_at(endian, s, 12)
            &&& self.pid == u32_at(endian, s, 20)
            &&& self.timestamp == u64_at(endian, s, 24)
            &&& self.flags == u64_at(endian, s, 32)
        }
    }

    /// Decodes the file header at the start of `data`.
    ///
    /// Fails if `data` does not start with the magic bytes of a jitdump file, and if it does but
    /// is too short for a file header.
    pub fn parse(data: &[u8]) -> (result: Result<JitDumpHeader, JitDumpError>)
        ensures
            is_header_result(data@, result),
    {
        if data.len() < 4 {
            return Err(JitDumpError::NotEnoughDataForHeader);
        }
        let magic = [data[0], data[1], data[2], data[3]];
        assert(magic@ =~= data@.take(4));
        let endian = match endian_of_magic(magic) {
            Some(endian) => endian,
            None => return Err(JitDumpError::InvalidMagicBytes(magic)),
        };
        if data.len() < Self::SIZE {
            return Err(JitDumpError::NotEnoughDataForHeader);
        }
        match (
            read_u32(endian, data, 4),
            read_u32(endian, data, 8),
            read_u32(endian, data, 12),
            read_u32(endian, data, 20),
            read_u64(endian, data, 24),
            read_u64(endian, data, 32),
        ) {
            (
                Some(version),
                Some(total_size),
                Some(elf_machine_arch),
                Some(pid),
                Some(timestamp),
                Some(flags),
            ) => Ok(
                JitDumpHeader {
                    magic,
                    version,
                    total_size,
                    elf_machine_arch,
                    pid,
                    timestamp,
                    flags,
                },
            ),
            _ => Err(JitDumpError::NotEnoughDataForHeader),
        }
    }
}

/// What comes of decoding the file header at the start of `s`.
pub open spec fn is_header_result(s: Seq<u8>, result: Result<JitDumpHeader, JitDumpError>) -> bool {
    match result {
        Ok(header) => header.is_stored_in(s),
        Err(JitDumpError::NotEnoughDataForHeader) => {
            ||| s.len() < 4
            ||| magic_endian(s.take(4)) is Some && s.len() < JitDumpHeader::SIZE
        },
        Err(JitDumpError::InvalidMagicBytes(magic)) => {
            &&& s.len() >= 4
            &&& magic@ == s.take(4)
            &&& magic_endian(magic@) is None
        },
    }
}

} // verus!
