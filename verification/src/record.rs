//! The records of a jitdump file.

use crate::bytes::{is_string_len, read_string_len, read_u32, read_u64, u32_at, u64_at, Endianness};
use crate::error::UnexpectedEof;
use crate::file_laws::{law_decoded_code_load_is_stored, law_decoded_header_is_stored};
use crate::stored::{lies_at, stored_code_load, stored_record_header, CodeLoad};
use vstd::prelude::*;
use vstd::slice::slice_subrange;

verus! {

/// What kind of record a record is.
#[derive(Debug, Clone, Copy, PartialEq, Eq, Structural)]
pub struct JitDumpRecordType(pub u32);

impl JitDumpRecordType {
    /// The number of a record which says that a function was generated.
    pub const JIT_CODE_LOAD: u32 = 0;

    /// The number of a record which says that a function was moved.
    pub const JIT_CODE_MOVE: u32 = 1;

    /// The number of a record which holds the source locations of a function.
    pub const JIT_CODE_DEBUG_INFO: u32 = 2;

    /// The number of a record which ends the file.
    pub const JIT_CODE_CLOSE: u32 = 3;

    /// The number of a record which holds the unwinding information of a function.
    pub const JIT_CODE_UNWINDING_INFO: u32 = 4;
}

/// The header at the start of a record.
#[derive(Debug, Clone, Copy, PartialEq, Eq, Structural)]
pub struct JitDumpRecordHeader {
    /// What kind of record follows.
    pub record_type: JitDumpRecordType,
    /// The size of the record in bytes, this header included.
    pub total_size: u32,
    /// When the record was written.
    pub timestamp: u64,
}

/// The record header that the bytes of `s` from `i` on store.
pub open spec fn record_header_at(endian: Endianness, s: Seq<u8>, i: int) -> JitDumpRecordHeader {
    JitDumpRecordHeader {
        record_type: JitDumpRecordType(u32_at(endian, s, i)),
        total_size: u32_at(endian, s, i + 4),
        timestamp: u64_at(endian, s, i + 8),
    }
}

impl JitDumpRecordHeader {
    /// The size of a record header in bytes.
    pub const SIZE: usize = 16;

    /// Returns the size of the body of the record in bytes, if the size of the record covers this
    /// header.
    pub fn body_size(&self) -> (size: Option<u32>)
        ensures
            size == (if self.total_size >= Self::SIZE {
                Some((self.total_size - Self::SIZE) as u32)
            } else {
                None
            }),
            size matches Some(n) ==> 16 + n == self.total_size,
            size is None ==> self.total_size < 16,
    {
        if self.total_size as usize >= Self::SIZE {
            Some(self.total_size - Self::SIZE as u32)
        } else {
            None
        }
    }

    /// Decodes the record header at the start of `data`.
    pub fn parse(endian: Endianness, data: &[u8]) -> (result: Result<
        JitDumpRecordHeader,
        UnexpectedEof,
    >)
        ensures
            result == (if data@.len() < Self::SIZE {
                Err(UnexpectedEof)
            } else {
                Ok(record_header_at(endian, data@, 0))
            }),
            result is Err <==> data@.len() < 16,
            result matches Ok(header) ==> lies_at(
                data@,
                0,
                stored_record_header(
                    endian,
                    header.record_type.0,
                    header.total_size,
                    header.timestamp,
                ),
            ),
    {
        if data.len() < Self::SIZE {
            return Err(UnexpectedEof);
        }
        proof {
            law_decoded_header_is_stored(endian, data@, 0, record_header_at(endian, data@, 0));
        }
        match (read_u32(endian, data, 0), read_u32(endian, data, 4), read_u64(endian, data, 8)) {
            (Some(record_type), Some(total_size), Some(timestamp)) => Ok(
                JitDumpRecordHeader {
                    record_type: JitDumpRecordType(record_type),
                    total_size,
                    timestamp,
                },
            ),
            _ => Err(UnexpectedEof),
        }
    }
}

/// A record whose body has not been decoded.
#[derive(Debug, Clone, Copy, PartialEq, Eq)]
pub struct JitDumpRawRecord<'a> {
    /// The byte order of the file.
    pub endian: Endianness,
    /// The offset in the file at which the header of this record starts.
    pub start_offset: u64,
    /// The size of the record in bytes, its header included.
    pub record_size: u32,
    /// What kind of record this is.
    pub record_type: JitDumpRecordType,
    /// When the record was written.
    pub timestamp: u64,
    /// The bytes between the header of this record and the next record.
    pub body: &'a [u8],
}

/// A record as a mathematical value.
pub struct RecordView {
    pub endian: Endianness,
    pub start_offset: int,
    pub record_size: u32,
    pub record_type: JitDumpRecordType,
    pub timestamp: u64,
    pub body: Seq<u8>,
}

impl<'a> View for JitDumpRawRecord<'a> {
    type V = RecordView;

    open spec fn view(&self) -> RecordView {
        RecordView {
            endian: self.endian,
            start_offset: self.start_offset as int,
            record_size: self.record_size,
            record_type: self.record_type,
            timestamp: self.timestamp,
            body: self.body@,
        }
    }
}

/// The body of a record which says that a function was generated.
#[derive(Debug, Clone, Copy, PartialEq, Eq)]
pub struct JitDumpCodeLoadRecord<'a> {
    /// The process in which the function was generated.
    pub pid: u32,
    /// The thread on which the function was generated.
    pub tid: u32,
    /// The virtual address of the function.
    pub vma: u64,
    /// The address of the code of the function.
    pub code_addr: u64,
    /// The size of the code of the function in bytes.
    pub code_size: u64,
    /// A number that tells this function apart from the others.
    pub code_index: u64,
    /// The name of the function, without the nul byte that ends it.
    pub function_name: &'a [u8],
    /// The code of the function.
    pub code_bytes: &'a [u8],
}

/// `s`, the body of a code load record, holds a function name of `n` bytes and all of the code
/// that it announces.
pub open spec fn code_load_complete(endian: Endianness, s: Seq<u8>, n: int) -> bool {
    &&& s.len() >= JitDumpCodeLoadRecord::FIXED_SIZE
    &&& is_string_len(s.skip(JitDumpCodeLoadRecord::FIXED_SIZE as int), n)
    &&& s.len() >= JitDumpCodeLoadRecord::FIXED_SIZE + n + 1 + u64_at(endian, s, 24)
}

impl<'a> JitDumpCodeLoadRecord<'a> {
    /// The size in bytes of the fields before the function name.
    pub const FIXED_SIZE: usize = 40;

    /// The content of this record.
    pub open spec fn content(self) -> CodeLoad {
        CodeLoad {
            pid: self.pid,
            tid: self.tid,
            vma: self.vma,
            code_addr: self.code_addr,
            code_index: self.code_index,
            function_name: self.function_name@,
            code_bytes: self.code_bytes@,
        }
    }

    /// This is what `s`, the body of a code load record with a function name of `n` bytes, stores.
    pub open spec fn is_stored_in(self, endian: Endianness, s: Seq<u8>, n: int) -> bool {
        &&& self.pid == u32_at(endian, s, 0)
        &&& self.tid == u32_at(endian, s, 4)
        &&& self.vma == u64_at(endian, s, 8)
        &&& self.code_addr == u64_at(endian, s, 16)
        &&& self.code_size == u64_at(endian, s, 24)
        &&& self.code_index == u64_at(endian, s, 32)
        &&& self.function_name@ == s.subrange(Self::FIXED_SIZE as int, Self::FIXED_SIZE + n)
        &&& self.code_bytes@ == s.subrange(
            Self::FIXED_SIZE + n + 1,
            Self::FIXED_SIZE + n + 1 + self.code_size,
        )
    }

    /// Decodes the body of a code load record.
    pub fn parse(endian: Endianness, body: &'a [u8]) -> (result: Result<
        JitDumpCodeLoadRecord<'a>,
        UnexpectedEof,
    >)
        ensures
            match result {
                Ok(record) => exists|n: int|
                    #![trigger code_load_complete(endian, body@, n)]
                    code_load_complete(endian, body@, n) && record.is_stored_in(endian, body@, n),
                Err(UnexpectedEof) => forall|n: int| !#[trigger]
                    code_load_complete(endian, body@, n),
            },
            result matches Ok(record) ==> {
                &&& !record.function_name@.contains(0u8)
                &&& record.code_size == record.code_bytes@.len()
                &&& lies_at(body@, 0, stored_code_load(endian, record.content()))
            },
    {
        if body.len() < Self::FIXED_SIZE {
            return Err(UnexpectedEof);
        }
        let (pid, tid, vma, code_addr, code_size, code_index) = match (
            read_u32(endian, body, 0),
            read_u32(endian, body, 4),
            read_u64(endian, body, 8),
            read_u64(endian, body, 16),
            read_u64(endian, body, 24),
            read_u64(endian, body, 32),
        ) {
            (
                Some(pid),
                Some(tid),
                Some(vma),
                Some(code_addr),
                Some(code_size),
                Some(code_index),
            ) => (pid, tid, vma, code_addr, code_size, code_index),
            _ => return Err(UnexpectedEof),
        };
        let rest = slice_subrange(body, Self::FIXED_SIZE, body.len());
        assert(rest@ =~= body@.skip(Self::FIXED_SIZE as int));
        let name_len: usize = match read_string_len(rest) {
            Some(name_len) => name_len,
            None => {
                assert forall|n: int| !#[trigger] code_load_complete(endian, body@, n) by {
                    if code_load_complete(endian, body@, n) {
                        assert(rest@[n] == 0u8);
                    }
                }
                return Err(UnexpectedEof);
            },
        };
        let after_name = slice_subrange(rest, name_len + 1, rest.len());
        if (after_name.len() as u64) < code_size {
            assert forall|n: int| !#[trigger] code_load_complete(endian, body@, n) by {
                if code_load_complete(endian, body@, n) {
                    assert(rest@[n] == 0u8);
                    assert(rest@[name_len as int] == 0u8);
                }
            }
            return Err(UnexpectedEof);
        }
        let record = JitDumpCodeLoadRecord {
            pid,
            tid,
            vma,
            code_addr,
            code_size,
            code_index,
            function_name: slice_subrange(rest, 0, name_len),
            code_bytes: slice_subrange(after_name, 0, code_size as usize),
        };
        proof {
            let n: int = name_len as int;
            assert(code_load_complete(endian, body@, n));
            assert(record.function_name@ =~= body@.subrange(
                Self::FIXED_SIZE as int,
                Self::FIXED_SIZE + n,
            ));
            assert(record.code_bytes@ =~= body@.subrange(
                Self::FIXED_SIZE + n + 1,
                Self::FIXED_SIZE + n + 1 + code_size,
            ));
            law_decoded_code_load_is_stored(endian, body@, record, n);
        }
        Ok(record)
    }
}

/// A record whose body has been decoded.
#[derive(Debug, Clone, Copy, PartialEq, Eq)]
pub enum JitDumpRecord<'a> {
    /// A function was generated.
    CodeLoad(JitDumpCodeLoadRecord<'a>),
    /// A record of any other kind, with its body as it is.
    Other(JitDumpRawRecord<'a>),
}

impl<'a> JitDumpRawRecord<'a> {
    /// Decodes the body of this record.
    pub fn parse(&self) -> (result: Result<JitDumpRecord<'a>, UnexpectedEof>)
        ensures
            match result {
                Ok(JitDumpRecord::CodeLoad(record)) => {
                    &&& self.record_type.0 == JitDumpRecordType::JIT_CODE_LOAD
                    &&& exists|n: int|
                        #![trigger code_load_complete(self.endian, self.body@, n)]
                        code_load_complete(self.endian, self.body@, n) && record.is_stored_in(
                            self.endian,
                            self.body@,
                            n,
                        )
                },
                Ok(JitDumpRecord::Other(record)) => {
                    &&& self.record_type.0 != JitDumpRecordType::JIT_CODE_LOAD
                    &&& record == *self
                },
                Err(UnexpectedEof) => {
                    &&& self.record_type.0 == JitDumpRecordType::JIT_CODE_LOAD
                    &&& forall|n: int| !#[trigger]
                        code_load_complete(self.endian, self.body@, n)
                },
            },
            result matches Ok(JitDumpRecord::CodeLoad(record)) ==> {
                &&& !record.function_name@.contains(0u8)
                &&& record.code_size == record.code_bytes@.len()
                &&& lies_at(self.body@, 0, stored_code_load(self.endian, record.content()))
            },
            self.record_type.0 != 0 <==> result matches Ok(JitDumpRecord::Other(_)),
    {
        if self.record_type.0 == JitDumpRecordType::JIT_CODE_LOAD {
            match JitDumpCodeLoadRecord::parse(self.endian, self.body) {
                Ok(record) => Ok(JitDumpRecord::CodeLoad(record)),
                Err(error) => Err(error),
            }
        } else {
            Ok(JitDumpRecord::Other(*self))
        }
    }
}

} // verus!
