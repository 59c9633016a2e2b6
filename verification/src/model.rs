//! The reader as a mathematical state machine.
//!
//! A reader does no input or output of its own. A method that cannot be decided by the bytes
//! that have arrived asks for more of them; whoever drives the reader reads them from the stream,
//! hands them over, and calls the method again. What each method returns and leaves behind is a
//! function of the state that is defined here.

use crate::buffered_reader::dropping;
use crate::bytes::Endianness;
use crate::header::{magic_endian, JitDumpHeader};
use crate::record::{record_header_at, JitDumpRecordHeader, JitDumpRecordType, RecordView};
use vstd::prelude::*;

verus! {

/// What came of a call: either the result, or a request for input.
#[derive(Debug, PartialEq, Eq)]
pub enum Progress<T> {
    /// The result of the call.
    Ready(T),
    /// The call cannot be decided unless this many bytes are available, counted from the read
    /// position, or the input is known to have ended.
    NeedBytes(u64),
}

/// What came of a call to skip a record: either the result, or a request for the stream.
#[derive(Debug, PartialEq, Eq)]
pub enum SkipProgress {
    /// Whether the record was skipped.
    Ready(bool),
    /// The call cannot be decided unless this many bytes are available, counted from the read
    /// position, or the input is known to have ended.
    NeedBytes(u64),
    /// The record ends this many bytes past everything that has arrived. The stream has to be
    /// moved forward by as much, if it is long enough.
    SeekForward(u64),
}

/// The size of a record header, as a mathematical integer.
pub open spec fn header_size() -> int {
    JitDumpRecordHeader::SIZE as int
}

/// The header is of a record type that the format defines, and the size that it gives for its
/// record covers at least the header itself.
pub open spec fn is_known(header: JitDumpRecordHeader) -> bool {
    &&& {
        ||| header.record_type.0 == JitDumpRecordType::JIT_CODE_LOAD
        ||| header.record_type.0 == JitDumpRecordType::JIT_CODE_MOVE
        ||| header.record_type.0 == JitDumpRecordType::JIT_CODE_DEBUG_INFO
        ||| header.record_type.0 == JitDumpRecordType::JIT_CODE_CLOSE
        ||| header.record_type.0 == JitDumpRecordType::JIT_CODE_UNWINDING_INFO
    }
    &&& header.total_size >= header_size()
}

/// The bytes of `s` from `i` on store a known header.
pub open spec fn known_header_at(endian: Endianness, s: Seq<u8>, i: int) -> bool {
    is_known(record_header_at(endian, s, i))
}

/// Whether a header is known does not depend on its timestamp: sequences that agree on the record
/// type and the record size, the eight bytes from `i` on, agree on it.
pub proof fn law_timestamp_does_not_matter(endian: Endianness, s: Seq<u8>, t: Seq<u8>, i: int)
    requires
        forall|j: int| i <= j < i + 8 ==> s[j] == t[j],
    ensures
        known_header_at(endian, s, i) == known_header_at(endian, t, i),
{
}

/// Whether position `i` of `s` is taken for the start of a record: the bytes there store a known
/// header, and either the bytes right behind the record that it announces store another one, or
/// the record ends where the input ends. A position with too few bytes behind it for a header is
/// taken for the end of the file. Bytes that are asked for are counted from position `i`.
pub open spec fn chain_verdict(endian: Endianness, s: Seq<u8>, i: int, ended: bool) -> Progress<
    bool,
> {
    let size = record_header_at(endian, s, i).total_size;
    if s.len() < i + header_size() {
        if ended {
            Progress::Ready(true)
        } else {
            Progress::NeedBytes(header_size() as u64)
        }
    } else if !known_header_at(endian, s, i) {
        Progress::Ready(false)
    } else if s.len() >= i + size + header_size() {
        Progress::Ready(known_header_at(endian, s, i + size))
    } else if ended {
        Progress::Ready(s.len() == i + size)
    } else {
        Progress::NeedBytes((size + header_size()) as u64)
    }
}

/// The first position of `s` from `i` on that is not turned down as the start of a record.
pub open spec fn resync_point(endian: Endianness, s: Seq<u8>, i: int, ended: bool) -> int
    decreases s.len() - i,
{
    if chain_verdict(endian, s, i, ended) == Progress::Ready(false) {
        resync_point(endian, s, i + 1, ended)
    } else {
        i
    }
}

/// The state of a reader.
#[verifier::ext_equal]
pub struct ReaderState {
    /// The file header.
    pub header: JitDumpHeader,
    /// The byte order of the file.
    pub endian: Endianness,
    /// Whether bytes that do not look like a record header are skipped.
    pub recover: bool,
    /// The header of the next record, if the read position is behind that header.
    pub pending: Option<JitDumpRecordHeader>,
    /// The offset in the file at which the next record starts.
    pub next_offset: int,
    /// The bytes at and after the read position that have arrived.
    pub unread: Seq<u8>,
    /// The number of bytes before the read position that have yet to arrive.
    pub owed: nat,
    /// Whether the stream is known to have no more bytes for now.
    pub ended: bool,
}

impl ReaderState {
    /// The state of a reader whose stream starts with `data`, in which `header` is stored.
    pub open spec fn initial(header: JitDumpHeader, data: Seq<u8>) -> ReaderState {
        ReaderState {
            header,
            endian: magic_endian(header.magic@)->0,
            recover: false,
            pending: None,
            next_offset: header.total_size as int,
            unread: dropping(data, header.total_size as nat),
            owed: if header.total_size <= data.len() {
                0
            } else {
                (header.total_size - data.len()) as nat
            },
            ended: false,
        }
    }

    /// The offset in the file of the first byte behind those that have arrived.
    pub open spec fn end_offset(self) -> int {
        self.next_offset + (if self.pending is Some {
            header_size()
        } else {
            0
        }) + self.unread.len()
    }

    /// What holds of every reader.
    pub open spec fn valid(self) -> bool {
        &&& magic_endian(self.header.magic@) == Some(self.endian)
        &&& 0 <= self.next_offset
        &&& self.end_offset() <= u64::MAX
        &&& self.owed > 0 ==> self.unread.len() == 0 && self.pending is None
    }

    /// More bytes have arrived from the stream.
    pub open spec fn supplied(self, chunk: Seq<u8>) -> ReaderState {
        ReaderState {
            unread: self.unread + dropping(chunk, self.owed),
            owed: if self.owed <= chunk.len() {
                0
            } else {
                (self.owed - chunk.len()) as nat
            },
            ended: false,
            ..self
        }
    }

    /// It is known whether the stream has no more bytes for now.
    pub open spec fn with_ended(self, ended: bool) -> ReaderState {
        ReaderState { ended, ..self }
    }

    /// The first `n` unread bytes are skipped, and the next record starts behind them.
    pub open spec fn skipping(self, n: int) -> ReaderState {
        ReaderState { unread: self.unread.skip(n), next_offset: self.next_offset + n, ..self }
    }

    /// The header at the read position is taken, if it has arrived.
    pub open spec fn take_header(self) -> (Progress<Option<JitDumpRecordHeader>>, ReaderState) {
        if self.unread.len() >= header_size() {
            let header = record_header_at(self.endian, self.unread, 0);
            (
                Progress::Ready(Some(header)),
                ReaderState {
                    pending: Some(header),
                    unread: self.unread.skip(header_size()),
                    ..self
                },
            )
        } else if self.ended {
            (Progress::Ready(None), self)
        } else {
            (Progress::NeedBytes(header_size() as u64), self)
        }
    }

    /// The first `n` unread bytes are skipped, and the header behind them is taken, if it can be
    /// told that it is one.
    pub open spec fn take_header_from(self, n: int) -> (
        Progress<Option<JitDumpRecordHeader>>,
        ReaderState,
    ) {
        match chain_verdict(self.endian, self.unread, n, self.ended) {
            Progress::NeedBytes(needed) => (Progress::NeedBytes(needed), self.skipping(n)),
            Progress::Ready(_) => self.skipping(n).take_header(),
        }
    }

    /// The header of the next record is found, and the read position moves behind it.
    pub open spec fn find_header(self) -> (Progress<Option<JitDumpRecordHeader>>, ReaderState) {
        if self.pending is Some {
            (Progress::Ready(self.pending), self)
        } else if self.recover {
            self.take_header_from(resync_point(self.endian, self.unread, 0, self.ended))
        } else {
            self.take_header()
        }
    }

    /// What `next_record_header` returns and leaves behind.
    pub open spec fn next_record_header(self) -> (
        Progress<Option<JitDumpRecordHeader>>,
        ReaderState,
    ) {
        match self.find_header() {
            (Progress::NeedBytes(needed), found) => (Progress::NeedBytes(needed), found),
            (Progress::Ready(header), found) => (Progress::Ready(header), found.with_ended(false)),
        }
    }

    /// The size of the next record, once its header is found, covers at least its header.
    pub open spec fn next_size_covers_header(self) -> bool {
        self.find_header().0 matches Progress::Ready(Some(header)) ==> header.total_size
            >= header_size()
    }

    /// The read position is behind the record whose header is pending.
    pub open spec fn past_record(self) -> ReaderState {
        let size = self.pending->0.total_size;
        ReaderState {
            pending: None,
            unread: self.unread.skip(size - header_size()),
            next_offset: self.next_offset + size,
            ..self
        }
    }

    /// The record whose header is pending, if its body has arrived.
    pub open spec fn pending_record(self) -> RecordView {
        let header = self.pending->0;
        RecordView {
            endian: self.endian,
            start_offset: self.next_offset,
            record_size: header.total_size,
            record_type: header.record_type,
            timestamp: header.timestamp,
            body: self.unread.take(header.total_size - header_size()),
        }
    }

    /// The record whose header is pending is taken, if its body has arrived.
    pub open spec fn take_record(self) -> (Progress<Option<RecordView>>, ReaderState) {
        let body_size = self.pending->0.total_size - header_size();
        if self.unread.len() >= body_size {
            (Progress::Ready(Some(self.pending_record())), self.past_record().with_ended(false))
        } else if self.ended {
            (Progress::Ready(None), self.with_ended(false))
        } else {
            (Progress::NeedBytes(body_size as u64), self)
        }
    }

    /// What `next_record` returns and leaves behind.
    pub open spec fn next_record(self) -> (Progress<Option<RecordView>>, ReaderState) {
        match self.find_header() {
            (Progress::NeedBytes(needed), found) => (Progress::NeedBytes(needed), found),
            (Progress::Ready(None), found) => (Progress::Ready(None), found.with_ended(false)),
            (Progress::Ready(Some(_)), found) => found.take_record(),
        }
    }

    /// The record whose header is pending is skipped, if its body has arrived.
    pub open spec fn skip_record(self) -> (SkipProgress, ReaderState) {
        let body_size = self.pending->0.total_size - header_size();
        if self.unread.len() >= body_size {
            (SkipProgress::Ready(true), self.past_record().with_ended(false))
        } else {
            (SkipProgress::SeekForward((body_size - self.unread.len()) as u64), self)
        }
    }

    /// What `skip_next_record` returns and leaves behind.
    pub open spec fn skip_next_record(self) -> (SkipProgress, ReaderState) {
        match self.find_header() {
            (Progress::NeedBytes(needed), found) => (SkipProgress::NeedBytes(needed), found),
            (Progress::Ready(None), found) => (SkipProgress::Ready(false), found.with_ended(false)),
            (Progress::Ready(Some(_)), found) => found.skip_record(),
        }
    }

    /// The header of a record is pending, and part of the body of that record has not arrived.
    pub open spec fn body_incomplete(self) -> bool {
        &&& self.pending matches Some(header)
        &&& self.unread.len() < header.total_size - header_size()
    }

    /// The state after the answer to a request to move the stream forward.
    pub open spec fn finish_skip(self, seeked: bool) -> ReaderState {
        if seeked {
            ReaderState {
                pending: None,
                unread: Seq::empty(),
                next_offset: self.next_offset + self.pending->0.total_size,
                ended: false,
                ..self
            }
        } else {
            self.with_ended(false)
        }
    }
}

/// Bytes are decoded in the same way wherever the sequence that they are in starts.
pub(crate) proof fn lemma_header_in_subrange(endian: Endianness, s: Seq<u8>, from: int, to: int, i: int)
    requires
        0 <= from <= to <= s.len(),
        0 <= i,
        i + header_size() <= to - from,
    ensures
        record_header_at(endian, s.subrange(from, to), i) == record_header_at(endian, s, from + i),
{
}

} // verus!
