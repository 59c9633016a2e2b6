//! The reader for jitdump files.

use crate::buffered_reader::BufferedReader;
use crate::bytes::Endianness;
use crate::error::{JitDumpError, RecordSizeTooSmall};
use crate::file_laws::{entry_of, law_read_record_was_stored};
use crate::header::{endian_of_magic, is_header_result, JitDumpHeader};
use crate::laws::{law_resync_point_is_first, law_verdict_ignores_what_comes_before};
use crate::model::{
    chain_verdict, header_size, known_header_at, lemma_header_in_subrange,
    resync_point, Progress, ReaderState, SkipProgress,
};
use crate::reading_laws::{
    announces_record, is_no_record_start, is_record_start, law_chained_check,
    law_record_is_read_as_stored,
};
use crate::record::{JitDumpRawRecord, JitDumpRecordHeader, JitDumpRecordType, RecordView};
use crate::stored::{lies_at, stored_record};
use vstd::prelude::*;
use vstd::slice::slice_subrange;

verus! {

/// Parses a jitdump file and iterates over its records.
///
/// The reader works with complete files as well as with files which are still being written to,
/// which makes it useful for live profiling.
///
/// The records refer to memory owned by the reader, to minimize copies.
#[derive(Debug, Clone)]
pub struct JitDumpReader {
    reader: BufferedReader,
    header: JitDumpHeader,
    endian: Endianness,
    /// `None` if the reader is at the start of the header of the next record.
    /// `Some` if the reader is behind that header and before the body of the record.
    pending_record_header: Option<JitDumpRecordHeader>,
    current_record_start_offset: u64,
    /// When set, bytes that do not look like a record header are skipped. Useful for files from
    /// writers whose buffers can leak stray bytes, such as CPython under workloads that fork.
    recover_from_corruption: bool,
    input_ended: bool,
}

impl View for JitDumpReader {
    type V = ReaderState;

    closed spec fn view(&self) -> ReaderState {
        ReaderState {
            header: self.header,
            endian: self.endian,
            recover: self.recover_from_corruption,
            pending: self.pending_record_header,
            next_offset: self.current_record_start_offset as int,
            unread: self.reader.unread(),
            owed: self.reader.owed(),
            ended: self.input_ended,
        }
    }
}

/// Whether `header_bytes` start with a record header that is known: one of a record type that the
/// format defines, with a size that covers at least the header itself.
pub fn is_known_record_header(endian: Endianness, header_bytes: &[u8]) -> (known: bool)
    ensures
        known == (header_bytes@.len() >= header_size() && known_header_at(
            endian,
            header_bytes@,
            0,
        )),
        known == (header_bytes@.len() >= 16 && announces_record(endian, header_bytes@, 0)),
{
    let header = match JitDumpRecordHeader::parse(endian, header_bytes) {
        Ok(header) => header,
        Err(_) => return false,
    };
    let record_type: u32 = header.record_type.0;
    let known_type = record_type == JitDumpRecordType::JIT_CODE_LOAD || record_type
        == JitDumpRecordType::JIT_CODE_MOVE || record_type == JitDumpRecordType::JIT_CODE_DEBUG_INFO
        || record_type == JitDumpRecordType::JIT_CODE_CLOSE || record_type
        == JitDumpRecordType::JIT_CODE_UNWINDING_INFO;
    known_type && header.total_size as usize >= JitDumpRecordHeader::SIZE
}

/// Where a stream at position `here`, which ends at position `end`, has to be moved to skip
/// `distance` bytes; `None` if it is too short for that.
pub fn seek_target(here: u64, end: u64, distance: u64) -> (target: Option<u64>)
    ensures
        target == (if here + distance <= end {
            Some((here + distance) as u64)
        } else {
            None
        }),
        target matches Some(there) ==> here <= there <= end && there - here == distance,
        target is None ==> here + distance > end,
{
    if here <= end && distance <= end - here {
        Some(here + distance)
    } else {
        None
    }
}

/// The first `n` bytes of `data`, which may have fewer.
pub open spec fn first_bytes(data: Seq<u8>, n: nat) -> Seq<u8> {
    if n <= data.len() {
        data.take(n as int)
    } else {
        data
    }
}

/// What comes of opening a stream that starts with `data`, if the file header is read from the
/// first `buffer_size` bytes.
pub open spec fn is_open_result(
    data: Seq<u8>,
    buffer_size: nat,
    result: Result<JitDumpReader, JitDumpError>,
) -> bool {
    match result {
        Ok(reader) => {
            &&& reader@.header.is_stored_in(first_bytes(data, buffer_size))
            &&& reader@ == ReaderState::initial(reader@.header, data)
            &&& reader@.valid()
        },
        Err(error) => is_header_result(first_bytes(data, buffer_size), Err(error)),
    }
}

/// The outcome of `next_record` with its record as a mathematical value.
pub open spec fn record_progress(progress: Progress<Option<JitDumpRawRecord<'_>>>) -> Progress<
    Option<RecordView>,
> {
    match progress {
        Progress::Ready(Some(record)) => Progress::Ready(Some(record@)),
        Progress::Ready(None) => Progress::Ready(None),
        Progress::NeedBytes(needed) => Progress::NeedBytes(needed),
    }
}

/// A record that comes out of a reader whose read position is at the start of a header is stored
/// in the stream, at its offset.
pub open spec fn is_record_stored(state: ReaderState, record: RecordView) -> bool {
    state.pending is None ==> lies_at(
        state.unread,
        record.start_offset - state.next_offset,
        stored_record(record.endian, entry_of(record)),
    )
}

/// The record in the outcome of a call of `next_record`, if there is one, is stored in the stream.
#[verifier::opaque]
pub open spec fn is_progress_stored(
    state: ReaderState,
    progress: Progress<Option<RecordView>>,
) -> bool {
    progress matches Progress::Ready(Some(record)) ==> is_record_stored(state, record)
}

/// A record that is read is stored in the stream.
proof fn lemma_record_was_stored(state: ReaderState)
    requires
        state.valid(),
        state.next_size_covers_header(),
    ensures
        is_progress_stored(state, state.next_record().0),
{
    reveal(is_progress_stored);
    if state.pending is None {
        law_read_record_was_stored(state);
        law_record_is_read_as_stored(state);
    }
}

impl JitDumpReader {
    /// Creates a reader for a stream that starts with `data`, from whose first 4 KiB the file
    /// header is read.
    pub fn new(data: Vec<u8>) -> (result: Result<JitDumpReader, JitDumpError>)
        ensures
            is_open_result(data@, 4096, result),
            result matches Ok(reader) ==> {
                let total_size = reader@.header.total_size;
                &&& reader@.next_offset == total_size
                &&& total_size <= data@.len() ==> reader@.unread == data@.skip(total_size as int)
            },
    {
        Self::new_with_buffer_size(data, 4 * 1024)
    }

    /// Creates a reader for a stream that starts with `data`, from whose first `buffer_size`
    /// bytes the file header is read.
    pub fn new_with_buffer_size(data: Vec<u8>, buffer_size: usize) -> (result: Result<
        JitDumpReader,
        JitDumpError,
    >)
        ensures
            is_open_result(data@, buffer_size as nat, result),
            result matches Ok(reader) ==> {
                let total_size = reader@.header.total_size;
                &&& reader@.next_offset == total_size
                &&& total_size <= data@.len() ==> reader@.unread == data@.skip(total_size as int)
            },
    {
        let first_data_len: usize = if data.len() < buffer_size {
            data.len()
        } else {
            buffer_size
        };
        let first_data = slice_subrange(data.as_slice(), 0, first_data_len);
        assert(first_data@ =~= first_bytes(data@, buffer_size as nat));
        let header = match JitDumpHeader::parse(first_data) {
            Ok(header) => header,
            Err(error) => return Err(error),
        };
        let endian = match endian_of_magic(header.magic) {
            Some(endian) => endian,
            None => return Err(JitDumpError::InvalidMagicBytes(header.magic)),
        };
        let total_header_size: u32 = header.total_size;
        Ok(
            JitDumpReader {
                reader: BufferedReader::new_with_partially_read_buffer(
                    data,
                    total_header_size as usize,
                ),
                header,
                endian,
                pending_record_header: None,
                current_record_start_offset: total_header_size as u64,
                recover_from_corruption: false,
                input_ended: false,
            },
        )
    }

    /// Turns the skipping of bytes that do not look like a record header on or off.
    ///
    /// When it is on, the reader scans forward, byte by byte, for a header that is known and whose
    /// record is followed by another known header. The chained check is what keeps random bytes
    /// from being mistaken for a record. It is off by default; turn it on for files from
    /// misbehaving writers, notably the perf trampoline of CPython, which can interleave stray
    /// bytes when a fork races with its buffered stream.
    ///
    /// A record that is cut off where the input ends fails the chained check, and so does a
    /// complete record that is followed by only a part of the next header. In a file which is
    /// still being written to, a reader that recovers from corruption may take such a record for
    /// corruption and leave it behind for good.
    pub fn recover_from_corruption(self, enabled: bool) -> (reader: JitDumpReader)
        ensures
            reader@ == (ReaderState { recover: enabled, ..self@ }),
    {
        let mut reader = self;
        reader.recover_from_corruption = enabled;
        reader
    }

    /// The file header.
    pub fn header(&self) -> (header: &JitDumpHeader)
        ensures
            *header == self@.header,
    {
        &self.header
    }

    /// The byte order of the file.
    pub fn endian(&self) -> (endian: Endianness)
        ensures
            endian == self@.endian,
    {
        self.endian
    }

    /// The number of bytes that have arrived and lie behind the read position.
    pub fn available(&self) -> (n: usize)
        ensures
            n == self@.unread.len(),
    {
        self.reader.available()
    }

    /// Hands over bytes that were read from the stream.
    pub fn supply(&mut self, chunk: &[u8])
        requires
            old(self)@.valid(),
            old(self)@.supplied(chunk@).end_offset() <= u64::MAX,
        ensures
            final(self)@.valid(),
            final(self)@ == old(self)@.supplied(chunk@),
    {
        self.reader.append(chunk);
        self.input_ended = false;
    }

    /// Reports that the stream has no more bytes for now. The next call is decided by the bytes
    /// that have arrived. Calls after that one ask for input again.
    pub fn end_of_input(&mut self)
        ensures
            final(self)@ == old(self)@.with_ended(true),
    {
        self.input_ended = true;
    }

    /// Returns the header of the next record, or `None` if the input ends before it does.
    pub fn next_record_header(&mut self) -> (progress: Progress<Option<JitDumpRecordHeader>>)
        requires
            old(self)@.valid(),
        ensures
            final(self)@.valid(),
            (progress, final(self)@) == old(self)@.next_record_header(),
            progress matches Progress::Ready(header) ==> header == final(self)@.pending,
    {
        let progress = self.find_record_header();
        if let Progress::Ready(_) = progress {
            self.input_ended = false;
        }
        progress
    }

    /// Returns the timestamp of the next record.
    ///
    /// `None` means that the input ends before the header of the next record does. `Some` means
    /// that the header has arrived, but not that the entire record has: the next call of
    /// `next_record` can still return `None`.
    pub fn next_record_timestamp(&mut self) -> (progress: Progress<Option<u64>>)
        requires
            old(self)@.valid(),
        ensures
            final(self)@.valid(),
            final(self)@ == old(self)@.next_record_header().1,
            progress == match old(self)@.next_record_header().0 {
                Progress::Ready(Some(header)) => Progress::Ready(Some(header.timestamp)),
                Progress::Ready(None) => Progress::Ready(None),
                Progress::NeedBytes(needed) => Progress::NeedBytes(needed),
            },
            progress matches Progress::Ready(Some(timestamp)) ==> final(self)@.pending matches Some(
                header,
            ) && header.timestamp == timestamp,
            progress matches Progress::Ready(None) ==> final(self)@.pending is None,
    {
        match self.next_record_header() {
            Progress::Ready(Some(header)) => Progress::Ready(Some(header.timestamp)),
            Progress::Ready(None) => Progress::Ready(None),
            Progress::NeedBytes(needed) => Progress::NeedBytes(needed),
        }
    }

    /// Returns the type of the next record.
    pub fn next_record_type(&mut self) -> (progress: Progress<Option<JitDumpRecordType>>)
        requires
            old(self)@.valid(),
        ensures
            final(self)@.valid(),
            final(self)@ == old(self)@.next_record_header().1,
            progress == match old(self)@.next_record_header().0 {
                Progress::Ready(Some(header)) => Progress::Ready(Some(header.record_type)),
                Progress::Ready(None) => Progress::Ready(None),
                Progress::NeedBytes(needed) => Progress::NeedBytes(needed),
            },
            progress matches Progress::Ready(Some(record_type))
                ==> final(self)@.pending matches Some(header) && header.record_type == record_type,
            progress matches Progress::Ready(None) ==> final(self)@.pending is None,
    {
        match self.next_record_header() {
            Progress::Ready(Some(header)) => Progress::Ready(Some(header.record_type)),
            Progress::Ready(None) => Progress::Ready(None),
            Progress::NeedBytes(needed) => Progress::NeedBytes(needed),
        }
    }

    /// Returns the offset in the file at which the next record, and so its header, starts.
    pub fn next_record_offset(&self) -> (offset: u64)
        ensures
            offset == self@.next_offset,
    {
        self.current_record_start_offset
    }

    /// Returns the next record, or `None` if the input ends before it does.
    ///
    /// After `None`, a later call may return the record, if the rest of it has become available
    /// in the meantime. A reader that recovers from corruption may instead have taken the record
    /// for corruption, because it is cut off or is followed by only a part of the next header, and
    /// left it behind. It does not do so if the header of the record was pending.
    pub fn next_record(&mut self) -> (progress: Progress<Option<JitDumpRawRecord<'_>>>)
        requires
            old(self)@.valid(),
            old(self)@.next_size_covers_header(),
        ensures
            final(self)@.valid(),
            (record_progress(progress), final(self)@) == old(self)@.next_record(),
            is_progress_stored(old(self)@, record_progress(progress)),
    {
        proof {
            lemma_record_was_stored(self@);
        }
        let record_header = match self.find_record_header() {
            Progress::NeedBytes(needed) => return Progress::NeedBytes(needed),
            Progress::Ready(None) => {
                self.input_ended = false;
                return Progress::Ready(None);
            },
            Progress::Ready(Some(header)) => header,
        };
        let record_size: u32 = record_header.total_size;
        let body_size: usize = record_size as usize - JitDumpRecordHeader::SIZE;
        match self.reader.consume_data(body_size) {
            Some(body) => {
                let start_offset: u64 = self.current_record_start_offset;
                self.pending_record_header = None;
                self.current_record_start_offset = start_offset + record_size as u64;
                self.input_ended = false;
                Progress::Ready(
                    Some(
                        JitDumpRawRecord {
                            endian: self.endian,
                            start_offset,
                            record_size,
                            record_type: record_header.record_type,
                            timestamp: record_header.timestamp,
                            body,
                        },
                    ),
                )
            },
            None => if self.input_ended {
                self.input_ended = false;
                Progress::Ready(None)
            } else {
                Progress::NeedBytes(body_size as u64)
            },
        }
    }

    /// Returns the next record, as `next_record` does, from a file whose record sizes cannot be
    /// relied on. A record whose size does not cover its header remains the next record.
    pub fn next_record_checked(&mut self) -> (result: Result<
        Progress<Option<JitDumpRawRecord<'_>>>,
        RecordSizeTooSmall,
    >)
        requires
            old(self)@.valid(),
        ensures
            final(self)@.valid(),
            match result {
                Ok(progress) => {
                    &&& old(self)@.next_size_covers_header()
                    &&& (record_progress(progress), final(self)@) == old(self)@.next_record()
                },
                Err(RecordSizeTooSmall(size)) => {
                    &&& old(self)@.next_record_header() == (
                        Progress::Ready(final(self)@.pending),
                        final(self)@,
                    )
                    &&& final(self)@.pending matches Some(header) && header.total_size == size
                    &&& size < header_size()
                },
            },
            result is Err <==> !old(self)@.next_size_covers_header(),
    {
        match self.find_record_header() {
            Progress::NeedBytes(needed) => Ok(Progress::NeedBytes(needed)),
            Progress::Ready(None) => {
                self.input_ended = false;
                Ok(Progress::Ready(None))
            },
            Progress::Ready(Some(header)) => {
                if (header.total_size as usize) < JitDumpRecordHeader::SIZE {
                    self.input_ended = false;
                    return Err(RecordSizeTooSmall(header.total_size));
                }
                Ok(self.next_record())
            },
        }
    }

    /// Skips the next record. If this returns `true`, the record has been skipped. If it returns
    /// `false`, the input ends before the header of the record does.
    ///
    /// A record of which only a part has arrived need not be read: the answer is then a request
    /// to move the stream forward, and `finish_skip` takes what came of it.
    ///
    /// This saves having to read a record of a type that is of no interest.
    pub fn skip_next_record(&mut self) -> (progress: SkipProgress)
        requires
            old(self)@.valid(),
            old(self)@.next_size_covers_header(),
        ensures
            final(self)@.valid(),
            (progress, final(self)@) == old(self)@.skip_next_record(),
    {
        let record_header = match self.find_record_header() {
            Progress::NeedBytes(needed) => return SkipProgress::NeedBytes(needed),
            Progress::Ready(None) => {
                self.input_ended = false;
                return SkipProgress::Ready(false);
            },
            Progress::Ready(Some(header)) => header,
        };
        let record_size: u32 = record_header.total_size;
        let body_size: usize = record_size as usize - JitDumpRecordHeader::SIZE;
        let available: usize = self.reader.available();
        if available < body_size {
            return SkipProgress::SeekForward((body_size - available) as u64);
        }
        self.reader.advance(body_size);
        self.pending_record_header = None;
        self.current_record_start_offset = self.current_record_start_offset + record_size as u64;
        self.input_ended = false;
        SkipProgress::Ready(true)
    }

    /// Skips the next record, as `skip_next_record` does, in a file whose record sizes cannot be
    /// relied on. A record whose size does not cover its header remains the next record.
    pub fn skip_next_record_checked(&mut self) -> (result: Result<SkipProgress, RecordSizeTooSmall>)
        requires
            old(self)@.valid(),
        ensures
            final(self)@.valid(),
            match result {
                Ok(progress) => {
                    &&& old(self)@.next_size_covers_header()
                    &&& (progress, final(self)@) == old(self)@.skip_next_record()
                },
                Err(RecordSizeTooSmall(size)) => {
                    &&& old(self)@.next_record_header() == (
                        Progress::Ready(final(self)@.pending),
                        final(self)@,
                    )
                    &&& final(self)@.pending matches Some(header) && header.total_size == size
                    &&& size < header_size()
                },
            },
            result is Err <==> !old(self)@.next_size_covers_header(),
    {
        match self.find_record_header() {
            Progress::NeedBytes(needed) => Ok(SkipProgress::NeedBytes(needed)),
            Progress::Ready(None) => {
                self.input_ended = false;
                Ok(SkipProgress::Ready(false))
            },
            Progress::Ready(Some(header)) => {
                if (header.total_size as usize) < JitDumpRecordHeader::SIZE {
                    self.input_ended = false;
                    return Err(RecordSizeTooSmall(header.total_size));
                }
                Ok(self.skip_next_record())
            },
        }
    }

    /// Takes the answer to a request of `skip_next_record` to move the stream forward: whether
    /// the stream was long enough and has been moved. Returns whether the record was skipped. If
    /// not, the next record remains unchanged.
    pub fn finish_skip(&mut self, seeked: bool) -> (skipped: bool)
        requires
            old(self)@.valid(),
            old(self)@.body_incomplete(),
            seeked ==> old(self)@.next_offset + old(self)@.pending->0.total_size <= u64::MAX,
        ensures
            final(self)@.valid(),
            skipped == seeked,
            final(self)@ == old(self)@.finish_skip(seeked),
    {
        self.input_ended = false;
        if !seeked {
            return false;
        }
        match self.pending_record_header {
            Some(header) => {
                self.reader.consume_all();
                self.pending_record_header = None;
                self.current_record_start_offset = self.current_record_start_offset
                    + header.total_size as u64;
                true
            },
            None => false,
        }
    }

    /// Whether position `byte_offset` of the unread bytes is taken for the start of a record: the
    /// bytes there have to be a known header, and so do the bytes behind the record that it
    /// announces, unless the input ends there. Bytes that are asked for are counted from
    /// `byte_offset`. Nothing is consumed.
    pub fn peek_chain_valid_header_at(&self, byte_offset: usize) -> (verdict: Progress<bool>)
        ensures
            verdict == chain_verdict(
                self@.endian,
                self@.unread,
                byte_offset as int,
                self@.ended,
            ),
            verdict == Progress::Ready(true) <==> is_record_start(
                self@.endian,
                self@.unread,
                byte_offset as int,
                self@.ended,
            ) || (self@.ended && self@.unread.len() < byte_offset + 16),
            verdict == Progress::Ready(false) <==> is_no_record_start(
                self@.endian,
                self@.unread,
                byte_offset as int,
                self@.ended,
            ),
    {
        proof {
            law_chained_check(self@.endian, self@.unread, byte_offset as int, self@.ended);
        }
        let endian = self.endian;
        let unread = self.reader.peek_all();
        let size: usize = JitDumpRecordHeader::SIZE;
        if unread.len() < byte_offset || unread.len() - byte_offset < size {
            // The end of the file in the middle of a header is a clean end.
            return if self.input_ended {
                Progress::Ready(true)
            } else {
                Progress::NeedBytes(size as u64)
            };
        }
        let candidate_bytes = slice_subrange(unread, byte_offset, byte_offset + size);
        proof {
            lemma_header_in_subrange(
                endian,
                unread@,
                byte_offset as int,
                byte_offset + size,
                0,
            );
        }
        if !is_known_record_header(endian, candidate_bytes) {
            return Progress::Ready(false);
        }
        let candidate = match JitDumpRecordHeader::parse(endian, candidate_bytes) {
            Ok(candidate) => candidate,
            Err(_) => return Progress::Ready(false),
        };
        let remaining: u64 = (unread.len() - byte_offset) as u64;
        let chained_end: u64 = candidate.total_size as u64 + size as u64;
        if remaining < chained_end {
            // The chain reaches past what has arrived. At the end of the file, the candidate is
            // accepted if its record ends exactly there.
            return if self.input_ended {
                Progress::Ready(remaining == candidate.total_size as u64)
            } else {
                Progress::NeedBytes(chained_end)
            };
        }
        let chained_start: usize = byte_offset + candidate.total_size as usize;
        let chained_bytes = slice_subrange(unread, chained_start, chained_start + size);
        proof {
            lemma_header_in_subrange(
                endian,
                unread@,
                chained_start as int,
                chained_start + size,
                0,
            );
        }
        Progress::Ready(is_known_record_header(endian, chained_bytes))
    }

    /// Whether the read position is taken for the start of a record.
    fn peek_next_header_is_plausible(&self) -> (verdict: Progress<bool>)
        ensures
            verdict == chain_verdict(self@.endian, self@.unread, 0, self@.ended),
    {
        self.peek_chain_valid_header_at(0)
    }

    /// Moves the read position forward, byte by byte, to the next position that is not turned
    /// down as the start of a record. The position where it starts has been turned down already.
    fn resync_to_next_valid_header(&mut self) -> (progress: Progress<()>)
        requires
            old(self)@.valid(),
            old(self)@.pending is None,
            chain_verdict(old(self)@.endian, old(self)@.unread, 0, old(self)@.ended)
                == Progress::Ready(false),
        ensures
            final(self)@.valid(),
            ({
                let before = old(self)@;
                let n = resync_point(before.endian, before.unread, 0, before.ended);
                &&& final(self)@ == before.skipping(n)
                &&& match chain_verdict(before.endian, before.unread, n, before.ended) {
                    Progress::NeedBytes(needed) => progress == Progress::<()>::NeedBytes(needed),
                    Progress::Ready(_) => progress == Progress::Ready(()),
                }
            }),
    {
        let ghost before = self@;
        let ghost mut n: int = 0;
        let progress: Progress<()>;
        assert(scan_goes_on(before, 0)) by {
            reveal(scan_goes_on);
        }
        loop
            invariant_except_break
                before.valid(),
                before.pending is None,
                scan_goes_on(before, n),
                self@ == before.skipping(n),
            ensures
                self@ == before.skipping(n),
                scan_stops(before, n, progress),
            decreases before.unread.len() - n,
        {
            proof {
                lemma_scan_step(before, n);
                n = n + 1;
            }
            self.reader.advance(1);
            self.current_record_start_offset = self.current_record_start_offset + 1;
            match self.peek_chain_valid_header_at(0) {
                Progress::NeedBytes(needed) => {
                    progress = Progress::NeedBytes(needed);
                    break;
                },
                Progress::Ready(true) => {
                    progress = Progress::Ready(());
                    break;
                },
                Progress::Ready(false) => {},
            }
        }
        proof {
            reveal(scan_stops);
            law_resync_point_is_first(before.endian, before.unread, 0, before.ended);
        }
        progress
    }

    /// Finds the header of the next record.
    fn find_record_header(&mut self) -> (progress: Progress<Option<JitDumpRecordHeader>>)
        requires
            old(self)@.valid(),
        ensures
            final(self)@.valid(),
            (progress, final(self)@) == old(self)@.find_header(),
    {
        if self.pending_record_header.is_some() {
            return Progress::Ready(self.pending_record_header);
        }
        if self.recover_from_corruption {
            // Only commit to the bytes at the read position if they are taken for a header.
            // Otherwise, scan forward for a position that is, before anything is consumed.
            match self.peek_next_header_is_plausible() {
                Progress::NeedBytes(needed) => return Progress::NeedBytes(needed),
                Progress::Ready(true) => {},
                Progress::Ready(false) => match self.resync_to_next_valid_header() {
                    Progress::NeedBytes(needed) => return Progress::NeedBytes(needed),
                    Progress::Ready(_) => {},
                },
            }
        }
        let endian = self.endian;
        match self.reader.consume_data(JitDumpRecordHeader::SIZE) {
            Some(record_header_bytes) => {
                match JitDumpRecordHeader::parse(endian, record_header_bytes) {
                    Ok(header) => {
                        self.pending_record_header = Some(header);
                    },
                    Err(_) => {},
                }
                Progress::Ready(self.pending_record_header)
            },
            None => if self.input_ended {
                Progress::Ready(None)
            } else {
                Progress::NeedBytes(JitDumpRecordHeader::SIZE as u64)
            },
        }
    }
}

/// The scan from the read position of `state` reaches position `n`, which is turned down too.
#[verifier::opaque]
spec fn scan_goes_on(state: ReaderState, n: int) -> bool {
    &&& 0 <= n
    &&& chain_verdict(state.endian, state.unread, n, state.ended) == Progress::Ready(false)
    &&& resync_point(state.endian, state.unread, 0, state.ended) == resync_point(
        state.endian,
        state.unread,
        n,
        state.ended,
    )
}

/// The scan from the read position of `state` stops at position `n` with this outcome.
#[verifier::opaque]
spec fn scan_stops(state: ReaderState, n: int, progress: Progress<()>) -> bool {
    &&& resync_point(state.endian, state.unread, 0, state.ended) == n
    &&& match chain_verdict(state.endian, state.unread, n, state.ended) {
        Progress::NeedBytes(needed) => progress == Progress::<()>::NeedBytes(needed),
        Progress::Ready(_) => progress == Progress::Ready(()),
    }
}

/// What the next position is for the scan follows from whether it is turned down.
proof fn lemma_scan_step(state: ReaderState, n: int)
    requires
        scan_goes_on(state, n),
    ensures
        0 <= n,
        n + header_size() <= state.unread.len(),
        state.skipping(n).unread.skip(1) == state.unread.skip(n + 1),
        match chain_verdict(state.endian, state.unread.skip(n + 1), 0, state.ended) {
            Progress::NeedBytes(needed) => scan_stops(
                state,
                n + 1,
                Progress::<()>::NeedBytes(needed),
            ),
            Progress::Ready(true) => scan_stops(state, n + 1, Progress::Ready(())),
            Progress::Ready(false) => scan_goes_on(state, n + 1),
        },
{
    reveal(scan_goes_on);
    reveal(scan_stops);
    law_verdict_ignores_what_comes_before(state.endian, state.unread, n + 1, 0, state.ended);
    assert(state.unread.skip(n).skip(1) =~= state.unread.skip(n + 1));
    let next = chain_verdict(state.endian, state.unread, n + 1, state.ended);
    if next == Progress::Ready(false) {
        assert(resync_point(state.endian, state.unread, n, state.ended) == resync_point(
            state.endian,
            state.unread,
            n + 1,
            state.ended,
        ));
    } else {
        assert(resync_point(state.endian, state.unread, n + 1, state.ended) == n + 1);
    }
}

} // verus!
