//! What reading gives, over the bytes of the stream.

use crate::bytes::{u32_at, u64_at, Endianness};
use crate::laws::{law_recovered_header_is_known, law_resync_point_is_first};
use crate::model::{
    chain_verdict, known_header_at, resync_point, Progress, ReaderState, SkipProgress,
};
use crate::record::{record_header_at, JitDumpRecordHeader, JitDumpRecordType, RecordView};
use crate::stored::{
    law_stored_u32_is_decoded, law_stored_u64_is_decoded, lemma_part_lies_at,
    lemma_record_header_parts, lies_at, stored_record_header, stored_u32, stored_u64,
};
use vstd::prelude::*;

verus! {

/// A record header is decoded to the type, size and timestamp that were stored.
pub proof fn law_stored_header_is_decoded(
    endian: Endianness,
    s: Seq<u8>,
    i: int,
    record_type: u32,
    total_size: u32,
    timestamp: u64,
)
    requires
        lies_at(s, i, stored_record_header(endian, record_type, total_size, timestamp)),
    ensures
        record_header_at(endian, s, i) == (JitDumpRecordHeader {
            record_type: JitDumpRecordType(record_type),
            total_size,
            timestamp,
        }),
{
    let bytes = stored_record_header(endian, record_type, total_size, timestamp);
    lemma_record_header_parts(endian, record_type, total_size, timestamp);
    lemma_part_lies_at(s, i, bytes, 0, stored_u32(endian, record_type));
    lemma_part_lies_at(s, i, bytes, 4, stored_u32(endian, total_size));
    lemma_part_lies_at(s, i, bytes, 8, stored_u64(endian, timestamp));
    law_stored_u32_is_decoded(endian, s, i, record_type);
    law_stored_u32_is_decoded(endian, s, i + 4, total_size);
    law_stored_u64_is_decoded(endian, s, i + 8, timestamp);
}

/// The bytes of `s` from `i` on announce a record of one of the five types of the format, of at
/// least the size of a header.
pub open spec fn announces_record(endian: Endianness, s: Seq<u8>, i: int) -> bool {
    &&& u32_at(endian, s, i) <= 4
    &&& u32_at(endian, s, i + 4) >= 16
}

/// Position `i` of `s` is the start of a record, as far as can be told: a record is announced
/// there, and either another one is announced right behind it, or the input ends right behind it.
pub open spec fn is_record_start(endian: Endianness, s: Seq<u8>, i: int, ended: bool) -> bool {
    let end = i + u32_at(endian, s, i + 4);
    &&& i + 16 <= s.len()
    &&& announces_record(endian, s, i)
    &&& (end + 16 <= s.len() && announces_record(endian, s, end)) || (ended && end == s.len())
}

/// Position `i` of `s` cannot be the start of a record: no record is announced there, or the one
/// that is announced is followed by something else than a record or the end of the input.
pub open spec fn is_no_record_start(endian: Endianness, s: Seq<u8>, i: int, ended: bool) -> bool {
    let end = i + u32_at(endian, s, i + 4);
    &&& i + 16 <= s.len()
    &&& {
        ||| !announces_record(endian, s, i)
        ||| end + 16 <= s.len() && !announces_record(endian, s, end)
        ||| ended && end + 16 > s.len() && end != s.len()
    }
}

/// A header is known if and only if it announces a record.
pub proof fn law_known_header_announces_record(endian: Endianness, s: Seq<u8>, i: int)
    ensures
        known_header_at(endian, s, i) <==> announces_record(endian, s, i),
{
}

/// What the chained check answers, over the bytes: it takes the starts of records, of whatever
/// type, and the end of the file, turns down what cannot be the start of a record, and asks for
/// exactly the bytes that it has to see.
pub proof fn law_chained_check(endian: Endianness, s: Seq<u8>, i: int, ended: bool)
    requires
        0 <= i,
    ensures
        chain_verdict(endian, s, i, ended) == Progress::Ready(true) <==> is_record_start(
            endian,
            s,
            i,
            ended,
        ) || (ended && s.len() < i + 16),
        chain_verdict(endian, s, i, ended) == Progress::Ready(false) <==> is_no_record_start(
            endian,
            s,
            i,
            ended,
        ),
        !ended && s.len() < i + 16 ==> chain_verdict(endian, s, i, ended)
            == Progress::<bool>::NeedBytes(16),
        !ended && i + 16 <= s.len() && announces_record(endian, s, i) && s.len() < i + u32_at(
            endian,
            s,
            i + 4,
        ) + 16 ==> chain_verdict(endian, s, i, ended) == Progress::<bool>::NeedBytes(
            (u32_at(endian, s, i + 4) + 16) as u64,
        ),
{
}

/// The bytes of `s` from `n` on store this header.
pub open spec fn is_header_at(
    header: JitDumpRecordHeader,
    endian: Endianness,
    s: Seq<u8>,
    n: int,
) -> bool {
    &&& header.record_type.0 == u32_at(endian, s, n)
    &&& header.total_size == u32_at(endian, s, n + 4)
    &&& header.timestamp == u64_at(endian, s, n + 8)
}

/// What is left once the header at position `n` has been found.
pub open spec fn is_left_behind_header(
    state: ReaderState,
    n: int,
    header: JitDumpRecordHeader,
    left: ReaderState,
) -> bool {
    &&& left.pending == Some(header)
    &&& left.next_offset == state.next_offset + n
    &&& left.unread == state.unread.skip(n + 16)
    &&& left.header == state.header
    &&& left.endian == state.endian
    &&& left.recover == state.recover
    &&& left.owed == state.owed
    &&& !left.ended
}

/// Without recovery, the next header is the one at the read position, whatever it is, once its
/// sixteen bytes have arrived.
pub proof fn law_next_header_without_recovery(state: ReaderState)
    requires
        !state.recover,
        state.pending is None,
    ensures
        state.unread.len() >= 16 ==> {
            &&& state.next_record_header().0 matches Progress::Ready(Some(header))
            &&& is_header_at(header, state.endian, state.unread, 0)
            &&& is_left_behind_header(state, 0, header, state.next_record_header().1)
        },
        state.unread.len() < 16 && state.ended ==> state.next_record_header() == (
            Progress::<Option<JitDumpRecordHeader>>::Ready(None),
            state.with_ended(false),
        ),
        state.unread.len() < 16 && !state.ended ==> state.next_record_header() == (
            Progress::<Option<JitDumpRecordHeader>>::NeedBytes(16),
            state,
        ),
{
}

/// With recovery, the next header is the one at the first start of a record, and everything before
/// it cannot be the start of a record.
pub proof fn law_next_header_with_recovery(state: ReaderState)
    requires
        state.valid(),
        state.recover,
        state.pending is None,
    ensures
        state.next_record_header().0 matches Progress::Ready(Some(header)) ==> {
            let left = state.next_record_header().1;
            let n = left.next_offset - state.next_offset;
            &&& 0 <= n
            &&& is_record_start(state.endian, state.unread, n, state.ended)
            &&& is_header_at(header, state.endian, state.unread, n)
            &&& is_left_behind_header(state, n, header, left)
            &&& forall|j: int|
                0 <= j < n ==> #[trigger] is_no_record_start(
                    state.endian,
                    state.unread,
                    j,
                    state.ended,
                )
        },
        state.next_record_header().0 == Progress::<Option<JitDumpRecordHeader>>::Ready(None)
            ==> state.ended && forall|j: int|
            0 <= j && j + 16 <= state.unread.len() ==> #[trigger] is_no_record_start(
                state.endian,
                state.unread,
                j,
                true,
            ),
        state.next_record_header().0 == Progress::<Option<JitDumpRecordHeader>>::Ready(None)
            ==> state.next_record_header().1.next_offset == state.next_offset + (
        if state.unread.len() < 16 {
            0
        } else {
            state.unread.len() - 15
        }),
        state.next_record_header().0 matches Progress::NeedBytes(needed) ==> {
            let left = state.next_record_header().1;
            let n = left.next_offset - state.next_offset;
            &&& !state.ended
            &&& 0 <= n <= state.unread.len()
            &&& if state.unread.len() < n + 16 {
                needed == 16
            } else {
                &&& announces_record(state.endian, state.unread, n)
                &&& needed == u32_at(state.endian, state.unread, n + 4) + 16
                &&& needed > state.unread.len() - n
            }
            &&& forall|j: int|
                0 <= j < n ==> #[trigger] is_no_record_start(
                    state.endian,
                    state.unread,
                    j,
                    state.ended,
                )
        },
        !(state.next_record_header().0 matches Progress::Ready(Some(_))) ==> {
            let left = state.next_record_header().1;
            let n = left.next_offset - state.next_offset;
            left == (ReaderState {
                next_offset: state.next_offset + n,
                unread: state.unread.skip(n),
                ended: false,
                ..state
            })
        },
{
    let n = resync_point(state.endian, state.unread, 0, state.ended);
    law_resync_point_is_first(state.endian, state.unread, 0, state.ended);
    law_chained_check(state.endian, state.unread, n, state.ended);
    assert forall|j: int| 0 <= j < n implies #[trigger] is_no_record_start(
        state.endian,
        state.unread,
        j,
        state.ended,
    ) by {
        law_chained_check(state.endian, state.unread, j, state.ended);
        assert(chain_verdict(state.endian, state.unread, j, state.ended) == Progress::Ready(false));
    }
    law_recovered_header_is_known(state);
    if n > 0 {
        assert(is_no_record_start(state.endian, state.unread, n - 1, state.ended));
    }
    if state.unread.len() >= n + 16 {
        assert(state.unread.skip(n).skip(16) =~= state.unread.skip(n + 16));
    }
}

/// With recovery, a start of a record that lies behind nothing but what cannot be the start of a
/// record is found.
pub proof fn law_record_start_is_found(state: ReaderState, n: int)
    requires
        state.valid(),
        state.recover,
        state.pending is None,
        0 <= n,
        is_record_start(state.endian, state.unread, n, state.ended),
        forall|j: int|
            0 <= j < n ==> #[trigger] is_no_record_start(
                state.endian,
                state.unread,
                j,
                state.ended,
            ),
    ensures
        state.next_record_header().0 matches Progress::Ready(Some(_)),
        state.next_record_header().1.next_offset == state.next_offset + n,
{
    let m = resync_point(state.endian, state.unread, 0, state.ended);
    law_resync_point_is_first(state.endian, state.unread, 0, state.ended);
    law_chained_check(state.endian, state.unread, m, state.ended);
    law_chained_check(state.endian, state.unread, n, state.ended);
    if m < n {
        assert(is_no_record_start(state.endian, state.unread, m, state.ended));
    }
    if n < m {
        assert(chain_verdict(state.endian, state.unread, n, state.ended) == Progress::Ready(false));
    }
}

/// The header of the next record is the one that is then pending, and the record that follows has
/// its type, size and timestamp, whether it is read at once, or later, when more has arrived.
pub proof fn law_header_is_that_of_the_record(state: ReaderState, more: Seq<u8>, ended: bool)
    requires
        state.next_record_header().0 matches Progress::Ready(Some(_)),
    ensures
        ({
            let header = state.next_record_header().0->Ready_0->0;
            let found = state.next_record_header().1;
            let later = found.supplied(more).with_ended(ended).next_record();
            &&& found.pending == Some(header)
            &&& state.next_record().0 matches Progress::Ready(Some(record)) ==> {
                &&& record.record_type == header.record_type
                &&& record.record_size == header.total_size
                &&& record.timestamp == header.timestamp
                &&& record.start_offset == found.next_offset
            }
            &&& later.0 matches Progress::Ready(Some(record)) ==> {
                &&& record.record_type == header.record_type
                &&& record.record_size == header.total_size
                &&& record.timestamp == header.timestamp
                &&& record.start_offset == found.next_offset
            }
        }),
{
}

/// The record that `next_record` gives lies in the unread bytes at position `n`: its type, size and
/// timestamp are the integers in its first sixteen bytes, and its body is all the rest of it.
pub open spec fn is_record_at(record: RecordView, state: ReaderState, n: int) -> bool {
    &&& 0 <= n
    &&& 16 <= record.record_size
    &&& n + record.record_size <= state.unread.len()
    &&& record.endian == state.endian
    &&& record.start_offset == state.next_offset + n
    &&& record.record_type.0 == u32_at(state.endian, state.unread, n)
    &&& record.record_size == u32_at(state.endian, state.unread, n + 4)
    &&& record.timestamp == u64_at(state.endian, state.unread, n + 8)
    &&& record.body == state.unread.subrange(n + 16, n + record.record_size)
}

/// The state in which the first `n` unread bytes have been handed out.
pub open spec fn behind(state: ReaderState, n: int) -> ReaderState {
    ReaderState {
        pending: None,
        next_offset: state.next_offset + n,
        unread: state.unread.skip(n),
        ended: false,
        ..state
    }
}

/// Every record that is read lies in the stream as it is given, and everything up to its end, and
/// nothing else, has been handed out. Without recovery, it lies at the read position; with
/// recovery, at the first start of a record.
pub proof fn law_record_is_read_as_stored(state: ReaderState)
    requires
        state.valid(),
        state.pending is None,
        state.next_size_covers_header(),
    ensures
        state.next_record().0 matches Progress::Ready(Some(record)) ==> {
            let n = record.start_offset - state.next_offset;
            &&& is_record_at(record, state, n)
            &&& state.next_record().1 == behind(state, n + record.record_size)
            &&& !state.recover ==> n == 0
            &&& state.recover ==> is_record_start(state.endian, state.unread, n, state.ended)
            &&& state.recover ==> forall|j: int|
                0 <= j < n ==> #[trigger] is_no_record_start(
                    state.endian,
                    state.unread,
                    j,
                    state.ended,
                )
        },
{
    if state.recover {
        law_next_header_with_recovery(state);
    } else {
        law_next_header_without_recovery(state);
    }
    if state.next_record().0 matches Progress::Ready(Some(_)) {
        let record = state.next_record().0->Ready_0->0;
        let n = record.start_offset - state.next_offset;
        let found = state.find_header().1;
        lemma_body_in_stream(state.unread, n, record.record_size as int);
        assert(found.unread == state.unread.skip(n + 16));
        assert(state.next_record().1 =~= behind(state, n + record.record_size));
    }
}

/// Where the body of a record of `size` bytes lies that starts at `n`.
proof fn lemma_body_in_stream(s: Seq<u8>, n: int, size: int)
    requires
        0 <= n,
        16 <= size,
        n + 16 <= s.len(),
    ensures
        n + size <= s.len() ==> s.skip(n + 16).take(size - 16) == s.subrange(n + 16, n + size),
        n + size <= s.len() ==> s.skip(n + 16).skip(size - 16) == s.skip(n + size),
{
    if n + size <= s.len() {
        assert(s.skip(n + 16).take(size - 16) =~= s.subrange(n + 16, n + size));
        assert(s.skip(n + 16).skip(size - 16) =~= s.skip(n + size));
    }
}

/// Without recovery, the next record is read exactly when all of it has arrived. Otherwise its
/// header is kept, if that has arrived, and the rest of the record is asked for, or found missing.
pub proof fn law_next_record_without_recovery(state: ReaderState)
    requires
        state.valid(),
        !state.recover,
        state.pending is None,
        state.unread.len() >= 16 ==> u32_at(state.endian, state.unread, 4) >= 16,
    ensures
        state.next_size_covers_header(),
        state.unread.len() < 16 ==> state.next_record() == if state.ended {
            (Progress::<Option<RecordView>>::Ready(None), state.with_ended(false))
        } else {
            (Progress::<Option<RecordView>>::NeedBytes(16), state)
        },
        state.unread.len() >= 16 ==> {
            let size = u32_at(state.endian, state.unread, 4);
            let (progress, left) = state.next_record();
            if state.unread.len() >= size {
                &&& progress matches Progress::Ready(Some(record))
                &&& is_record_at(record, state, 0)
                &&& left == behind(state, size as int)
            } else {
                &&& progress == if state.ended {
                    Progress::<Option<RecordView>>::Ready(None)
                } else {
                    Progress::<Option<RecordView>>::NeedBytes((size - 16) as u64)
                }
                &&& left.pending matches Some(header)
                &&& is_header_at(header, state.endian, state.unread, 0)
                &&& is_left_behind_header(state, 0, header, left)
            }
        },
{
    law_next_header_without_recovery(state);
    if state.unread.len() >= 16 {
        law_record_is_read_as_stored(state);
    }
}

/// With recovery, a start of a record behind nothing but what cannot be one gives a record, if no
/// header is pending: with it, all of the record has arrived.
pub proof fn law_record_start_is_read(state: ReaderState, n: int)
    requires
        state.valid(),
        state.recover,
        state.pending is None,
        0 <= n,
        is_record_start(state.endian, state.unread, n, state.ended),
        forall|j: int|
            0 <= j < n ==> #[trigger] is_no_record_start(
                state.endian,
                state.unread,
                j,
                state.ended,
            ),
    ensures
        state.next_record().0 matches Progress::Ready(Some(record)) && is_record_at(
            record,
            state,
            n,
        ),
        state.next_record().1 == behind(
            state,
            n + u32_at(state.endian, state.unread, n + 4),
        ),
{
    law_record_start_is_found(state, n);
    law_next_header_with_recovery(state);
    law_recovered_header_is_known(state);
    law_record_is_read_as_stored(state);
}

/// The record whose header is pending is read exactly when its body has arrived: with the type,
/// size and timestamp of the header, from the offset of the header, and with the unread bytes as
/// its body. Until then it stays pending.
pub proof fn law_pending_record(state: ReaderState, header: JitDumpRecordHeader)
    requires
        state.pending == Some(header),
        header.total_size >= 16,
    ensures
        state.next_record() == if state.unread.len() >= header.total_size - 16 {
            (
                Progress::Ready(
                    Some(
                        RecordView {
                            endian: state.endian,
                            start_offset: state.next_offset,
                            record_size: header.total_size,
                            record_type: header.record_type,
                            timestamp: header.timestamp,
                            body: state.unread.take(header.total_size - 16),
                        },
                    ),
                ),
                ReaderState {
                    pending: None,
                    next_offset: state.next_offset + header.total_size,
                    unread: state.unread.skip(header.total_size - 16),
                    ended: false,
                    ..state
                },
            )
        } else if state.ended {
            (Progress::<Option<RecordView>>::Ready(None), state.with_ended(false))
        } else {
            (
                Progress::<Option<RecordView>>::NeedBytes((header.total_size - 16) as u64),
                state,
            )
        },
        state.next_record_header() == (Progress::Ready(Some(header)), state.with_ended(false)),
        state.unread.len() < header.total_size - 16 ==> state.skip_next_record() == (
            SkipProgress::SeekForward((header.total_size - 16 - state.unread.len()) as u64),
            state,
        ),
        state.unread.len() < header.total_size - 16 ==> state.finish_skip(true) == (ReaderState {
            pending: None,
            next_offset: state.next_offset + header.total_size,
            unread: Seq::empty(),
            ended: false,
            ..state
        }),
        state.finish_skip(false) == state.with_ended(false),
{
}

/// Reading and skipping go by the next header. Where there is none, there is no record either, and
/// where bytes are missing for it, they are missing for the record. Where there is one, the record
/// that is read or skipped is the one whose header is then pending.
pub proof fn law_record_goes_by_its_header(state: ReaderState)
    ensures
        match state.next_record_header() {
            (Progress::NeedBytes(needed), left) => {
                &&& state.next_record() == (Progress::<Option<RecordView>>::NeedBytes(needed), left)
                &&& state.skip_next_record() == (SkipProgress::NeedBytes(needed), left)
            },
            (Progress::Ready(None), left) => {
                &&& state.next_record() == (Progress::<Option<RecordView>>::Ready(None), left)
                &&& state.skip_next_record() == (SkipProgress::Ready(false), left)
            },
            (Progress::Ready(Some(_)), found) => {
                let found = found.with_ended(state.ended);
                &&& state.next_record() == found.next_record()
                &&& state.skip_next_record() == found.skip_next_record()
            },
        },
{
    let found = state.find_header().1;
    assert(found.with_ended(false).with_ended(state.ended) =~= found);
}

/// A skip asks for the stream to be moved exactly when part of the body of the record is missing,
/// and then by as many bytes as are missing.
pub proof fn law_when_a_skip_moves_the_stream(state: ReaderState)
    requires
        state.next_size_covers_header(),
    ensures
        state.body_incomplete() <==> (state.pending matches Some(header) && state.unread.len() + 16
            < header.total_size),
        state.skip_next_record() matches (SkipProgress::SeekForward(distance), left) ==> {
            &&& left.body_incomplete()
            &&& left.pending matches Some(header)
            &&& left.end_offset() + distance == left.next_offset + header.total_size
        },
        !(state.skip_next_record().0 is SeekForward) ==> state.skip_next_record().1.pending is None,
{
}

/// All that has arrived ends as many bytes behind the read position as are unread.
pub proof fn law_end_offset(state: ReaderState)
    ensures
        state.end_offset() == read_offset(state) + state.unread.len(),
{
}

/// The bytes of the stream are accounted for: a call takes bytes from the front of the unread ones,
/// and the offset of the next record, with its header if that is pending, moves by as much. What
/// the reader was opened with does not change.
pub proof fn law_bytes_are_accounted_for(state: ReaderState)
    requires
        state.valid(),
        state.next_size_covers_header(),
    ensures
        follows(state, state.next_record_header().1),
        follows(state, state.next_record().1),
        follows(state, state.skip_next_record().1),
{
    let found = state.find_header().1;
    lemma_find_header_follows(state);
    if state.find_header().0 matches Progress::Ready(Some(_)) {
        lemma_record_follows(found);
        lemma_follows_again(state, found, found.take_record().1);
        lemma_follows_again(state, found, found.skip_record().1);
    }
}

/// What is left of what is left is left.
proof fn lemma_follows_again(first: ReaderState, second: ReaderState, third: ReaderState)
    requires
        follows(first, second),
        follows(second, third),
    ensures
        follows(first, third),
{
    let n = read_offset(second) - read_offset(first);
    let m = read_offset(third) - read_offset(second);
    assert(first.unread.skip(n).skip(m) =~= first.unread.skip(n + m));
}

/// To find a header takes bytes from the front.
proof fn lemma_find_header_follows(state: ReaderState)
    requires
        state.valid(),
    ensures
        follows(state, state.find_header().1),
        state.find_header().0 matches Progress::Ready(header) ==> header
            == state.find_header().1.pending,
{
    assert(state.unread.skip(0) =~= state.unread);
    if state.pending is None {
        let n = if state.recover {
            resync_point(state.endian, state.unread, 0, state.ended)
        } else {
            0
        };
        law_resync_point_is_first(state.endian, state.unread, 0, state.ended);
        assert(state.skipping(0) =~= state);
        let there = state.skipping(n);
        lemma_take_header_follows(there);
        lemma_follows_again(state, there, there.take_header().1);
    }
}

/// To take the header at the read position takes bytes from the front.
proof fn lemma_take_header_follows(state: ReaderState)
    requires
        state.pending is None,
    ensures
        follows(state, state.take_header().1),
        state.take_header().0 matches Progress::Ready(header) ==> header
            == state.take_header().1.pending,
{
    assert(state.unread.skip(0) =~= state.unread);
}

/// To take or skip a record takes bytes from the front.
proof fn lemma_record_follows(state: ReaderState)
    requires
        state.pending matches Some(header) && header.total_size >= 16,
    ensures
        follows(state, state.take_record().1),
        follows(state, state.skip_record().1),
{
    assert(state.unread.skip(0) =~= state.unread);
}

/// The position in the file of the first unread byte.
pub open spec fn read_offset(state: ReaderState) -> int {
    state.next_offset + if state.pending is Some {
        16int
    } else {
        0
    }
}

/// `left` is what is left of `state` when some of the unread bytes have been taken.
pub open spec fn follows(state: ReaderState, left: ReaderState) -> bool {
    let taken = read_offset(left) - read_offset(state);
    &&& 0 <= taken <= state.unread.len()
    &&& left.unread == state.unread.skip(taken)
    &&& left.header == state.header
    &&& left.endian == state.endian
    &&& left.recover == state.recover
    &&& left.owed == state.owed
}

} // verus!
