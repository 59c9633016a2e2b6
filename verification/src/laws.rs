//! What holds of the reader as a whole.

use crate::bytes::Endianness;
use crate::error::JitDumpError;
use crate::header::JitDumpHeader;
use crate::jitdump_reader::{first_bytes, is_open_result, JitDumpReader};
use crate::model::{
    chain_verdict, header_size, is_known, known_header_at, lemma_header_in_subrange,
    resync_point, Progress, ReaderState, SkipProgress,
};
use crate::record::{record_header_at, JitDumpRecordHeader, RecordView};
use vstd::prelude::*;

verus! {

/// Bytes behind the end of `s` do not change what `s` stores.
proof fn lemma_header_in_prefix(endian: Endianness, s: Seq<u8>, more: Seq<u8>, i: int)
    requires
        0 <= i,
        i + header_size() <= s.len(),
    ensures
        record_header_at(endian, s + more, i) == record_header_at(endian, s, i),
{
}

/// A position that was judged before the input ended is judged in the same way ever after.
pub proof fn law_verdict_is_stable(
    endian: Endianness,
    s: Seq<u8>,
    more: Seq<u8>,
    i: int,
    ended: bool,
)
    requires
        0 <= i,
        chain_verdict(endian, s, i, false) is Ready,
    ensures
        chain_verdict(endian, s + more, i, ended) == chain_verdict(endian, s, i, false),
{
    lemma_header_in_prefix(endian, s, more, i);
    if known_header_at(endian, s, i) {
        lemma_header_in_prefix(endian, s, more, i + record_header_at(endian, s, i).total_size);
    }
}

/// Whether a position is taken for the start of a record does not depend on what comes before it:
/// a reader whose read position is `n` bytes further on judges the same position in the same way.
pub proof fn law_verdict_ignores_what_comes_before(
    endian: Endianness,
    s: Seq<u8>,
    n: int,
    i: int,
    ended: bool,
)
    requires
        0 <= n <= s.len(),
        0 <= i,
    ensures
        chain_verdict(endian, s.skip(n), i, ended) == chain_verdict(endian, s, n + i, ended),
{
}

/// The resync point is the first position from `i` on that is not turned down.
pub proof fn law_resync_point_is_first(endian: Endianness, s: Seq<u8>, i: int, ended: bool)
    requires
        0 <= i,
    ensures
        i <= resync_point(endian, s, i, ended),
        i <= s.len() ==> resync_point(endian, s, i, ended) <= s.len(),
        chain_verdict(endian, s, resync_point(endian, s, i, ended), ended) != Progress::Ready(
            false,
        ),
        forall|j: int|
            i <= j < resync_point(endian, s, i, ended) ==> #[trigger] chain_verdict(
                endian,
                s,
                j,
                ended,
            ) == Progress::Ready(false),
    decreases s.len() - i,
{
    if chain_verdict(endian, s, i, ended) == Progress::Ready(false) {
        law_resync_point_is_first(endian, s, i + 1, ended);
    }
}

/// A position with only turned down positions before it is where the scan arrives.
proof fn lemma_resync_point_from(endian: Endianness, s: Seq<u8>, i: int, n: int, ended: bool)
    requires
        0 <= i <= n,
        forall|j: int|
            i <= j < n ==> #[trigger] chain_verdict(endian, s, j, ended) == Progress::Ready(false),
    ensures
        resync_point(endian, s, i, ended) == resync_point(endian, s, n, ended),
    decreases n - i,
{
    if i < n {
        assert(chain_verdict(endian, s, i, ended) == Progress::Ready(false));
        lemma_resync_point_from(endian, s, i + 1, n, ended);
    }
}

/// A scan of a suffix arrives where the scan of the whole arrives.
proof fn lemma_resync_point_in_suffix(endian: Endianness, s: Seq<u8>, n: int, i: int, ended: bool)
    requires
        0 <= n <= s.len(),
        0 <= i,
    ensures
        n + resync_point(endian, s.skip(n), i, ended) == resync_point(endian, s, n + i, ended),
    decreases s.len() - n - i,
{
    law_verdict_ignores_what_comes_before(endian, s, n, i, ended);
    if chain_verdict(endian, s, n + i, ended) == Progress::Ready(false) {
        lemma_resync_point_in_suffix(endian, s, n, i + 1, ended);
    }
}

/// To hand bytes over in two pieces is to hand them over at once.
pub proof fn law_supplies_add_up(state: ReaderState, first: Seq<u8>, second: Seq<u8>)
    requires
        state.valid(),
    ensures
        state.supplied(first).supplied(second) == state.supplied(first + second),
{
    assert(state.supplied(first).supplied(second) =~= state.supplied(first + second));
}

/// Positions that were turned down before the input ended are turned down ever after.
proof fn lemma_scan_is_stable(state: ReaderState, more: Seq<u8>, ended: bool)
    requires
        !state.ended,
    ensures
        ({
            let n = resync_point(state.endian, state.unread, 0, false);
            &&& 0 <= n <= state.unread.len()
            &&& resync_point(state.endian, state.unread + more, 0, ended) == resync_point(
                state.endian,
                state.unread + more,
                n,
                ended,
            )
        }),
{
    let s = state.unread;
    let n = resync_point(state.endian, s, 0, false);
    law_resync_point_is_first(state.endian, s, 0, false);
    assert forall|j: int| 0 <= j < n implies #[trigger] chain_verdict(
        state.endian,
        s + more,
        j,
        ended,
    ) == Progress::Ready(false) by {
        law_verdict_is_stable(state.endian, s, more, j, ended);
    }
    lemma_resync_point_from(state.endian, s + more, 0, n, ended);
}

/// To skip bytes in two steps is to skip them in one.
proof fn lemma_take_header_from_suffix(state: ReaderState, n: int, m: int)
    requires
        0 <= n,
        0 <= m,
        n + m <= state.unread.len(),
    ensures
        state.skipping(n).take_header_from(m) == state.take_header_from(n + m),
{
    law_verdict_ignores_what_comes_before(state.endian, state.unread, n, m, state.ended);
    assert(state.unread.skip(n).skip(m) =~= state.unread.skip(n + m));
    assert(state.skipping(n).skipping(m) =~= state.skipping(n + m));
}

/// A scan that is taken up where it stopped arrives where one without a stop arrives.
proof fn lemma_scan_is_resumed(state: ReaderState, n: int)
    requires
        state.recover,
        state.pending is None,
        0 <= n <= state.unread.len(),
        resync_point(state.endian, state.unread, 0, state.ended) == resync_point(
            state.endian,
            state.unread,
            n,
            state.ended,
        ),
    ensures
        state.skipping(n).find_header() == state.find_header(),
{
    let t = state.unread;
    lemma_resync_point_in_suffix(state.endian, t, n, 0, state.ended);
    law_resync_point_is_first(state.endian, t.skip(n), 0, state.ended);
    let m = resync_point(state.endian, t.skip(n), 0, state.ended);
    lemma_take_header_from_suffix(state, n, m);
}

/// A header that has arrived is taken in the same way once more input has arrived.
proof fn lemma_take_header_is_stable(state: ReaderState, more: Seq<u8>, ended: bool)
    requires
        state.owed == 0,
        state.unread.len() >= header_size(),
    ensures
        state.supplied(more).with_ended(ended).take_header() == (
            state.take_header().0,
            state.take_header().1.supplied(more).with_ended(ended),
        ),
{
    let s = state.unread;
    lemma_header_in_prefix(state.endian, s, more, 0);
    assert(more.skip(0) =~= more);
    assert((s + more).skip(header_size()) =~= s.skip(header_size()) + more);
    assert(state.supplied(more).with_ended(ended).take_header().1
        =~= state.take_header().1.supplied(more).with_ended(ended));
}

/// To look for the next header before more input arrives changes nothing: what is found once the
/// input is there, and the state that is left behind, are the same.
pub proof fn law_early_look_changes_nothing(state: ReaderState, more: Seq<u8>, ended: bool)
    requires
        state.valid(),
        !state.ended,
    ensures
        state.find_header().1.supplied(more).with_ended(ended).find_header() == state.supplied(
            more,
        ).with_ended(ended).find_header(),
{
    let early = state.find_header().1.supplied(more).with_ended(ended);
    let late = state.supplied(more).with_ended(ended);
    if state.pending is Some {
    } else if state.owed > 0 {
        assert(state.skipping(0) =~= state);
    } else {
        let s = state.unread;
        assert(more.skip(0) =~= more);
        if state.recover {
            let n = resync_point(state.endian, s, 0, false);
            lemma_scan_is_stable(state, more, ended);
            assert((s + more).skip(n) =~= s.skip(n) + more);
            assert(late.skipping(n) =~= state.skipping(n).supplied(more).with_ended(ended));
            match chain_verdict(state.endian, s, n, false) {
                Progress::NeedBytes(_) => {
                    lemma_scan_is_resumed(late, n);
                },
                Progress::Ready(_) => {
                    law_verdict_is_stable(state.endian, s, more, n, ended);
                    law_resync_point_is_first(state.endian, s, 0, false);
                    lemma_take_header_is_stable(state.skipping(n), more, ended);
                },
            }
        } else if s.len() >= header_size() {
            lemma_take_header_is_stable(state, more, ended);
        }
    }
}

/// The header of the next record is the same in however many pieces the input arrives, and
/// however often it was asked for in between.
pub proof fn law_next_record_header_in_pieces(state: ReaderState, more: Seq<u8>, ended: bool)
    requires
        state.valid(),
        !state.ended,
    ensures
        state.next_record_header().1.supplied(more).with_ended(ended).next_record_header()
            == state.supplied(more).with_ended(ended).next_record_header(),
{
    law_early_look_changes_nothing(state, more, ended);
    assert(state.find_header().1.with_ended(false) =~= state.find_header().1);
}

/// A record that has arrived is taken in the same way once more input has arrived.
proof fn lemma_take_record_is_stable(state: ReaderState, more: Seq<u8>, ended: bool)
    requires
        state.owed == 0,
        state.pending matches Some(header) && header.total_size >= header_size(),
        state.take_record().0 matches Progress::Ready(Some(_)),
    ensures
        state.supplied(more).with_ended(ended).take_record() == (
            state.take_record().0,
            state.take_record().1.supplied(more),
        ),
{
    let later = state.supplied(more).with_ended(ended);
    let body_size = state.pending->0.total_size - header_size();
    assert(more.skip(0) =~= more);
    assert(later.unread.take(body_size) =~= state.unread.take(body_size));
    assert(later.unread.skip(body_size) =~= state.unread.skip(body_size) + more);
    assert(later.past_record().with_ended(false) =~= state.past_record().with_ended(false).supplied(
        more,
    ));
}

/// The next record is the same in however many pieces the input arrives: a call that asked for
/// input can be made again when more has arrived, as if it had not been made before, and a call
/// that was decided before all input had arrived was decided as it would have been after.
pub proof fn law_next_record_in_pieces(state: ReaderState, more: Seq<u8>, ended: bool)
    requires
        state.valid(),
        !state.ended,
        state.next_size_covers_header(),
    ensures
        match state.next_record() {
            (Progress::NeedBytes(_), asked) => asked.supplied(more).with_ended(ended).next_record()
                == state.supplied(more).with_ended(ended).next_record(),
            (Progress::Ready(record), read) => record is Some && state.supplied(more).with_ended(
                ended,
            ).next_record() == (Progress::Ready(record), read.supplied(more)),
        },
{
    law_early_look_changes_nothing(state, more, ended);
    let found = state.find_header().1;
    if state.find_header().0 is Ready && found.take_record().0 is Ready {
        lemma_find_header_keeps_valid(state);
        lemma_take_record_is_stable(found, more, ended);
    }
}

/// Whether a record can be skipped, and what is left behind, is the same in however many pieces
/// the input arrives, as far as the stream need not be moved.
pub proof fn law_skip_next_record_in_pieces(state: ReaderState, more: Seq<u8>, ended: bool)
    requires
        state.valid(),
        !state.ended,
        state.next_size_covers_header(),
    ensures
        match state.skip_next_record() {
            (SkipProgress::Ready(skipped), left) => skipped && state.supplied(more).with_ended(
                ended,
            ).skip_next_record() == (SkipProgress::Ready(true), left.supplied(more)),
            (_, asked) => asked.supplied(more).with_ended(ended).skip_next_record()
                == state.supplied(more).with_ended(ended).skip_next_record(),
        },
{
    law_early_look_changes_nothing(state, more, ended);
    law_next_record_in_pieces(state, more, ended);
    law_skip_agrees_with_next_record(state);
    law_skip_agrees_with_next_record(state.supplied(more).with_ended(ended));
}

/// A record can be skipped at once exactly when it can be read, and to skip it leaves behind what
/// to read it leaves behind.
pub proof fn law_skip_agrees_with_next_record(state: ReaderState)
    ensures
        state.next_record() matches (Progress::Ready(Some(_)), read)
            ==> state.skip_next_record() == (SkipProgress::Ready(true), read),
        state.skip_next_record() matches (SkipProgress::Ready(true), left)
            ==> state.next_record().0 matches Progress::Ready(Some(_)) && state.next_record().1
            == left,
{
}

/// A record that is skipped by moving the stream leaves behind the state that reading the rest
/// of it would have left behind.
pub proof fn law_seek_agrees_with_next_record(state: ReaderState, rest: Seq<u8>)
    requires
        state.valid(),
        state.next_size_covers_header(),
        state.skip_next_record().0 == SkipProgress::SeekForward(rest.len() as u64),
        rest.len() <= u64::MAX,
    ensures
        state.skip_next_record().1.body_incomplete(),
        state.skip_next_record().1.supplied(rest).next_record().0 matches Progress::Ready(Some(_)),
        state.skip_next_record().1.finish_skip(true)
            == state.skip_next_record().1.supplied(rest).next_record().1,
{
    let found = state.skip_next_record().1;
    lemma_find_header_keeps_valid(state);
    assert(rest.skip(0) =~= rest);
    let whole = found.supplied(rest);
    assert(whole.unread =~= found.unread + rest);
    assert(whole.past_record().unread =~= Seq::<u8>::empty());
    assert(found.finish_skip(true) =~= whole.past_record().with_ended(false));
}

/// A valid state stays valid when a header is looked for.
proof fn lemma_find_header_keeps_valid(state: ReaderState)
    requires
        state.valid(),
    ensures
        state.find_header().1.valid(),
{
    law_resync_point_is_first(state.endian, state.unread, 0, state.ended);
}

/// Where the stream turns out to be too short, the next record remains unchanged: its offset and
/// header stay, and it can be read once the rest of it has arrived.
pub proof fn law_failed_skip_leaves_record(state: ReaderState, more: Seq<u8>, ended: bool)
    requires
        state.valid(),
        !state.ended,
        state.next_size_covers_header(),
        state.skip_next_record().0 is SeekForward,
    ensures
        ({
            let left = state.skip_next_record().1.finish_skip(false);
            &&& left == state.next_record_header().1
            &&& left.supplied(more).with_ended(ended).next_record() == state.supplied(
                more,
            ).with_ended(ended).next_record()
        }),
{
    law_early_look_changes_nothing(state, more, ended);
    assert(state.find_header().1.with_ended(false) =~= state.find_header().1);
}

/// A call of `next_record` that finds the input ended before the record does leaves the record to
/// later calls: these return it, if the rest of it arrives.
///
/// A reader that recovers from corruption may take a record for corruption and leave it behind, if
/// the record is cut off, or is followed by only a part of the next header. It does not once the
/// header of the record has been asked for, nor while less than a header has arrived.
pub proof fn law_cut_off_record_is_left(state: ReaderState, more: Seq<u8>, ended: bool)
    requires
        state.valid(),
        state.ended,
        state.next_size_covers_header(),
        state.next_record().0 == Progress::<Option<RecordView>>::Ready(None),
        !state.recover || state.pending is Some || state.unread.len() < header_size(),
    ensures
        state.next_record().1.supplied(more).with_ended(ended).next_record() == state.supplied(
            more,
        ).with_ended(ended).next_record(),
{
    let open = state.with_ended(false);
    if state.recover && state.pending is None {
        assert(state.skipping(0) =~= state);
        assert(open.skipping(0) =~= open);
    }
    law_early_look_changes_nothing(open, more, ended);
    assert(open.find_header().1 =~= state.find_header().1.with_ended(false));
    assert(open.supplied(more) =~= state.supplied(more));
}

/// A call of `next_record_header` that finds the input ended before the header does leaves the
/// record to later calls, as a call of `next_record` does. A reader that recovers from corruption
/// does so while less than a header has arrived.
pub proof fn law_cut_off_header_is_left(state: ReaderState, more: Seq<u8>, ended: bool)
    requires
        state.valid(),
        state.ended,
        state.next_record_header().0 == Progress::<Option<JitDumpRecordHeader>>::Ready(None),
        !state.recover || state.unread.len() < header_size(),
    ensures
        state.next_record_header().1 == state.with_ended(false),
        state.next_record_header().1.supplied(more).with_ended(ended).next_record_header()
            == state.supplied(more).with_ended(ended).next_record_header(),
{
    if state.recover {
        assert(state.skipping(0) =~= state);
    }
}

/// A reader that recovers from corruption and finds no header before the input ends has moved to
/// the resync point, and to nowhere else: it leaves all bytes that have arrived, if these are too
/// few for a header, and one byte less than a header otherwise.
pub proof fn law_scan_without_a_hit_leaves_less_than_a_header(state: ReaderState)
    requires
        state.valid(),
        state.ended,
        state.recover,
        state.pending is None,
        state.next_record_header().0 == Progress::<Option<JitDumpRecordHeader>>::Ready(None),
    ensures
        ({
            let n = resync_point(state.endian, state.unread, 0, true);
            let left = state.next_record_header().1;
            &&& left == state.skipping(n).with_ended(false)
            &&& left.unread.len() == if state.unread.len() >= header_size() {
                header_size() - 1
            } else {
                state.unread.len() as int
            }
            &&& state.next_record() == (Progress::<Option<RecordView>>::Ready(None), left)
            &&& state.skip_next_record() == (SkipProgress::Ready(false), left)
        }),
{
    let n = resync_point(state.endian, state.unread, 0, true);
    law_resync_point_is_first(state.endian, state.unread, 0, true);
    if n > 0 {
        assert(chain_verdict(state.endian, state.unread, n - 1, true) == Progress::Ready(false));
    }
}

/// A call of `next_record` of a reader that recovers from corruption comes back without a record,
/// where no header was pending, only if no header was found: no record is left half read.
pub proof fn law_recovering_reader_finds_whole_records(state: ReaderState)
    requires
        state.valid(),
        state.ended,
        state.recover,
        state.pending is None,
        state.next_record().0 == Progress::<Option<RecordView>>::Ready(None),
    ensures
        state.next_record_header() == (
            Progress::<Option<JitDumpRecordHeader>>::Ready(None),
            state.next_record().1,
        ),
{
    law_recovered_header_is_known(state);
    law_resync_point_is_first(state.endian, state.unread, 0, true);
}

/// A record is exactly what the stream holds at its offset, and the next one starts where it
/// ends. A reader that does not recover from corruption skips nothing before it; one that does
/// skips what is turned down.
pub proof fn law_record_is_what_stream_holds(state: ReaderState)
    requires
        state.valid(),
        state.pending is None,
        state.next_size_covers_header(),
        state.next_record().0 matches Progress::Ready(Some(_)),
    ensures
        ({
            let record = state.next_record().0->Ready_0->0;
            let read = state.next_record().1;
            let n = record.start_offset - state.next_offset;
            &&& n == if state.recover {
                resync_point(state.endian, state.unread, 0, state.ended)
            } else {
                0
            }
            &&& 0 <= n
            &&& n + record.record_size <= state.unread.len()
            &&& header_size() <= record.record_size
            &&& record_header_at(state.endian, state.unread, n).record_type == record.record_type
            &&& record_header_at(state.endian, state.unread, n).total_size == record.record_size
            &&& record_header_at(state.endian, state.unread, n).timestamp == record.timestamp
            &&& record.endian == state.endian
            &&& record.body == state.unread.subrange(n + header_size(), n + record.record_size)
            &&& read.pending is None
            &&& read.next_offset == record.start_offset + record.record_size
            &&& read.unread == state.unread.skip(n + record.record_size)
        }),
{
    law_resync_point_is_first(state.endian, state.unread, 0, state.ended);
    let record = state.next_record().0->Ready_0->0;
    let n = record.start_offset - state.next_offset;
    assert(state.unread.skip(0) =~= state.unread);
    lemma_record_in_suffix(state.endian, state.unread, n, record.record_size as int);
}

/// Where the parts of a record of `size` bytes that starts at `n` lie in `s`.
proof fn lemma_record_in_suffix(endian: Endianness, s: Seq<u8>, n: int, size: int)
    requires
        0 <= n,
        header_size() <= size,
        n + size <= s.len(),
    ensures
        record_header_at(endian, s.skip(n), 0) == record_header_at(endian, s, n),
        s.skip(n).skip(header_size()).take(size - header_size()) == s.subrange(
            n + header_size(),
            n + size,
        ),
        s.skip(n).skip(header_size()).skip(size - header_size()) == s.skip(n + size),
{
    lemma_header_in_subrange(endian, s, n, s.len() as int, 0);
    assert(s.skip(n).skip(header_size()).take(size - header_size()) =~= s.subrange(
        n + header_size(),
        n + size,
    ));
    assert(s.skip(n).skip(header_size()).skip(size - header_size()) =~= s.skip(n + size));
}

/// A reader that recovers from corruption only comes up with headers that are known, at the first
/// position that is taken for the start of a record.
pub proof fn law_recovered_header_is_known(state: ReaderState)
    requires
        state.valid(),
        state.recover,
        state.pending is None,
    ensures
        state.next_size_covers_header(),
        state.find_header().0 matches Progress::Ready(Some(header)) ==> {
            let n = state.find_header().1.next_offset - state.next_offset;
            &&& is_known(header)
            &&& header == record_header_at(state.endian, state.unread, n)
            &&& chain_verdict(state.endian, state.unread, n, state.ended) == Progress::Ready(true)
            &&& forall|j: int|
                0 <= j < n ==> #[trigger] chain_verdict(
                    state.endian,
                    state.unread,
                    j,
                    state.ended,
                ) == Progress::Ready(false)
        },
{
    let n = resync_point(state.endian, state.unread, 0, state.ended);
    law_resync_point_is_first(state.endian, state.unread, 0, state.ended);
    if state.unread.len() >= n + header_size() {
        assert(record_header_at(state.endian, state.unread.skip(n), 0) == record_header_at(
            state.endian,
            state.unread,
            n,
        ));
    }
}

/// The header of the next record stays the same until the record is read or skipped, whatever
/// arrives in the meantime.
pub proof fn law_header_is_kept(state: ReaderState, more: Seq<u8>, ended: bool)
    requires
        state.next_record_header().0 matches Progress::Ready(Some(_)),
    ensures
        ({
            let (progress, found) = state.next_record_header();
            &&& found.next_record_header() == (progress, found)
            &&& found.supplied(more).with_ended(ended).next_record_header() == (
                progress,
                found.supplied(more),
            )
        }),
{
    let found = state.next_record_header().1;
    assert(found.with_ended(false) =~= found);
    assert(found.supplied(more).with_ended(ended).with_ended(false) =~= found.supplied(more));
}

/// Once the input is known to have ended, every call is decided. A header that is not found then
/// leaves too few bytes for one.
pub proof fn law_end_of_input_decides(state: ReaderState)
    requires
        state.valid(),
        state.ended,
    ensures
        state.next_record_header().0 is Ready,
        state.next_record().0 is Ready,
        !(state.skip_next_record().0 is NeedBytes),
        state.next_record_header() matches (Progress::Ready(None), left) ==> left.unread.len()
            < header_size() && left.pending is None,
{
    law_resync_point_is_first(state.endian, state.unread, 0, true);
}

/// A call that is decided forgets that the input had ended: the next one asks for input again.
/// A call that asks for input asks for more than has arrived.
pub proof fn law_requests_make_progress(state: ReaderState)
    requires
        state.valid(),
        state.next_size_covers_header(),
    ensures
        match state.next_record_header() {
            (Progress::Ready(_), left) => !left.ended,
            (Progress::NeedBytes(needed), left) => needed > left.unread.len(),
        },
        match state.next_record() {
            (Progress::Ready(_), left) => !left.ended,
            (Progress::NeedBytes(needed), left) => needed > left.unread.len(),
        },
        match state.skip_next_record() {
            (SkipProgress::Ready(_), left) => !left.ended,
            (SkipProgress::NeedBytes(needed), left) => needed > left.unread.len(),
            (SkipProgress::SeekForward(distance), _) => distance > 0,
        },
{
    law_resync_point_is_first(state.endian, state.unread, 0, state.ended);
}

/// How many bytes the reader has not yet handed out.
pub open spec fn bytes_left(state: ReaderState) -> int {
    state.end_offset() - state.next_offset
}

/// The records that calls of `next_record` return one after the other, up to the first call that
/// returns none, if no more input arrives. The sequence also ends before a record whose size does
/// not cover its header.
pub open spec fn all_records(state: ReaderState) -> Seq<RecordView>
    decreases bytes_left(state),
{
    let state = state.with_ended(true);
    match state.next_record() {
        (Progress::Ready(Some(record)), read) => if state.next_size_covers_header() {
            proof {
                law_resync_point_is_first(state.endian, state.unread, 0, true);
            }
            seq![record] + all_records(read)
        } else {
            Seq::empty()
        },
        _ => Seq::empty(),
    }
}

/// The state after the calls of `next_record` that return `all_records(state)` and the call after
/// them, which returns none. Where the size of the next record does not cover its header, only
/// that header has been asked for.
pub open spec fn after_all_records(state: ReaderState) -> ReaderState
    decreases bytes_left(state),
{
    let state = state.with_ended(true);
    if !state.next_size_covers_header() {
        state.next_record_header().1
    } else {
        match state.next_record() {
            (Progress::Ready(Some(_)), read) => {
                proof {
                    law_resync_point_is_first(state.endian, state.unread, 0, true);
                }
                after_all_records(read)
            },
            (_, left) => left,
        }
    }
}

/// `s` is a sequence of complete records with known headers.
pub open spec fn is_clean(endian: Endianness, s: Seq<u8>) -> bool
    decreases s.len(),
{
    s.len() == 0 || {
        let size = record_header_at(endian, s, 0).total_size;
        &&& s.len() >= header_size()
        &&& known_header_at(endian, s, 0)
        &&& header_size() <= size <= s.len()
        &&& is_clean(endian, s.skip(size as int))
    }
}

/// The first record of a clean file is taken for a record.
proof fn lemma_clean_start_is_taken(endian: Endianness, s: Seq<u8>)
    requires
        is_clean(endian, s),
    ensures
        chain_verdict(endian, s, 0, true) == Progress::Ready(true),
        resync_point(endian, s, 0, true) == 0,
{
    if s.len() > 0 {
        let size = record_header_at(endian, s, 0).total_size as int;
        if s.len() > size {
            assert(is_clean(endian, s.skip(size)));
            lemma_header_in_subrange(endian, s, size, s.len() as int, 0);
            assert(s.skip(size) =~= s.subrange(size, s.len() as int));
        }
    }
}

/// What reading the first record of a clean file leaves behind, whether or not the reader
/// recovers from corruption.
proof fn lemma_clean_step(state: ReaderState)
    requires
        state.valid(),
        state.ended,
        state.pending is None,
        is_clean(state.endian, state.unread),
        state.unread.len() > 0,
    ensures
        state.next_size_covers_header(),
        ({
            let size = record_header_at(state.endian, state.unread, 0).total_size as int;
            &&& header_size() <= size <= state.unread.len()
            &&& state.next_record() == (
                Progress::Ready(Some(state.take_header().1.pending_record())),
                state.skipping(size).with_ended(false),
            )
        }),
{
    let s = state.unread;
    let size = record_header_at(state.endian, s, 0).total_size as int;
    lemma_clean_start_is_taken(state.endian, s);
    assert(s.skip(0) =~= s);
    assert(state.skipping(0) =~= state);
    assert(s.skip(header_size()).skip(size - header_size()) =~= s.skip(size));
    assert(state.next_record().1 =~= state.skipping(size).with_ended(false));
}

/// Recovery from corruption makes no difference to a file without corruption.
pub proof fn law_clean_file_unaffected_by_recovery(state: ReaderState)
    requires
        state.valid(),
        state.pending is None,
        is_clean(state.endian, state.unread),
    ensures
        all_records(ReaderState { recover: true, ..state }) == all_records(
            ReaderState { recover: false, ..state },
        ),
    decreases state.unread.len(),
{
    let on = ReaderState { recover: true, ended: true, ..state };
    let off = ReaderState { recover: false, ended: true, ..state };
    if state.unread.len() > 0 {
        lemma_clean_step(on);
        lemma_clean_step(off);
        let size = record_header_at(state.endian, state.unread, 0).total_size as int;
        law_clean_file_unaffected_by_recovery(state.skipping(size).with_ended(false));
    }
}

/// The records lie one behind the other, without gaps, from offset `from` to offset `to`.
pub open spec fn is_tiling(records: Seq<RecordView>, from: int, to: int) -> bool
    decreases records.len(),
{
    if records.len() == 0 {
        from == to
    } else {
        &&& records[0].start_offset == from
        &&& is_tiling(records.drop_first(), from + records[0].record_size, to)
    }
}

/// All of a file without corruption is read: its records lie one behind the other, from the first
/// to the end of the file.
pub proof fn law_clean_file_is_read_entirely(state: ReaderState)
    requires
        state.valid(),
        state.pending is None,
        is_clean(state.endian, state.unread),
    ensures
        is_tiling(all_records(state), state.next_offset, state.end_offset()),
    decreases state.unread.len(),
{
    let now = state.with_ended(true);
    if state.unread.len() > 0 {
        lemma_clean_step(now);
        let size = record_header_at(state.endian, state.unread, 0).total_size as int;
        let rest = now.skipping(size).with_ended(false);
        law_clean_file_is_read_entirely(rest);
        let records = all_records(state);
        assert(records == seq![now.take_header().1.pending_record()] + all_records(rest));
        assert(records.drop_first() =~= all_records(rest));
    } else if state.recover {
        lemma_clean_start_is_taken(state.endian, state.unread);
    }
}

/// Bytes that are turned down as the start of a record do not keep a reader that recovers from
/// corruption from the records behind them.
pub proof fn law_corruption_is_skipped(state: ReaderState, n: int)
    requires
        state.valid(),
        state.recover,
        state.pending is None,
        0 <= n <= state.unread.len(),
        forall|j: int|
            0 <= j < n ==> #[trigger] chain_verdict(state.endian, state.unread, j, true)
                == Progress::Ready(false),
    ensures
        all_records(state) == all_records(state.skipping(n)),
{
    let now = state.with_ended(true);
    lemma_resync_point_from(state.endian, state.unread, 0, n, true);
    lemma_scan_is_resumed(now, n);
    assert(now.skipping(n) =~= state.skipping(n).with_ended(true));
}

/// The next record can be read, with what has arrived.
spec fn has_first_record(state: ReaderState) -> bool {
    &&& state.with_ended(true).next_size_covers_header()
    &&& state.with_ended(true).next_record().0 matches Progress::Ready(Some(_))
}

/// Without recovery from corruption, a file that is still being written to can be read to its end
/// and then further on: the records that are read first, followed by those that are read once the
/// rest of the file has arrived, are exactly the records of the whole file.
///
/// A reader that recovers from corruption may take a record for corruption, if the record is cut
/// off, or is followed by only a part of the next header.
pub proof fn law_reading_goes_on_where_it_stopped(state: ReaderState, more: Seq<u8>)
    requires
        state.valid(),
        !state.recover,
    ensures
        all_records(state.supplied(more)) == all_records(state) + all_records(
            after_all_records(state).supplied(more),
        ),
    decreases bytes_left(state),
{
    if has_first_record(state) {
        let record = state.with_ended(true).next_record().0->Ready_0->0;
        let read = state.with_ended(true).next_record().1;
        lemma_next_record_keeps_valid(state.with_ended(true));
        lemma_first_record_is_stable(state, more);
        law_reading_goes_on_where_it_stopped(read, more);
        assert(all_records(state.supplied(more)) =~= all_records(state) + all_records(
            after_all_records(state).supplied(more),
        ));
    } else {
        let left = after_all_records(state);
        lemma_stopped_state(state, more);
        lemma_same_header_same_records(left.supplied(more), state.supplied(more));
        assert(all_records(state.supplied(more)) =~= all_records(state) + all_records(
            left.supplied(more),
        ));
    }
}

/// Readers that find the same header and leave the same state behind read the same records.
proof fn lemma_same_header_same_records(one: ReaderState, other: ReaderState)
    requires
        one.with_ended(true).find_header() == other.with_ended(true).find_header(),
    ensures
        all_records(one) == all_records(other),
{
    assert(one.with_ended(true).next_record() == other.with_ended(true).next_record());
}

/// A reader that stops for want of input finds the same header later as one that did not try.
proof fn lemma_stopped_state(state: ReaderState, more: Seq<u8>)
    requires
        state.valid(),
        !state.recover,
        !has_first_record(state),
    ensures
        all_records(state) == Seq::<RecordView>::empty(),
        after_all_records(state).supplied(more).with_ended(true).find_header() == state.supplied(
            more,
        ).with_ended(true).find_header(),
{
    let now = state.with_ended(true);
    let open = state.with_ended(false);
    law_early_look_changes_nothing(open, more, true);
    assert(open.supplied(more) =~= state.supplied(more));
    assert(now.find_header().1.with_ended(false) =~= open.find_header().1);
    assert(after_all_records(state) == now.find_header().1.with_ended(false));
}

/// A record that has arrived is the first one to be read whatever else arrives.
proof fn lemma_first_record_is_stable(state: ReaderState, more: Seq<u8>)
    requires
        state.valid(),
        !state.recover,
        has_first_record(state),
    ensures
        ({
            let (progress, read) = state.with_ended(true).next_record();
            all_records(state.supplied(more)) == seq![progress->Ready_0->0] + all_records(
                read.supplied(more),
            )
        }),
{
    let open = state.with_ended(false);
    let later = state.supplied(more).with_ended(true);
    lemma_next_record_without_recovery(state);
    law_next_record_in_pieces(open, more, true);
    assert(open.supplied(more).with_ended(true) =~= later);
    law_early_look_changes_nothing(open, more, true);
    assert(later.next_size_covers_header());
}

/// The records of a file that is still being written to are the first records of the file as it
/// will be, if the reader does not recover from corruption.
pub proof fn law_partial_file_gives_first_records(state: ReaderState, more: Seq<u8>)
    requires
        state.valid(),
        !state.recover,
    ensures
        all_records(state).is_prefix_of(all_records(state.supplied(more))),
{
    law_reading_goes_on_where_it_stopped(state, more);
}

/// Without recovery from corruption, a record that has arrived is read in the same way whether or
/// not the input has ended.
proof fn lemma_next_record_without_recovery(state: ReaderState)
    requires
        !state.recover,
        state.with_ended(true).next_record().0 matches Progress::Ready(Some(_)),
    ensures
        state.with_ended(false).next_record() == state.with_ended(true).next_record(),
        state.with_ended(false).find_header().0 == state.with_ended(true).find_header().0,
{
    let now = state.with_ended(true);
    let open = state.with_ended(false);
    assert(open.find_header().1 =~= now.find_header().1.with_ended(false));
    assert(open.next_record().1 =~= now.next_record().1);
}

/// A valid state stays valid when a record is read.
proof fn lemma_next_record_keeps_valid(state: ReaderState)
    requires
        state.valid(),
        state.next_size_covers_header(),
    ensures
        state.next_record().1.valid(),
        state.next_record().0 matches Progress::Ready(Some(_)) ==> bytes_left(
            state.next_record().1,
        ) < bytes_left(state),
{
    lemma_find_header_keeps_valid(state);
    law_resync_point_is_first(state.endian, state.unread, 0, state.ended);
}

/// Whether and with which header a file is opened does not depend on the size of the buffer, if
/// the buffer can hold a file header.
pub proof fn law_buffer_size_makes_no_difference(
    data: Seq<u8>,
    size1: nat,
    size2: nat,
    result: Result<JitDumpReader, JitDumpError>,
)
    requires
        size1 >= JitDumpHeader::SIZE,
        size2 >= JitDumpHeader::SIZE,
        is_open_result(data, size1, result),
    ensures
        is_open_result(data, size2, result),
{
    let first1 = first_bytes(data, size1);
    let first2 = first_bytes(data, size2);
    if data.len() >= JitDumpHeader::SIZE {
        assert(first1.take(4) =~= first2.take(4));
    }
}

} // verus!
