//! What is stored in a file is what comes out of it.

use crate::bytes::{u32_at, u64_at, Endianness};
use crate::error::JitDumpError;
use crate::header::{is_header_result, magic_endian, JitDumpHeader};
use crate::jitdump_reader::{first_bytes, is_open_result, record_progress, JitDumpReader};
use crate::laws::{
    all_records, law_recovered_header_is_known, law_skip_agrees_with_next_record,
};
use crate::model::{Progress, ReaderState, SkipProgress};
use crate::reading_laws::{
    announces_record, behind, is_header_at, is_no_record_start, is_record_start,
    law_next_header_with_recovery, law_next_header_without_recovery,
    law_next_record_without_recovery, law_record_is_read_as_stored, law_record_start_is_read,
    law_stored_header_is_decoded,
};
use crate::record::{
    code_load_complete, JitDumpCodeLoadRecord, JitDumpRawRecord, JitDumpRecordHeader,
    JitDumpRecordType, RecordView,
};
use crate::stored::{
    law_decoded_u32_is_stored, law_decoded_u64_is_stored, law_stored_u32_is_decoded,
    law_stored_u64_is_decoded, lemma_code_load_parts, lemma_file_header_parts, lemma_join,
    lemma_lengths, lemma_part_lies_at, lemma_record_header_parts, lies_at, stored_code_load,
    stored_file_header, stored_magic, stored_record, stored_record_header, stored_records,
    stored_u32, stored_u64, CodeLoad, Entry, FileHeader,
};
use vstd::prelude::*;

verus! {

/// Where the fields of a file header lie.
proof fn lemma_file_header_fields(endian: Endianness, file: FileHeader, s: Seq<u8>)
    requires
        lies_at(s, 0, stored_file_header(endian, file)),
    ensures
        s.len() >= 40,
        s.take(4) == stored_magic(endian),
        u32_at(endian, s, 4) == file.version,
        u32_at(endian, s, 8) == file.total_size,
        u32_at(endian, s, 12) == file.elf_machine_arch,
        u32_at(endian, s, 20) == file.pid,
        u64_at(endian, s, 24) == file.timestamp,
        u64_at(endian, s, 32) == file.flags,
{
    let bytes = stored_file_header(endian, file);
    lemma_file_header_parts(endian, file);
    lemma_lengths(endian, 0, 0);
    lemma_part_lies_at(s, 0, bytes, 0, stored_magic(endian));
    lemma_part_lies_at(s, 0, bytes, 4, stored_u32(endian, file.version));
    lemma_part_lies_at(s, 0, bytes, 8, stored_u32(endian, file.total_size));
    lemma_part_lies_at(s, 0, bytes, 12, stored_u32(endian, file.elf_machine_arch));
    lemma_part_lies_at(s, 0, bytes, 20, stored_u32(endian, file.pid));
    lemma_part_lies_at(s, 0, bytes, 24, stored_u64(endian, file.timestamp));
    lemma_part_lies_at(s, 0, bytes, 32, stored_u64(endian, file.flags));
    assert(s.take(4) =~= s.subrange(0, 4));
    law_stored_u32_is_decoded(endian, s, 4, file.version);
    law_stored_u32_is_decoded(endian, s, 8, file.total_size);
    law_stored_u32_is_decoded(endian, s, 12, file.elf_machine_arch);
    law_stored_u32_is_decoded(endian, s, 20, file.pid);
    law_stored_u64_is_decoded(endian, s, 24, file.timestamp);
    law_stored_u64_is_decoded(endian, s, 32, file.flags);
}

/// The fields of `header` are those of `file`, stored in this byte order.
pub open spec fn is_file_header(
    header: JitDumpHeader,
    endian: Endianness,
    file: FileHeader,
) -> bool {
    &&& header.magic@ == stored_magic(endian)
    &&& header.version == file.version
    &&& header.total_size == file.total_size
    &&& header.elf_machine_arch == file.elf_machine_arch
    &&& header.pid == file.pid
    &&& header.timestamp == file.timestamp
    &&& header.flags == file.flags
}

/// A file header is decoded to the fields that were stored, whatever lies behind it.
pub proof fn law_stored_file_header_is_decoded(
    endian: Endianness,
    file: FileHeader,
    s: Seq<u8>,
    result: Result<JitDumpHeader, JitDumpError>,
)
    requires
        lies_at(s, 0, stored_file_header(endian, file)),
        is_header_result(s, result),
    ensures
        result matches Ok(header) && is_file_header(header, endian, file),
        magic_endian(s.take(4)) == Some(endian),
{
    lemma_file_header_fields(endian, file, s);
    law_magic_bytes_announce_byte_order(s.take(4), endian);
}

/// The magic bytes announce the byte order in which the file is stored, and no others announce one.
pub proof fn law_magic_bytes_announce_byte_order(magic: Seq<u8>, endian: Endianness)
    ensures
        magic_endian(magic) == Some(endian) <==> magic == stored_magic(endian),
{
    let little = stored_magic(Endianness::LittleEndian);
    let big = stored_magic(Endianness::BigEndian);
    assert(little[0] == 0x44u8 && big[0] == 0x4Au8);
}

/// A file whose header has arrived is opened, with the fields that were stored. All that has
/// arrived from the end of the file header on, however much that is, is there to be read, and the
/// first record starts there. Recovery is off.
pub proof fn law_stored_file_is_opened(
    endian: Endianness,
    file: FileHeader,
    data: Seq<u8>,
    buffer_size: nat,
    result: Result<JitDumpReader, JitDumpError>,
)
    requires
        lies_at(data, 0, stored_file_header(endian, file)),
        buffer_size >= 40,
        is_open_result(data, buffer_size, result),
    ensures
        result matches Ok(reader) && {
            &&& is_file_header(reader@.header, endian, file)
            &&& is_at_first_record(reader@, endian, file.total_size as int, data)
        },
{
    lemma_file_header_parts(endian, file);
    lemma_first_bytes(data, buffer_size, stored_file_header(endian, file));
    law_magic_bytes_announce_byte_order(stored_magic(endian), endian);
    match result {
        Ok(reader) => {
            law_stored_file_header_is_decoded(
                endian,
                file,
                first_bytes(data, buffer_size),
                Ok(reader@.header),
            );
        },
        Err(error) => {
            law_stored_file_header_is_decoded(
                endian,
                file,
                first_bytes(data, buffer_size),
                Err(error),
            );
        },
    }
}

/// A reader is about to read the first record of a file that starts with `data`, of which the file
/// header takes up `total_size` bytes.
pub open spec fn is_at_first_record(
    state: ReaderState,
    endian: Endianness,
    total_size: int,
    data: Seq<u8>,
) -> bool {
    &&& state.valid()
    &&& state.endian == endian
    &&& !state.recover
    &&& state.pending is None
    &&& state.next_offset == total_size
    &&& !state.ended
    &&& total_size <= data.len() ==> state.end_offset() == data.len()
    &&& total_size <= data.len() ==> state.unread == data.skip(total_size) && state.owed == 0
    &&& total_size > data.len() ==> state.unread.len() == 0 && state.owed == total_size
        - data.len()
}

/// What lies at the start of a stream lies at the start of its first bytes.
proof fn lemma_first_bytes(data: Seq<u8>, n: nat, bytes: Seq<u8>)
    requires
        lies_at(data, 0, bytes),
        bytes.len() <= n,
    ensures
        lies_at(first_bytes(data, n), 0, bytes),
{
    assert(first_bytes(data, n).subrange(0, bytes.len() as int) =~= data.subrange(
        0,
        bytes.len() as int,
    ));
}

/// The bytes start with the magic bytes of a file, in either byte order.
pub open spec fn starts_with_magic(s: Seq<u8>) -> bool {
    &&& s.len() >= 4
    &&& s.take(4) == stored_magic(Endianness::LittleEndian) || s.take(4) == stored_magic(
        Endianness::BigEndian,
    )
}

/// When a file header is decoded and when it is refused: the bytes have to start with one of the
/// two sorts of magic bytes, and there have to be forty of them in all.
pub proof fn law_when_a_file_header_is_decoded(
    s: Seq<u8>,
    result: Result<JitDumpHeader, JitDumpError>,
)
    requires
        is_header_result(s, result),
    ensures
        result is Ok <==> starts_with_magic(s) && s.len() >= 40,
        result == Err::<JitDumpHeader, _>(JitDumpError::NotEnoughDataForHeader) <==> s.len() < 4
            || (starts_with_magic(s) && s.len() < 40),
        result matches Err(JitDumpError::InvalidMagicBytes(magic)) ==> magic@ == s.take(4),
{
    law_magic_bytes_announce_byte_order(s.take(4), Endianness::LittleEndian);
    law_magic_bytes_announce_byte_order(s.take(4), Endianness::BigEndian);
}

/// When a file is opened and when it is refused, over its first bytes, of which as many count as
/// the buffer holds: it has to start with one of the two sorts of magic bytes, and with forty
/// bytes in all.
pub proof fn law_when_a_file_is_opened(
    data: Seq<u8>,
    buffer_size: nat,
    result: Result<JitDumpReader, JitDumpError>,
)
    requires
        is_open_result(data, buffer_size, result),
    ensures
        ({
            let len = if data.len() < buffer_size {
                data.len()
            } else {
                buffer_size
            };
            if len < 4 || (starts_with_magic(data) && len < 40) {
                result matches Err(JitDumpError::NotEnoughDataForHeader)
            } else if starts_with_magic(data) {
                result is Ok
            } else {
                result matches Err(JitDumpError::InvalidMagicBytes(magic)) && magic@ == data.take(4)
            }
        }),
{
    let first = first_bytes(data, buffer_size);
    if first.len() >= 4 {
        assert(first.take(4) =~= data.take(4));
    }
    match result {
        Ok(reader) => law_when_a_file_header_is_decoded(first, Ok(reader@.header)),
        Err(error) => law_when_a_file_header_is_decoded(first, Err(error)),
    }
}

/// To open a file with a part of it that holds the file header, and to hand over the rest, is to
/// open it with all of it at once, whatever the buffers hold.
pub proof fn law_file_is_opened_in_pieces(
    part: Seq<u8>,
    rest: Seq<u8>,
    size1: nat,
    size2: nat,
    opened: Result<JitDumpReader, JitDumpError>,
    whole: Result<JitDumpReader, JitDumpError>,
)
    requires
        part.len() >= 40,
        size1 >= 40,
        size2 >= 40,
        is_open_result(part, size1, opened),
        is_open_result(part + rest, size2, whole),
    ensures
        opened matches Ok(reader) ==> whole matches Ok(other) && reader@.supplied(rest) == other@,
        opened is Err ==> whole is Err,
{
    let first1 = first_bytes(part, size1);
    let first2 = first_bytes(part + rest, size2);
    assert(first1.take(4) =~= first2.take(4));
    if opened is Ok && whole is Ok {
        let one = opened->Ok_0@;
        let other = whole->Ok_0@;
        lemma_same_first_bytes(one.header, other.header, first1, first2);
        let total_size = one.header.total_size as int;
        if total_size <= part.len() {
            assert((part + rest).skip(total_size) =~= part.skip(total_size) + rest);
            assert(rest.skip(0) =~= rest);
        } else if total_size <= part.len() + rest.len() {
            assert((part + rest).skip(total_size) =~= rest.skip(total_size - part.len()));
        }
        assert(one.supplied(rest) =~= other);
    }
}

/// Streams with the same first forty bytes store the same file header.
proof fn lemma_same_first_bytes(one: JitDumpHeader, other: JitDumpHeader, s: Seq<u8>, t: Seq<u8>)
    requires
        one.is_stored_in(s),
        other.is_stored_in(t),
        forall|j: int| 0 <= j < 40 ==> s[j] == t[j],
    ensures
        one == other,
{
    assert(s.take(4) =~= t.take(4));
    assert(one.magic =~= other.magic);
}

/// Where the parts lie in a body that starts with a stored code load record.
proof fn lemma_code_load_fields(endian: Endianness, load: CodeLoad, s: Seq<u8>)
    requires
        load.code_bytes.len() <= u64::MAX,
        lies_at(s, 0, stored_code_load(endian, load)),
    ensures
        ({
            let n = load.function_name.len() as int;
            let size = load.code_bytes.len() as int;
            &&& s.len() >= 41 + n + size
            &&& u32_at(endian, s, 0) == load.pid
            &&& u32_at(endian, s, 4) == load.tid
            &&& u64_at(endian, s, 8) == load.vma
            &&& u64_at(endian, s, 16) == load.code_addr
            &&& u64_at(endian, s, 24) == size
            &&& u64_at(endian, s, 32) == load.code_index
            &&& s.subrange(40, 40 + n) == load.function_name
            &&& s[40 + n] == 0
            &&& s.subrange(41 + n, 41 + n + size) == load.code_bytes
        }),
{
    let bytes = stored_code_load(endian, load);
    let n = load.function_name.len() as int;
    let size = load.code_bytes.len() as u64;
    lemma_code_load_parts(endian, load);
    lemma_lengths(endian, 0, 0);
    lemma_part_lies_at(s, 0, bytes, 0, stored_u32(endian, load.pid));
    lemma_part_lies_at(s, 0, bytes, 4, stored_u32(endian, load.tid));
    lemma_part_lies_at(s, 0, bytes, 8, stored_u64(endian, load.vma));
    lemma_part_lies_at(s, 0, bytes, 16, stored_u64(endian, load.code_addr));
    lemma_part_lies_at(s, 0, bytes, 24, stored_u64(endian, size));
    lemma_part_lies_at(s, 0, bytes, 32, stored_u64(endian, load.code_index));
    lemma_part_lies_at(s, 0, bytes, 40, load.function_name);
    lemma_part_lies_at(s, 0, bytes, 40 + n, seq![0u8]);
    lemma_part_lies_at(s, 0, bytes, 41 + n, load.code_bytes);
    assert(s.subrange(40 + n, 41 + n)[0] == 0u8);
    law_stored_u32_is_decoded(endian, s, 0, load.pid);
    law_stored_u32_is_decoded(endian, s, 4, load.tid);
    law_stored_u64_is_decoded(endian, s, 8, load.vma);
    law_stored_u64_is_decoded(endian, s, 16, load.code_addr);
    law_stored_u64_is_decoded(endian, s, 24, size);
    law_stored_u64_is_decoded(endian, s, 32, load.code_index);
}

/// A code load record is decoded to what was stored: for every function name without a nul byte
/// and for all code, of whatever length, all of the name and all of the code, and nothing else,
/// come back, whatever lies behind them.
pub proof fn law_stored_code_load_is_decoded(
    endian: Endianness,
    load: CodeLoad,
    body: Seq<u8>,
    record: JitDumpCodeLoadRecord,
    n: int,
)
    requires
        !load.function_name.contains(0u8),
        load.code_bytes.len() <= u64::MAX,
        lies_at(body, 0, stored_code_load(endian, load)),
    ensures
        code_load_complete(endian, body, load.function_name.len() as int),
        code_load_complete(endian, body, n) && record.is_stored_in(endian, body, n)
            ==> record.content() == load && record.code_size == load.code_bytes.len(),
{
    let len = load.function_name.len() as int;
    let rest = body.skip(40);
    lemma_code_load_fields(endian, load, body);
    assert forall|j: int| 0 <= j < len implies rest[j] != 0u8 by {
        assert(load.function_name[j] == body.subrange(40, 40 + len)[j]);
        assert(load.function_name.contains(load.function_name[j]));
    }
    assert(rest[len] == 0u8);
    if code_load_complete(endian, body, n) {
        assert(rest[n] == 0u8);
        assert(n == len);
    }
}

/// What a code load record is decoded to is what its body stores: the function name ends at the
/// first nul byte, and the code follows that byte.
pub proof fn law_decoded_code_load_is_stored(
    endian: Endianness,
    body: Seq<u8>,
    record: JitDumpCodeLoadRecord,
    n: int,
)
    requires
        code_load_complete(endian, body, n),
        record.is_stored_in(endian, body, n),
    ensures
        !record.function_name@.contains(0u8),
        record.code_size == record.code_bytes@.len(),
        lies_at(body, 0, stored_code_load(endian, record.content())),
{
    let load = record.content();
    let bytes = stored_code_load(endian, load);
    let rest = body.skip(40);
    assert(record.code_bytes@.len() == record.code_size);
    assert forall|j: int| 0 <= j < n implies record.function_name@[j] != 0u8 by {
        assert(record.function_name@[j] == rest[j]);
    }
    assert(rest[n] == 0u8);
    assert(body.subrange(40 + n, 41 + n) =~= seq![0u8]);
    lemma_code_load_parts(endian, load);
    lemma_same_fixed_fields(endian, load, body);
    lemma_same_part(body, bytes, 40, load.function_name);
    lemma_same_part(body, bytes, 40 + n, seq![0u8]);
    lemma_same_part(body, bytes, 41 + n, load.code_bytes);
    assert(body.subrange(0, bytes.len() as int) =~= bytes);
}

/// The fixed fields of a code load record are the bytes in which their values are stored.
proof fn lemma_same_fixed_fields(endian: Endianness, load: CodeLoad, s: Seq<u8>)
    requires
        s.len() >= 40,
        load.code_bytes.len() <= u64::MAX,
        u32_at(endian, s, 0) == load.pid,
        u32_at(endian, s, 4) == load.tid,
        u64_at(endian, s, 8) == load.vma,
        u64_at(endian, s, 16) == load.code_addr,
        u64_at(endian, s, 24) == load.code_bytes.len(),
        u64_at(endian, s, 32) == load.code_index,
    ensures
        forall|j: int| 0 <= j < 40 ==> s[j] == stored_code_load(endian, load)[j],
{
    let bytes = stored_code_load(endian, load);
    lemma_code_load_parts(endian, load);
    lemma_same_u32(endian, s, bytes, 0, load.pid);
    lemma_same_u32(endian, s, bytes, 4, load.tid);
    lemma_same_u64(endian, s, bytes, 8, load.vma);
    lemma_same_u64(endian, s, bytes, 16, load.code_addr);
    lemma_same_u64(endian, s, bytes, 24, load.code_bytes.len() as u64);
    lemma_same_u64(endian, s, bytes, 32, load.code_index);
}

/// A sequence in which an integer is decoded agrees with one in which it is stored.
proof fn lemma_same_u32(endian: Endianness, s: Seq<u8>, t: Seq<u8>, i: int, value: u32)
    requires
        0 <= i,
        i + 4 <= s.len(),
        u32_at(endian, s, i) == value,
        lies_at(t, i, stored_u32(endian, value)),
    ensures
        forall|j: int| i <= j < i + 4 ==> s[j] == t[j],
{
    lemma_lengths(endian, value, 0);
    law_decoded_u32_is_stored(endian, s, i);
    lemma_same_part(s, t, i, stored_u32(endian, value));
}

/// A sequence in which an integer is decoded agrees with one in which it is stored.
proof fn lemma_same_u64(endian: Endianness, s: Seq<u8>, t: Seq<u8>, i: int, value: u64)
    requires
        0 <= i,
        i + 8 <= s.len(),
        u64_at(endian, s, i) == value,
        lies_at(t, i, stored_u64(endian, value)),
    ensures
        forall|j: int| i <= j < i + 8 ==> s[j] == t[j],
{
    lemma_lengths(endian, 0, value);
    law_decoded_u64_is_stored(endian, s, i);
    lemma_same_part(s, t, i, stored_u64(endian, value));
}

/// Sequences agree where the same part lies in both.
proof fn lemma_same_part(s: Seq<u8>, t: Seq<u8>, i: int, part: Seq<u8>)
    requires
        lies_at(s, i, part),
        lies_at(t, i, part),
    ensures
        forall|j: int| i <= j < i + part.len() ==> s[j] == t[j],
{
    assert forall|j: int| i <= j < i + part.len() implies s[j] == t[j] by {
        assert(s.subrange(i, i + part.len())[j - i] == part[j - i]);
        assert(t.subrange(i, i + part.len())[j - i] == part[j - i]);
    }
}

/// A code load record is decoded if and only if its body has the forty bytes of the fixed fields,
/// a nul byte somewhere behind them, and behind the first such byte as many bytes as it announces.
pub proof fn law_when_a_code_load_is_decoded(endian: Endianness, body: Seq<u8>, k: int)
    requires
        40 <= k < body.len(),
        body[k] == 0,
        forall|j: int| 40 <= j < k ==> body[j] != 0,
    ensures
        (exists|n: int| #[trigger] code_load_complete(endian, body, n)) <==> k + 1 + u64_at(
            endian,
            body,
            24,
        ) <= body.len(),
{
    let rest = body.skip(40);
    assert(rest[k - 40] == 0u8);
    assert forall|j: int| 0 <= j < k - 40 implies rest[j] != 0u8 by {
        assert(rest[j] == body[40 + j]);
    }
    if k + 1 + u64_at(endian, body, 24) <= body.len() {
        assert(code_load_complete(endian, body, k - 40));
    }
    assert forall|n: int| #[trigger] code_load_complete(endian, body, n) implies n == k - 40 by {
        assert(rest[n] == 0u8);
    }
}

/// Without a nul byte behind its fixed fields, or without all of these, a code load record is not
/// decoded.
pub proof fn law_when_a_code_load_is_cut_off(endian: Endianness, body: Seq<u8>, n: int)
    requires
        forall|j: int| 40 <= j < body.len() ==> body[j] != 0,
    ensures
        !code_load_complete(endian, body, n),
{
    if code_load_complete(endian, body, n) {
        assert(body.skip(40)[n] == 0u8);
        assert(body[40 + n] == 0u8);
    }
}

/// The record that a reader gives for a stored record that starts at offset `from` in the file.
pub open spec fn record_of(endian: Endianness, entry: Entry, from: int) -> RecordView {
    RecordView {
        endian,
        start_offset: from,
        record_size: entry.size() as u32,
        record_type: JitDumpRecordType(entry.record_type),
        timestamp: entry.timestamp,
        body: entry.body,
    }
}

/// The records that a reader gives for stored records, of which the first starts at offset `from`
/// in the file.
pub open spec fn records_of(endian: Endianness, entries: Seq<Entry>, from: int) -> Seq<RecordView>
    decreases entries.len(),
{
    if entries.len() == 0 {
        Seq::empty()
    } else {
        seq![record_of(endian, entries[0], from)] + records_of(
            endian,
            entries.drop_first(),
            from + entries[0].size(),
        )
    }
}

/// Where the parts of a stored record lie.
proof fn lemma_stored_record_parts(endian: Endianness, entry: Entry, s: Seq<u8>, i: int)
    requires
        entry.size() <= u32::MAX,
        lies_at(s, i, stored_record(endian, entry)),
    ensures
        i + entry.size() <= s.len(),
        u32_at(endian, s, i) == entry.record_type,
        u32_at(endian, s, i + 4) == entry.size(),
        u64_at(endian, s, i + 8) == entry.timestamp,
        s.subrange(i + 16, i + entry.size()) == entry.body,
{
    let header = stored_record_header(
        endian,
        entry.record_type,
        entry.size() as u32,
        entry.timestamp,
    );
    let bytes = stored_record(endian, entry);
    lemma_record_header_parts(
        endian,
        entry.record_type,
        entry.size() as u32,
        entry.timestamp,
    );
    assert(bytes.subrange(0, 16) =~= header);
    assert(bytes.subrange(16, entry.size()) =~= entry.body);
    lemma_part_lies_at(s, i, bytes, 0, header);
    lemma_part_lies_at(s, i, bytes, 16, entry.body);
    law_stored_header_is_decoded(
        endian,
        s,
        i,
        entry.record_type,
        entry.size() as u32,
        entry.timestamp,
    );
}

/// Without recovery, a record of whatever type is read back as it was stored, and everything
/// behind it is left.
pub proof fn law_stored_record_is_read(state: ReaderState, entry: Entry)
    requires
        state.valid(),
        !state.recover,
        state.pending is None,
        entry.size() <= u32::MAX,
        lies_at(state.unread, 0, stored_record(state.endian, entry)),
    ensures
        state.next_size_covers_header(),
        state.next_record() == (
            Progress::Ready(Some(record_of(state.endian, entry, state.next_offset))),
            behind(state, entry.size()),
        ),
{
    lemma_stored_record_parts(state.endian, entry, state.unread, 0);
    law_next_record_without_recovery(state);
}

/// The content of a record.
pub open spec fn entry_of(record: RecordView) -> Entry {
    Entry {
        record_type: record.record_type.0,
        timestamp: record.timestamp,
        body: record.body,
    }
}

/// Every record that is read is stored in the stream at its offset, with its header, all of its
/// body, and nothing else.
pub proof fn law_read_record_was_stored(state: ReaderState)
    requires
        state.valid(),
        state.pending is None,
        state.next_size_covers_header(),
    ensures
        state.next_record().0 matches Progress::Ready(Some(record)) ==> {
            &&& record.record_size == entry_of(record).size()
            &&& lies_at(
                state.unread,
                record.start_offset - state.next_offset,
                stored_record(state.endian, entry_of(record)),
            )
        },
{
    law_record_is_read_as_stored(state);
    if state.next_record().0 matches Progress::Ready(Some(_)) {
        let record = state.next_record().0->Ready_0->0;
        let n = record.start_offset - state.next_offset;
        law_decoded_header_is_stored(
            state.endian,
            state.unread,
            n,
            JitDumpRecordHeader {
                record_type: record.record_type,
                total_size: record.record_size,
                timestamp: record.timestamp,
            },
        );
        lemma_record_header_parts(
            state.endian,
            record.record_type.0,
            record.record_size,
            record.timestamp,
        );
        lemma_join(
            state.unread,
            n,
            stored_record_header(
                state.endian,
                record.record_type.0,
                record.record_size,
                record.timestamp,
            ),
            record.body,
        );
    }
}

/// The bytes of a record header are those in which its fields are stored.
pub proof fn law_decoded_header_is_stored(
    endian: Endianness,
    s: Seq<u8>,
    i: int,
    header: JitDumpRecordHeader,
)
    requires
        0 <= i,
        i + 16 <= s.len(),
        is_header_at(header, endian, s, i),
    ensures
        lies_at(
            s,
            i,
            stored_record_header(
                endian,
                header.record_type.0,
                header.total_size,
                header.timestamp,
            ),
        ),
{
    let record_type = stored_u32(endian, header.record_type.0);
    let total_size = stored_u32(endian, header.total_size);
    reveal(stored_record_header);
    lemma_lengths(endian, header.record_type.0, header.timestamp);
    lemma_lengths(endian, header.total_size, header.timestamp);
    law_decoded_u32_is_stored(endian, s, i);
    law_decoded_u32_is_stored(endian, s, i + 4);
    law_decoded_u64_is_stored(endian, s, i + 8);
    lemma_join(s, i, record_type, total_size);
    lemma_join(s, i, record_type + total_size, stored_u64(endian, header.timestamp));
}

/// With recovery, a record of one of the types of the format that is followed by the header of
/// another such record, or by the end of the input, is read back as it was stored, and everything
/// behind it is left.
pub proof fn law_stored_record_is_recovered(
    state: ReaderState,
    entry: Entry,
    next_type: u32,
    next_size: u32,
    next_timestamp: u64,
)
    requires
        state.valid(),
        state.recover,
        state.pending is None,
        entry.size() <= u32::MAX,
        entry.record_type <= 4,
        next_type <= 4,
        next_size >= 16,
        lies_at(state.unread, 0, stored_record(state.endian, entry)),
        lies_at(
            state.unread,
            entry.size(),
            stored_record_header(state.endian, next_type, next_size, next_timestamp),
        ) || (state.ended && state.unread.len() == entry.size()),
    ensures
        state.next_size_covers_header(),
        state.next_record() == (
            Progress::Ready(Some(record_of(state.endian, entry, state.next_offset))),
            behind(state, entry.size()),
        ),
{
    let end = entry.size();
    lemma_stored_record_parts(state.endian, entry, state.unread, 0);
    if !(state.ended && state.unread.len() == end) {
        lemma_record_header_parts(state.endian, next_type, next_size, next_timestamp);
        law_stored_header_is_decoded(
            state.endian,
            state.unread,
            end,
            next_type,
            next_size,
            next_timestamp,
        );
        assert(announces_record(state.endian, state.unread, end));
    }
    assert(is_record_start(state.endian, state.unread, 0, state.ended));
    law_record_start_is_read(state, 0);
    law_next_size_covers_header(state);
}

/// The size of the next record covers its header, over the bytes: with recovery, the size of every
/// record that is found does; without, the second integer of the record says whether it does.
pub proof fn law_next_size_covers_header(state: ReaderState)
    requires
        state.valid(),
    ensures
        state.pending matches Some(header) ==> (state.next_size_covers_header()
            <==> header.total_size >= 16),
        state.pending is None && state.recover ==> state.next_size_covers_header(),
        state.pending is None && !state.recover ==> (state.next_size_covers_header()
            <==> state.unread.len() < 16 || u32_at(state.endian, state.unread, 4) >= 16),
{
    if state.pending is None && state.recover {
        law_next_header_with_recovery(state);
        law_recovered_header_is_known(state);
    }
}

/// The records of a file are read back as they were stored: all of them, in their order, each at
/// its offset, if what follows them is no complete record. Recovery is off.
pub proof fn law_stored_records_are_read(state: ReaderState, entries: Seq<Entry>, tail: Seq<u8>)
    requires
        state.valid(),
        !state.recover,
        state.pending is None,
        forall|k: int| 0 <= k < entries.len() ==> (#[trigger] entries[k]).size() <= u32::MAX,
        state.unread == stored_records(state.endian, entries) + tail,
        tail.len() < 16 || u32_at(state.endian, tail, 4) > tail.len(),
    ensures
        all_records(state) == records_of(state.endian, entries, state.next_offset),
    decreases entries.len(),
{
    let now = state.with_ended(true);
    if entries.len() == 0 {
        assert(state.unread =~= tail);
        law_next_record_without_recovery(now);
    } else {
        let rest = entries.drop_first();
        let size = entries[0].size();
        lemma_first_and_rest(state.endian, entries, tail);
        law_stored_record_is_read(now, entries[0]);
        law_stored_records_are_read(behind(now, size), rest, tail);
    }
}

/// The records of a file, each of one of the types of the format, are read back as they were
/// stored, whether recovery is on or off.
pub proof fn law_stored_records_are_recovered(state: ReaderState, entries: Seq<Entry>)
    requires
        state.valid(),
        state.pending is None,
        forall|k: int|
            0 <= k < entries.len() ==> (#[trigger] entries[k]).size() <= u32::MAX
                && entries[k].record_type <= 4,
        state.unread == stored_records(state.endian, entries),
    ensures
        all_records(state) == records_of(state.endian, entries, state.next_offset),
    decreases entries.len(),
{
    let now = state.with_ended(true);
    let none = Seq::<u8>::empty();
    if !state.recover {
        assert(state.unread =~= state.unread + none);
        law_stored_records_are_read(state, entries, none);
    } else if entries.len() == 0 {
        law_next_header_with_recovery(now);
    } else {
        let rest = entries.drop_first();
        let size = entries[0].size();
        assert(state.unread =~= state.unread + none);
        assert(stored_records(state.endian, rest) =~= stored_records(state.endian, rest) + none);
        lemma_first_and_rest(state.endian, entries, none);
        if rest.len() == 0 {
            law_stored_record_is_recovered(now, entries[0], 0, 16, 0);
        } else {
            assert(rest[0] == entries[1]);
            lemma_first_and_rest(state.endian, rest, none);
            lemma_next_header(state.endian, rest[0], state.unread, size);
            law_stored_record_is_recovered(
                now,
                entries[0],
                rest[0].record_type,
                rest[0].size() as u32,
                rest[0].timestamp,
            );
        }
        law_stored_records_are_recovered(behind(now, size), rest);
    }
}

/// The first of several stored records lies at the start, and the others behind it.
proof fn lemma_first_and_rest(endian: Endianness, entries: Seq<Entry>, tail: Seq<u8>)
    requires
        entries.len() > 0,
    ensures
        ({
            let s = stored_records(endian, entries) + tail;
            &&& lies_at(s, 0, stored_record(endian, entries[0]))
            &&& s.len() == entries[0].size() + stored_records(endian, entries.drop_first()).len()
                + tail.len()
            &&& s.skip(entries[0].size()) == stored_records(endian, entries.drop_first()) + tail
        }),
{
    let s = stored_records(endian, entries) + tail;
    let first = stored_record(endian, entries[0]);
    let rest = stored_records(endian, entries.drop_first());
    lemma_record_header_parts(
        endian,
        entries[0].record_type,
        entries[0].size() as u32,
        entries[0].timestamp,
    );
    assert(first.len() == entries[0].size());
    assert(s =~= first + (rest + tail));
    assert(s.subrange(0, first.len() as int) =~= first);
    assert(s.skip(entries[0].size()) =~= rest + tail);
}

/// The header of a stored record lies where the record does.
proof fn lemma_next_header(endian: Endianness, entry: Entry, s: Seq<u8>, i: int)
    requires
        0 <= i <= s.len(),
        lies_at(s.skip(i), 0, stored_record(endian, entry)),
    ensures
        lies_at(
            s,
            i,
            stored_record_header(
                endian,
                entry.record_type,
                entry.size() as u32,
                entry.timestamp,
            ),
        ),
{
    let header = stored_record_header(
        endian,
        entry.record_type,
        entry.size() as u32,
        entry.timestamp,
    );
    let bytes = stored_record(endian, entry);
    lemma_record_header_parts(
        endian,
        entry.record_type,
        entry.size() as u32,
        entry.timestamp,
    );
    assert(bytes.subrange(0, 16) =~= header);
    lemma_part_lies_at(s.skip(i), 0, bytes, 0, header);
    assert(s.subrange(i, i + 16) =~= s.skip(i).subrange(0, 16));
}

/// A whole file, its header and its records, is read back as it was stored, whether recovery is on
/// or off.
pub proof fn law_stored_file_is_read(
    endian: Endianness,
    file: FileHeader,
    gap: Seq<u8>,
    entries: Seq<Entry>,
    buffer_size: nat,
    result: Result<JitDumpReader, JitDumpError>,
    recover: bool,
)
    requires
        file.total_size == 40 + gap.len(),
        buffer_size >= 40,
        forall|k: int|
            0 <= k < entries.len() ==> (#[trigger] entries[k]).size() <= u32::MAX
                && entries[k].record_type <= 4,
        is_open_result(
            stored_file_header(endian, file) + gap + stored_records(endian, entries),
            buffer_size,
            result,
        ),
    ensures
        result matches Ok(reader) && {
            &&& is_file_header(reader@.header, endian, file)
            &&& all_records(ReaderState { recover, ..reader@ }) == records_of(
                endian,
                entries,
                file.total_size as int,
            )
        },
{
    let bytes = stored_file_header(endian, file);
    let records = stored_records(endian, entries);
    let data = bytes + gap + records;
    lemma_file_header_parts(endian, file);
    assert(data.subrange(0, 40) =~= bytes);
    assert(data.skip(file.total_size as int) =~= records);
    law_stored_file_is_opened(endian, file, data, buffer_size, result);
    law_stored_records_are_recovered(ReaderState { recover, ..result->Ok_0@ }, entries);
}

/// The bytes that arrive are read behind those that have arrived, once as many of them as lie
/// before the read position have been dropped. To report the end of the input changes nothing but
/// that it is known.
pub proof fn law_bytes_are_supplied(state: ReaderState, chunk: Seq<u8>, ended: bool)
    ensures
        state.owed == 0 ==> state.supplied(chunk) == (ReaderState {
            unread: state.unread + chunk,
            ended: false,
            ..state
        }),
        0 < state.owed <= chunk.len() ==> state.supplied(chunk) == (ReaderState {
            unread: state.unread + chunk.skip(state.owed as int),
            owed: 0,
            ended: false,
            ..state
        }),
        state.owed > chunk.len() ==> state.supplied(chunk) == (ReaderState {
            owed: (state.owed - chunk.len()) as nat,
            ended: false,
            ..state
        }),
        state.with_ended(ended) == (ReaderState { ended, ..state }),
{
    if state.owed == 0 {
        assert(chunk.skip(0) =~= chunk);
    } else if state.owed > chunk.len() {
        assert(state.unread + Seq::<u8>::empty() =~= state.unread);
    }
}

/// A record is skipped without recovery exactly when all of it has arrived, and everything behind
/// it is left. If only its header has arrived, the answer is the number of bytes that are missing.
pub proof fn law_skip_without_recovery(state: ReaderState)
    requires
        state.valid(),
        !state.recover,
        state.pending is None,
        state.unread.len() >= 16 ==> u32_at(state.endian, state.unread, 4) >= 16,
    ensures
        state.unread.len() < 16 ==> state.skip_next_record() == if state.ended {
            (SkipProgress::Ready(false), state.with_ended(false))
        } else {
            (SkipProgress::NeedBytes(16), state)
        },
        state.unread.len() >= 16 ==> {
            let size = u32_at(state.endian, state.unread, 4);
            let (progress, left) = state.skip_next_record();
            if state.unread.len() >= size {
                progress == SkipProgress::Ready(true) && left == behind(state, size as int)
            } else {
                &&& progress == SkipProgress::SeekForward((size - state.unread.len()) as u64)
                &&& left.pending matches Some(header)
                &&& is_header_at(header, state.endian, state.unread, 0)
                &&& left.unread == state.unread.skip(16)
                &&& left.next_offset == state.next_offset
            }
        },
{
    law_next_header_without_recovery(state);
    law_next_record_without_recovery(state);
}

/// With recovery, the start of a record behind nothing but what cannot be one is skipped to the end
/// of that record.
pub proof fn law_record_start_is_skipped(state: ReaderState, n: int)
    requires
        state.valid(),
        state.recover,
        state.pending is None,
        0 <= n,
        is_record_start(state.endian, state.unread, n, state.ended),
        forall|j: int|
            0 <= j < n ==> #[trigger] is_no_record_start(
                state.endian,
                state.unread,
                j,
                state.ended,
            ),
    ensures
        state.skip_next_record() == (
            SkipProgress::Ready(true),
            behind(state, n + u32_at(state.endian, state.unread, n + 4)),
        ),
{
    law_record_start_is_read(state, n);
    law_skip_agrees_with_next_record(state);
}

/// A record as a mathematical value is the record, and so is the outcome of reading it.
pub proof fn law_record_view(record: JitDumpRawRecord<'_>, needed: u64)
    ensures
        record@.endian == record.endian,
        record@.start_offset == record.start_offset,
        record@.record_size == record.record_size,
        record@.record_type == record.record_type,
        record@.timestamp == record.timestamp,
        record@.body == record.body@,
        record_progress(Progress::Ready(Some(record))) == Progress::Ready(Some(record@)),
        record_progress(Progress::Ready(None)) == Progress::<Option<RecordView>>::Ready(None),
        record_progress(Progress::NeedBytes(needed)) == Progress::<Option<RecordView>>::NeedBytes(
            needed,
        ),
{
}

} // verus!
