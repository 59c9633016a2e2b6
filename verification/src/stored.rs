//! How the values of a jitdump file are stored, and that what is stored is what is decoded.
//!
//! A writer is not part of this crate. What one writes is defined here, byte by byte, and held
//! against the reader: whatever is stored, the reader gives back, and whatever the reader gives
//! back is what the bytes say.

use crate::bytes::{u32_at, u64_at, Endianness};
use vstd::prelude::*;

verus! {

/// The four bytes in which an integer is stored.
#[verifier::opaque]
pub open spec fn stored_u32(endian: Endianness, value: u32) -> Seq<u8> {
    let b0 = (value % 0x100) as u8;
    let b1 = (value / 0x100 % 0x100) as u8;
    let b2 = (value / 0x1_0000 % 0x100) as u8;
    let b3 = (value / 0x100_0000 % 0x100) as u8;
    match endian {
        Endianness::LittleEndian => seq![b0, b1, b2, b3],
        Endianness::BigEndian => seq![b3, b2, b1, b0],
    }
}

/// The eight bytes in which an integer is stored.
#[verifier::opaque]
pub open spec fn stored_u64(endian: Endianness, value: u64) -> Seq<u8> {
    let low = stored_u32(endian, (value % 0x1_0000_0000) as u32);
    let high = stored_u32(endian, (value / 0x1_0000_0000) as u32);
    match endian {
        Endianness::LittleEndian => low + high,
        Endianness::BigEndian => high + low,
    }
}

/// The sixteen bytes in which a record header is stored.
#[verifier::opaque]
pub open spec fn stored_record_header(
    endian: Endianness,
    record_type: u32,
    total_size: u32,
    timestamp: u64,
) -> Seq<u8> {
    stored_u32(endian, record_type) + stored_u32(endian, total_size) + stored_u64(endian, timestamp)
}

/// The content of a record.
pub struct Entry {
    pub record_type: u32,
    pub timestamp: u64,
    pub body: Seq<u8>,
}

impl Entry {
    /// The size of the record in bytes, its header included.
    pub open spec fn size(self) -> int {
        16 + self.body.len() as int
    }
}

/// The bytes in which a record is stored.
pub open spec fn stored_record(endian: Endianness, entry: Entry) -> Seq<u8> {
    stored_record_header(endian, entry.record_type, entry.size() as u32, entry.timestamp)
        + entry.body
}

/// The bytes in which records are stored, one behind the other.
pub open spec fn stored_records(endian: Endianness, entries: Seq<Entry>) -> Seq<u8>
    decreases entries.len(),
{
    if entries.len() == 0 {
        Seq::empty()
    } else {
        stored_record(endian, entries[0]) + stored_records(endian, entries.drop_first())
    }
}

/// The four bytes with which a file starts: `DTiJ` or `JiTD`.
pub open spec fn stored_magic(endian: Endianness) -> Seq<u8> {
    match endian {
        Endianness::LittleEndian => seq![0x44u8, 0x54u8, 0x69u8, 0x4Au8],
        Endianness::BigEndian => seq![0x4Au8, 0x69u8, 0x54u8, 0x44u8],
    }
}

/// The content of a file header. The four bytes of padding carry no meaning.
pub struct FileHeader {
    pub version: u32,
    pub total_size: u32,
    pub elf_machine_arch: u32,
    pub padding: u32,
    pub pid: u32,
    pub timestamp: u64,
    pub flags: u64,
}

/// The forty bytes in which a file header is stored.
#[verifier::opaque]
pub open spec fn stored_file_header(endian: Endianness, header: FileHeader) -> Seq<u8> {
    stored_magic(endian) + stored_u32(endian, header.version) + stored_u32(
        endian,
        header.total_size,
    ) + stored_u32(endian, header.elf_machine_arch) + stored_u32(endian, header.padding)
        + stored_u32(endian, header.pid) + stored_u64(endian, header.timestamp) + stored_u64(
        endian,
        header.flags,
    )
}

/// The content of a code load record.
pub struct CodeLoad {
    pub pid: u32,
    pub tid: u32,
    pub vma: u64,
    pub code_addr: u64,
    pub code_index: u64,
    pub function_name: Seq<u8>,
    pub code_bytes: Seq<u8>,
}

/// The bytes in which the body of a code load record is stored.
#[verifier::opaque]
pub open spec fn stored_code_load(endian: Endianness, load: CodeLoad) -> Seq<u8> {
    stored_u32(endian, load.pid) + stored_u32(endian, load.tid) + stored_u64(endian, load.vma)
        + stored_u64(endian, load.code_addr) + stored_u64(endian, load.code_bytes.len() as u64)
        + stored_u64(endian, load.code_index) + load.function_name + seq![0u8] + load.code_bytes
}

/// `bytes` lie in `s` at position `i`.
pub open spec fn lies_at(s: Seq<u8>, i: int, bytes: Seq<u8>) -> bool {
    &&& 0 <= i
    &&& i + bytes.len() <= s.len()
    &&& s.subrange(i, i + bytes.len()) == bytes
}

/// A part of what lies somewhere lies there too.
pub proof fn lemma_part_lies_at(s: Seq<u8>, i: int, bytes: Seq<u8>, from: int, part: Seq<u8>)
    requires
        lies_at(s, i, bytes),
        lies_at(bytes, from, part),
    ensures
        lies_at(s, i + from, part),
{
    assert(s.subrange(i + from, i + from + part.len()) =~= s.subrange(i, i + bytes.len()).subrange(
        from,
        from + part.len(),
    ));
}

/// Where the parts lie that a sequence is put together from.
proof fn lemma_parts_lie_at(a: Seq<u8>, b: Seq<u8>, c: Seq<u8>, d: Seq<u8>, e: Seq<u8>, f: Seq<u8>)
    ensures
        ({
            let bytes = a + b + c + d + e + f;
            &&& bytes.len() == a.len() + b.len() + c.len() + d.len() + e.len() + f.len()
            &&& lies_at(bytes, 0, a)
            &&& lies_at(bytes, a.len() as int, b)
            &&& lies_at(bytes, (a.len() + b.len()) as int, c)
            &&& lies_at(bytes, (a.len() + b.len() + c.len()) as int, d)
            &&& lies_at(bytes, (a.len() + b.len() + c.len() + d.len()) as int, e)
            &&& lies_at(bytes, (a.len() + b.len() + c.len() + d.len() + e.len()) as int, f)
        }),
{
    let bytes = a + b + c + d + e + f;
    let at_b = a.len() as int;
    let at_c = at_b + b.len();
    let at_d = at_c + c.len();
    let at_e = at_d + d.len();
    let at_f = at_e + e.len();
    assert(bytes.subrange(0, at_b) =~= a);
    assert(bytes.subrange(at_b, at_c) =~= b);
    assert(bytes.subrange(at_c, at_d) =~= c);
    assert(bytes.subrange(at_d, at_e) =~= d);
    assert(bytes.subrange(at_e, at_f) =~= e);
    assert(bytes.subrange(at_f, at_f + f.len()) =~= f);
}

/// Where the fields of a stored file header lie.
pub(crate) proof fn lemma_file_header_parts(endian: Endianness, file: FileHeader)
    ensures
        ({
            let bytes = stored_file_header(endian, file);
            &&& bytes.len() == 40
            &&& lies_at(bytes, 0, stored_magic(endian))
            &&& lies_at(bytes, 4, stored_u32(endian, file.version))
            &&& lies_at(bytes, 8, stored_u32(endian, file.total_size))
            &&& lies_at(bytes, 12, stored_u32(endian, file.elf_machine_arch))
            &&& lies_at(bytes, 20, stored_u32(endian, file.pid))
            &&& lies_at(bytes, 24, stored_u64(endian, file.timestamp))
            &&& lies_at(bytes, 32, stored_u64(endian, file.flags))
        }),
{
    reveal(stored_file_header);
    let bytes = stored_file_header(endian, file);
    let front = stored_magic(endian) + stored_u32(endian, file.version) + stored_u32(
        endian,
        file.total_size,
    ) + stored_u32(endian, file.elf_machine_arch) + stored_u32(endian, file.padding) + stored_u32(
        endian,
        file.pid,
    );
    lemma_lengths(endian, file.version, file.timestamp);
    lemma_lengths(endian, file.total_size, file.flags);
    lemma_lengths(endian, file.elf_machine_arch, 0);
    lemma_lengths(endian, file.padding, 0);
    lemma_lengths(endian, file.pid, 0);
    lemma_parts_lie_at(
        stored_magic(endian),
        stored_u32(endian, file.version),
        stored_u32(endian, file.total_size),
        stored_u32(endian, file.elf_machine_arch),
        stored_u32(endian, file.padding),
        stored_u32(endian, file.pid),
    );
    lemma_parts_lie_at(
        front,
        stored_u64(endian, file.timestamp),
        stored_u64(endian, file.flags),
        Seq::empty(),
        Seq::empty(),
        Seq::empty(),
    );
    let empty = Seq::<u8>::empty();
    assert(bytes =~= front + stored_u64(endian, file.timestamp) + stored_u64(endian, file.flags)
        + empty + empty + empty);
    lemma_part_lies_at(bytes, 0, front, 0, stored_magic(endian));
    lemma_part_lies_at(bytes, 0, front, 4, stored_u32(endian, file.version));
    lemma_part_lies_at(bytes, 0, front, 8, stored_u32(endian, file.total_size));
    lemma_part_lies_at(bytes, 0, front, 12, stored_u32(endian, file.elf_machine_arch));
    lemma_part_lies_at(bytes, 0, front, 20, stored_u32(endian, file.pid));
}

/// How many bytes integers and the magic bytes take up.
pub(crate) proof fn lemma_lengths(endian: Endianness, n: u32, m: u64)
    ensures
        stored_u32(endian, n).len() == 4,
        stored_u64(endian, m).len() == 8,
        stored_magic(endian).len() == 4,
{
    reveal(stored_u32);
    reveal(stored_u64);
}

/// Where the fields of a stored record header lie.
pub(crate) proof fn lemma_record_header_parts(
    endian: Endianness,
    record_type: u32,
    total_size: u32,
    timestamp: u64,
)
    ensures
        ({
            let bytes = stored_record_header(endian, record_type, total_size, timestamp);
            &&& bytes.len() == 16
            &&& lies_at(bytes, 0, stored_u32(endian, record_type))
            &&& lies_at(bytes, 4, stored_u32(endian, total_size))
            &&& lies_at(bytes, 8, stored_u64(endian, timestamp))
        }),
{
    reveal(stored_record_header);
    let bytes = stored_record_header(endian, record_type, total_size, timestamp);
    lemma_lengths(endian, record_type, timestamp);
    lemma_lengths(endian, total_size, timestamp);
    assert(bytes.subrange(0, 4) =~= stored_u32(endian, record_type));
    assert(bytes.subrange(4, 8) =~= stored_u32(endian, total_size));
    assert(bytes.subrange(8, 16) =~= stored_u64(endian, timestamp));
}

/// Where the parts of the stored body of a code load record lie.
pub(crate) proof fn lemma_code_load_parts(endian: Endianness, load: CodeLoad)
    ensures
        ({
            let bytes = stored_code_load(endian, load);
            let n = load.function_name.len() as int;
            &&& bytes.len() == 41 + n + load.code_bytes.len()
            &&& lies_at(bytes, 0, stored_u32(endian, load.pid))
            &&& lies_at(bytes, 4, stored_u32(endian, load.tid))
            &&& lies_at(bytes, 8, stored_u64(endian, load.vma))
            &&& lies_at(bytes, 16, stored_u64(endian, load.code_addr))
            &&& lies_at(bytes, 24, stored_u64(endian, load.code_bytes.len() as u64))
            &&& lies_at(bytes, 32, stored_u64(endian, load.code_index))
            &&& lies_at(bytes, 40, load.function_name)
            &&& lies_at(bytes, 40 + n, seq![0u8])
            &&& lies_at(bytes, 41 + n, load.code_bytes)
        }),
{
    reveal(stored_code_load);
    let bytes = stored_code_load(endian, load);
    let size = load.code_bytes.len() as u64;
    let n = load.function_name.len() as int;
    let front = stored_u32(endian, load.pid) + stored_u32(endian, load.tid) + stored_u64(
        endian,
        load.vma,
    ) + stored_u64(endian, load.code_addr) + stored_u64(endian, size) + stored_u64(
        endian,
        load.code_index,
    );
    lemma_lengths(endian, load.pid, load.vma);
    lemma_lengths(endian, load.tid, load.code_addr);
    lemma_lengths(endian, 0, size);
    lemma_lengths(endian, 0, load.code_index);
    lemma_parts_lie_at(
        stored_u32(endian, load.pid),
        stored_u32(endian, load.tid),
        stored_u64(endian, load.vma),
        stored_u64(endian, load.code_addr),
        stored_u64(endian, size),
        stored_u64(endian, load.code_index),
    );
    lemma_parts_lie_at(
        front,
        load.function_name,
        seq![0u8],
        load.code_bytes,
        Seq::empty(),
        Seq::empty(),
    );
    let empty = Seq::<u8>::empty();
    assert(bytes =~= front + load.function_name + seq![0u8] + load.code_bytes + empty + empty);
    lemma_part_lies_at(bytes, 0, front, 0, stored_u32(endian, load.pid));
    lemma_part_lies_at(bytes, 0, front, 4, stored_u32(endian, load.tid));
    lemma_part_lies_at(bytes, 0, front, 8, stored_u64(endian, load.vma));
    lemma_part_lies_at(bytes, 0, front, 16, stored_u64(endian, load.code_addr));
    lemma_part_lies_at(bytes, 0, front, 24, stored_u64(endian, size));
    lemma_part_lies_at(bytes, 0, front, 32, stored_u64(endian, load.code_index));
}

/// An integer is decoded to the value that was stored.
pub proof fn law_stored_u32_is_decoded(endian: Endianness, s: Seq<u8>, i: int, value: u32)
    requires
        lies_at(s, i, stored_u32(endian, value)),
    ensures
        u32_at(endian, s, i) == value,
{
    reveal(stored_u32);
    let bytes = s.subrange(i, i + 4);
    assert(bytes =~= stored_u32(endian, value));
    assert(bytes[0] == s[i] && bytes[1] == s[i + 1] && bytes[2] == s[i + 2] && bytes[3] == s[i + 3]);
}

/// An integer is decoded to the value that was stored.
pub proof fn law_stored_u64_is_decoded(endian: Endianness, s: Seq<u8>, i: int, value: u64)
    requires
        lies_at(s, i, stored_u64(endian, value)),
    ensures
        u64_at(endian, s, i) == value,
{
    let (first, second) = halves(endian, value);
    lemma_lengths(endian, first, value);
    lemma_halves_lie_at(endian, value);
    lemma_part_lies_at(s, i, stored_u64(endian, value), 0, stored_u32(endian, first));
    lemma_part_lies_at(s, i, stored_u64(endian, value), 4, stored_u32(endian, second));
    law_stored_u32_is_decoded(endian, s, i, first);
    law_stored_u32_is_decoded(endian, s, i + 4, second);
}

/// The integers that the first and the last four of eight bytes store.
spec fn halves(endian: Endianness, value: u64) -> (u32, u32) {
    let low = (value % 0x1_0000_0000) as u32;
    let high = (value / 0x1_0000_0000) as u32;
    match endian {
        Endianness::LittleEndian => (low, high),
        Endianness::BigEndian => (high, low),
    }
}

/// Where the halves of an integer lie.
proof fn lemma_halves_lie_at(endian: Endianness, value: u64)
    ensures
        lies_at(stored_u64(endian, value), 0, stored_u32(endian, halves(endian, value).0)),
        lies_at(stored_u64(endian, value), 4, stored_u32(endian, halves(endian, value).1)),
        stored_u64(endian, value) == stored_u32(endian, halves(endian, value).0) + stored_u32(
            endian,
            halves(endian, value).1,
        ),
{
    reveal(stored_u64);
    let (first, second) = halves(endian, value);
    let bytes = stored_u64(endian, value);
    lemma_lengths(endian, first, value);
    lemma_lengths(endian, second, value);
    assert(bytes.subrange(0, 4) =~= stored_u32(endian, first));
    assert(bytes.subrange(4, 8) =~= stored_u32(endian, second));
}

/// The bytes of an integer are those in which its decoded value is stored: no two sequences of
/// bytes are decoded to the same value.
pub proof fn law_decoded_u32_is_stored(endian: Endianness, s: Seq<u8>, i: int)
    requires
        0 <= i,
        i + 4 <= s.len(),
    ensures
        lies_at(s, i, stored_u32(endian, u32_at(endian, s, i))),
{
    reveal(stored_u32);
    match endian {
        Endianness::LittleEndian => lemma_digits(s[i], s[i + 1], s[i + 2], s[i + 3]),
        Endianness::BigEndian => lemma_digits(s[i + 3], s[i + 2], s[i + 1], s[i]),
    }
    assert(s.subrange(i, i + 4) =~= stored_u32(endian, u32_at(endian, s, i)));
}

/// The base 256 digits of a number.
proof fn lemma_digits(b0: u8, b1: u8, b2: u8, b3: u8)
    ensures
        ({
            let value = (b0 + 0x100 * b1 + 0x1_0000 * b2 + 0x100_0000 * b3) as u32;
            &&& value % 0x100 == b0
            &&& value / 0x100 % 0x100 == b1
            &&& value / 0x1_0000 % 0x100 == b2
            &&& value / 0x100_0000 % 0x100 == b3
        }),
{
    let value = (b0 + 0x100 * b1 + 0x1_0000 * b2 + 0x100_0000 * b3) as u32;
    assert(value / 0x100 == b1 + 0x100 * b2 + 0x1_0000 * b3);
    assert(value / 0x1_0000 == b2 + 0x100 * b3);
    assert(value / 0x100_0000 == b3);
}

/// The bytes of an integer are those in which its decoded value is stored: no two sequences of
/// bytes are decoded to the same value.
pub proof fn law_decoded_u64_is_stored(endian: Endianness, s: Seq<u8>, i: int)
    requires
        0 <= i,
        i + 8 <= s.len(),
    ensures
        lies_at(s, i, stored_u64(endian, u64_at(endian, s, i))),
{
    let value = u64_at(endian, s, i);
    let first = u32_at(endian, s, i);
    let second = u32_at(endian, s, i + 4);
    assert(halves(endian, value) == (first, second)) by {
        match endian {
            Endianness::LittleEndian => lemma_halves(first, second),
            Endianness::BigEndian => lemma_halves(second, first),
        }
    }
    law_decoded_u32_is_stored(endian, s, i);
    law_decoded_u32_is_stored(endian, s, i + 4);
    lemma_lengths(endian, first, value);
    lemma_lengths(endian, second, value);
    lemma_halves_lie_at(endian, value);
    lemma_join(s, i, stored_u32(endian, first), stored_u32(endian, second));
}

/// The base 2^32 digits of a number.
proof fn lemma_halves(low: u32, high: u32)
    ensures
        ({
            let value = (low + 0x1_0000_0000 * high) as u64;
            &&& value % 0x1_0000_0000 == low
            &&& value / 0x1_0000_0000 == high
        }),
{
}

/// What lies one behind the other lies there together.
pub(crate) proof fn lemma_join(s: Seq<u8>, i: int, first: Seq<u8>, second: Seq<u8>)
    requires
        lies_at(s, i, first),
        lies_at(s, i + first.len(), second),
    ensures
        lies_at(s, i, first + second),
{
    assert(s.subrange(i, i + first.len() + second.len()) =~= s.subrange(i, i + first.len())
        + s.subrange(i + first.len(), i + first.len() + second.len()));
}

} // verus!
