use jitdump::{
    is_known_record_header, seek_target, Endianness, JitDumpError, JitDumpReader, JitDumpRecord, JitDumpRecordHeader, JitDumpRecordType,
    Progress, RecordSizeTooSmall, SkipProgress, UnexpectedEof,
};

fn u32_bytes(le: bool, value: u32) -> [u8; 4] {
    if le {
        value.to_le_bytes()
    } else {
        value.to_be_bytes()
    }
}

fn u64_bytes(le: bool, value: u64) -> [u8; 8] {
    if le {
        value.to_le_bytes()
    } else {
        value.to_be_bytes()
    }
}

fn file_header(le: bool, total_size: u32) -> Vec<u8> {
    let mut h = if le {
        b"DTiJ".to_vec()
    } else {
        b"JiTD".to_vec()
    };
    h.extend_from_slice(&u32_bytes(le, 1));
    h.extend_from_slice(&u32_bytes(le, total_size));
    h.extend_from_slice(&u32_bytes(le, 62));
    h.extend_from_slice(&u32_bytes(le, 0xAAAA_AAAA));
    h.extend_from_slice(&u32_bytes(le, 0x0102_0304));
    h.extend_from_slice(&u64_bytes(le, 0x1122_3344_5566_7788));
    h.extend_from_slice(&u64_bytes(le, 1));
    h
}

fn record(le: bool, record_type: u32, timestamp: u64, body: &[u8]) -> Vec<u8> {
    let mut r = Vec::new();
    r.extend_from_slice(&u32_bytes(le, record_type));
    r.extend_from_slice(&u32_bytes(le, 16 + body.len() as u32));
    r.extend_from_slice(&u64_bytes(le, timestamp));
    r.extend_from_slice(body);
    r
}

/// A file with records of 19, 16 and 22 bytes.
fn three_records(le: bool) -> Vec<u8> {
    let mut data = file_header(le, 40);
    data.extend(record(le, 1, 10, &[1, 2, 3]));
    data.extend(record(le, 3, 20, &[]));
    data.extend(record(le, 4, 30, &[6, 5, 4, 3, 2, 1]));
    data
}

/// Reads all records, and hands the file over in chunks of the given size.
fn read_in_chunks(data: &[u8], chunk_size: usize, recover: bool) -> Vec<(u64, u32, u64, Vec<u8>)> {
    let mut reader = JitDumpReader::new(data[..40].to_vec())
        .unwrap()
        .recover_from_corruption(recover);
    let mut position = 40;
    let mut records = Vec::new();
    loop {
        match reader.next_record() {
            Progress::Ready(Some(raw)) => records.push((
                raw.start_offset,
                raw.record_type.0,
                raw.timestamp,
                raw.body.to_vec(),
            )),
            Progress::Ready(None) => return records,
            Progress::NeedBytes(needed) => {
                assert!(needed > reader.available() as u64);
                let end = std::cmp::min(position + chunk_size, data.len());
                if position == end {
                    reader.end_of_input();
                } else {
                    reader.supply(&data[position..end]);
                    position = end;
                }
            }
        }
    }
}

#[test]
fn file_header_is_decoded_in_both_byte_orders() {
    for le in [true, false] {
        let reader = JitDumpReader::new(file_header(le, 40)).unwrap();
        let header = reader.header();
        assert_eq!(&header.magic, if le { b"DTiJ" } else { b"JiTD" });
        assert_eq!(header.version, 1);
        assert_eq!(header.total_size, 40);
        assert_eq!(header.elf_machine_arch, 62);
        assert_eq!(header.pid, 0x0102_0304);
        assert_eq!(header.timestamp, 0x1122_3344_5566_7788);
        assert_eq!(header.flags, 1);
        assert_eq!(reader.next_record_offset(), 40);
        let expected = if le {
            Endianness::LittleEndian
        } else {
            Endianness::BigEndian
        };
        assert_eq!(reader.endian(), expected);
    }
}

#[test]
fn short_or_foreign_files_are_refused() {
    let full = file_header(true, 40);
    assert_eq!(
        JitDumpReader::new(Vec::new()).unwrap_err(),
        JitDumpError::NotEnoughDataForHeader
    );
    assert_eq!(
        JitDumpReader::new(full[..3].to_vec()).unwrap_err(),
        JitDumpError::NotEnoughDataForHeader
    );
    assert_eq!(
        JitDumpReader::new(full[..39].to_vec()).unwrap_err(),
        JitDumpError::NotEnoughDataForHeader
    );
    assert_eq!(
        JitDumpReader::new(b"\x7fELF and more".to_vec()).unwrap_err(),
        JitDumpError::InvalidMagicBytes(*b"\x7fELF")
    );
    assert!(JitDumpReader::new(full).is_ok());
}

#[test]
fn buffer_has_to_hold_the_file_header_and_no_more() {
    let data = three_records(true);
    assert_eq!(
        JitDumpReader::new_with_buffer_size(data.clone(), 39).unwrap_err(),
        JitDumpError::NotEnoughDataForHeader
    );
    for size in [40, 41, 64, 4096] {
        let mut reader = JitDumpReader::new_with_buffer_size(data.clone(), size).unwrap();
        match reader.next_record() {
            Progress::Ready(Some(raw)) => assert_eq!(raw.body, &[1, 2, 3]),
            other => panic!("{other:?}"),
        }
    }
}

#[test]
fn first_record_starts_where_the_file_header_says() {
    let mut data = file_header(true, 48);
    data.extend_from_slice(&[0xEE; 8]);
    data.extend(record(true, 0, 7, &[9]));
    // All of it at once, and with the extra header bytes still to come.
    for first in [40, 44, 48, 50, data.len()] {
        let mut reader = JitDumpReader::new(data[..first].to_vec()).unwrap();
        assert_eq!(reader.next_record_offset(), 48);
        if first < data.len() {
            assert_eq!(reader.next_record_timestamp(), Progress::NeedBytes(16));
            reader.supply(&data[first..first + 1]);
            reader.supply(&data[first + 1..]);
        }
        assert_eq!(reader.next_record_timestamp(), Progress::Ready(Some(7)));
        match reader.next_record() {
            Progress::Ready(Some(raw)) => {
                assert_eq!(raw.start_offset, 48);
                assert_eq!(raw.record_size, 17);
                assert_eq!(raw.body, &[9]);
            }
            other => panic!("{other:?}"),
        }
        assert_eq!(reader.next_record_offset(), 65);
    }
}

#[test]
fn records_are_the_same_in_pieces_of_any_size() {
    for le in [true, false] {
        let data = three_records(le);
        let expected = vec![
            (40, 1, 10, vec![1, 2, 3]),
            (59, 3, 20, vec![]),
            (75, 4, 30, vec![6, 5, 4, 3, 2, 1]),
        ];
        for chunk_size in [1, 2, 3, 7, 16, 17, 100] {
            assert_eq!(read_in_chunks(&data, chunk_size, false), expected);
            assert_eq!(read_in_chunks(&data, chunk_size, true), expected);
        }
    }
}

#[test]
fn corruption_is_skipped_in_pieces_of_any_size() {
    let mut data = file_header(true, 40);
    data.extend_from_slice(&[0xFF; 5]);
    data.extend(record(true, 1, 10, &[1, 2, 3]));
    data.extend(record(true, 3, 20, &[]));
    let expected = vec![(45, 1, 10, vec![1, 2, 3]), (64, 3, 20, vec![])];
    for chunk_size in [1, 2, 3, 7, 16, 17, 100] {
        assert_eq!(read_in_chunks(&data, chunk_size, true), expected);
    }
}

#[test]
fn record_types_outside_of_the_format_are_skipped_only_in_recovery() {
    let mut data = file_header(true, 40);
    data.extend(record(true, 5, 10, &[0xFF; 3]));
    data.extend(record(true, 4, 20, &[1]));
    assert_eq!(
        read_in_chunks(&data, 64, false),
        vec![(40, 5, 10, vec![0xFF; 3]), (59, 4, 20, vec![1])]
    );
    assert_eq!(read_in_chunks(&data, 64, true), vec![(59, 4, 20, vec![1])]);
}

#[test]
fn record_in_front_of_a_header_that_is_not_known_is_skipped_in_recovery() {
    let mut data = file_header(true, 40);
    data.extend(record(true, 1, 10, &[0xFF; 3]));
    data.extend_from_slice(&[0xFF; 16]);
    data.extend(record(true, 4, 20, &[1]));
    assert_eq!(read_in_chunks(&data, 64, true), vec![(75, 4, 20, vec![1])]);
}

#[test]
fn nothing_but_corruption_leaves_too_few_bytes_for_a_header() {
    let mut data = file_header(true, 40);
    data.extend_from_slice(&[0xFF; 30]);
    let mut reader = JitDumpReader::new(data)
        .unwrap()
        .recover_from_corruption(true);
    assert_eq!(reader.next_record_header(), Progress::NeedBytes(16));
    reader.end_of_input();
    assert_eq!(reader.next_record_header(), Progress::Ready(None));
    assert_eq!(reader.available(), 15);
    assert_eq!(reader.next_record_offset(), 55);
}

#[test]
fn header_stays_until_the_record_is_read() {
    let data = three_records(true);
    let mut reader = JitDumpReader::new(data).unwrap();
    let expected = JitDumpRecordHeader {
        record_type: JitDumpRecordType(JitDumpRecordType::JIT_CODE_MOVE),
        total_size: 19,
        timestamp: 10,
    };
    assert_eq!(reader.next_record_header(), Progress::Ready(Some(expected)));
    reader.supply(&[7]);
    assert_eq!(reader.next_record_header(), Progress::Ready(Some(expected)));
    assert_eq!(reader.next_record_timestamp(), Progress::Ready(Some(10)));
    assert_eq!(
        reader.next_record_type(),
        Progress::Ready(Some(JitDumpRecordType(1)))
    );
    assert_eq!(reader.next_record_offset(), 40);
    assert!(matches!(reader.next_record(), Progress::Ready(Some(_))));
    assert_eq!(reader.next_record_offset(), 59);
    assert_eq!(
        reader.next_record_type(),
        Progress::Ready(Some(JitDumpRecordType(3)))
    );
}

#[test]
fn cut_off_record_is_returned_once_it_is_complete() {
    let data = three_records(true);
    let mut reader = JitDumpReader::new(data[..57].to_vec()).unwrap();
    assert_eq!(reader.next_record_timestamp(), Progress::Ready(Some(10)));
    assert!(matches!(reader.next_record(), Progress::NeedBytes(3)));
    reader.end_of_input();
    assert!(matches!(reader.next_record(), Progress::Ready(None)));
    // The next call asks for input again.
    assert!(matches!(reader.next_record(), Progress::NeedBytes(3)));
    assert_eq!(reader.next_record_offset(), 40);
    reader.supply(&data[57..60]);
    match reader.next_record() {
        Progress::Ready(Some(raw)) => {
            assert_eq!(raw.start_offset, 40);
            assert_eq!(raw.body, &[1, 2, 3]);
        }
        other => panic!("{other:?}"),
    }
}

#[test]
fn partial_file_gives_the_first_records() {
    let data = three_records(true);
    let all = read_in_chunks(&data, 64, false);
    for len in 40..=data.len() {
        let some = read_in_chunks(&data[..len], 64, false);
        assert_eq!(some, all[..some.len()]);
    }
}

#[test]
fn skipped_record_leaves_the_state_of_one_that_was_read() {
    let data = three_records(true);
    let mut reader = JitDumpReader::new(data).unwrap();
    assert_eq!(reader.skip_next_record(), SkipProgress::Ready(true));
    assert_eq!(reader.next_record_offset(), 59);
    assert_eq!(reader.skip_next_record(), SkipProgress::Ready(true));
    match reader.next_record() {
        Progress::Ready(Some(raw)) => {
            assert_eq!(raw.start_offset, 75);
            assert_eq!(raw.body, &[6, 5, 4, 3, 2, 1]);
        }
        other => panic!("{other:?}"),
    }
    assert_eq!(reader.skip_next_record(), SkipProgress::NeedBytes(16));
    reader.end_of_input();
    assert_eq!(reader.skip_next_record(), SkipProgress::Ready(false));
}

#[test]
fn record_that_has_not_arrived_is_skipped_by_moving_the_stream() {
    let data = three_records(true);
    let mut reader = JitDumpReader::new(data[..57].to_vec()).unwrap();
    assert_eq!(reader.skip_next_record(), SkipProgress::SeekForward(2));
    // The stream is too short: the record is still there.
    assert!(!reader.finish_skip(false));
    assert_eq!(reader.next_record_offset(), 40);
    assert_eq!(reader.next_record_timestamp(), Progress::Ready(Some(10)));
    assert_eq!(reader.skip_next_record(), SkipProgress::SeekForward(2));
    // The stream was moved by two bytes.
    assert!(reader.finish_skip(true));
    assert_eq!(reader.next_record_offset(), 59);
    reader.supply(&data[59..]);
    assert_eq!(reader.next_record_timestamp(), Progress::Ready(Some(20)));
}

#[test]
fn code_load_record_is_decoded_in_both_byte_orders() {
    for le in [true, false] {
        let mut body = Vec::new();
        body.extend_from_slice(&u32_bytes(le, 11));
        body.extend_from_slice(&u32_bytes(le, 12));
        body.extend_from_slice(&u64_bytes(le, 0x1000));
        body.extend_from_slice(&u64_bytes(le, 0x2000));
        body.extend_from_slice(&u64_bytes(le, 3));
        body.extend_from_slice(&u64_bytes(le, 77));
        body.extend_from_slice(b"main\0");
        body.extend_from_slice(&[0x90, 0, 0xC3]);
        let mut data = file_header(le, 40);
        data.extend(record(le, JitDumpRecordType::JIT_CODE_LOAD, 1, &body));
        let mut reader = JitDumpReader::new(data).unwrap();
        match reader.next_record() {
            Progress::Ready(Some(raw)) => match raw.parse().unwrap() {
                JitDumpRecord::CodeLoad(load) => {
                    assert_eq!(load.pid, 11);
                    assert_eq!(load.tid, 12);
                    assert_eq!(load.vma, 0x1000);
                    assert_eq!(load.code_addr, 0x2000);
                    assert_eq!(load.code_size, 3);
                    assert_eq!(load.code_index, 77);
                    assert_eq!(load.function_name, b"main");
                    assert_eq!(load.code_bytes, &[0x90, 0, 0xC3]);
                }
                other => panic!("{other:?}"),
            },
            other => panic!("{other:?}"),
        }
    }
}

#[test]
fn code_load_record_that_is_too_short_is_refused() {
    let mut body = vec![0; 40];
    body[24] = 2;
    body.extend_from_slice(b"f\0");
    body.extend_from_slice(&[1, 2]);
    // Cut off in the code, before the end of the name, and in the fields before it.
    for (len, ok) in [(44, true), (43, false), (41, false), (40, false), (39, false)] {
        let mut data = file_header(true, 40);
        data.extend(record(true, 0, 1, &body[..len]));
        let mut reader = JitDumpReader::new(data).unwrap();
        match reader.next_record() {
            Progress::Ready(Some(raw)) => {
                let result = raw.parse();
                assert_eq!(result.is_ok(), ok);
                if !ok {
                    assert_eq!(result.unwrap_err(), UnexpectedEof);
                }
            }
            other => panic!("{other:?}"),
        }
    }
}

#[test]
fn record_of_another_type_is_handed_back() {
    let data = three_records(true);
    let mut reader = JitDumpReader::new(data).unwrap();
    match reader.next_record() {
        Progress::Ready(Some(raw)) => assert_eq!(raw.parse(), Ok(JitDumpRecord::Other(raw))),
        other => panic!("{other:?}"),
    }
}

#[test]
fn record_header_needs_sixteen_bytes() {
    let mut bytes = record(false, 2, 0x0102_0304_0506_0708, &[0; 4]);
    let header = JitDumpRecordHeader::parse(Endianness::BigEndian, &bytes).unwrap();
    assert_eq!(header.record_type.0, JitDumpRecordType::JIT_CODE_DEBUG_INFO);
    assert_eq!(header.total_size, 20);
    assert_eq!(header.timestamp, 0x0102_0304_0506_0708);
    bytes.truncate(15);
    assert_eq!(
        JitDumpRecordHeader::parse(Endianness::BigEndian, &bytes),
        Err(UnexpectedEof)
    );
}

#[test]
fn every_record_type_of_the_format_is_known() {
    for record_type in 0..7 {
        let mut data = file_header(true, 40);
        data.extend(record(true, record_type, 10, &[0xFF]));
        let expected = if record_type <= 4 {
            vec![(40, record_type, 10, vec![0xFF])]
        } else {
            vec![]
        };
        assert_eq!(read_in_chunks(&data, 64, true), expected);
    }
}

#[test]
fn record_size_has_to_cover_the_record_header() {
    let mut data = file_header(true, 40);
    data.extend_from_slice(&[0; 4]);
    data.extend_from_slice(&[15, 0, 0, 0]);
    data.extend_from_slice(&[0xFF; 8]);
    data.extend(record(true, 2, 20, &[8]));
    // In recovery, the record is skipped.
    assert_eq!(read_in_chunks(&data, 64, true), vec![(56, 2, 20, vec![8])]);
    // Otherwise it stays the next record.
    let mut reader = JitDumpReader::new(data).unwrap();
    assert!(matches!(
        reader.next_record_checked(),
        Err(RecordSizeTooSmall(15))
    ));
    assert_eq!(
        reader.skip_next_record_checked(),
        Err(RecordSizeTooSmall(15))
    );
    assert_eq!(reader.next_record_offset(), 40);
}

#[test]
fn checked_calls_agree_with_unchecked_ones() {
    let data = three_records(true);
    let mut reader = JitDumpReader::new(data[..75].to_vec()).unwrap();
    match reader.next_record_checked() {
        Ok(Progress::Ready(Some(raw))) => assert_eq!(raw.body, &[1, 2, 3]),
        other => panic!("{other:?}"),
    }
    assert_eq!(
        reader.skip_next_record_checked(),
        Ok(SkipProgress::Ready(true))
    );
    assert!(matches!(
        reader.next_record_checked(),
        Ok(Progress::NeedBytes(16))
    ));
    assert_eq!(
        reader.skip_next_record_checked(),
        Ok(SkipProgress::NeedBytes(16))
    );
    reader.end_of_input();
    assert!(matches!(
        reader.next_record_checked(),
        Ok(Progress::Ready(None))
    ));
    reader.end_of_input();
    assert_eq!(
        reader.skip_next_record_checked(),
        Ok(SkipProgress::Ready(false))
    );
}

#[test]
fn skipping_in_pieces_is_skipping_at_once() {
    let data = three_records(true);
    let mut pieces = JitDumpReader::new(data[..50].to_vec()).unwrap();
    assert_eq!(pieces.skip_next_record(), SkipProgress::NeedBytes(16));
    pieces.supply(&data[50..58]);
    assert_eq!(pieces.skip_next_record(), SkipProgress::SeekForward(1));
    pieces.supply(&data[58..]);
    assert_eq!(pieces.skip_next_record(), SkipProgress::Ready(true));
    let mut whole = JitDumpReader::new(data).unwrap();
    assert_eq!(whole.skip_next_record(), SkipProgress::Ready(true));
    assert_eq!(pieces.next_record_offset(), whole.next_record_offset());
    assert_eq!(pieces.available(), whole.available());
    assert_eq!(pieces.next_record_header(), whole.next_record_header());
}

#[test]
fn reading_goes_on_where_it_stopped() {
    let data = three_records(true);
    let all = read_in_chunks(&data, 64, false);
    for len in 40..=data.len() {
        let mut reader = JitDumpReader::new(data[..len].to_vec()).unwrap();
        let mut records = Vec::new();
        let mut complete = false;
        loop {
            match reader.next_record() {
                Progress::Ready(Some(raw)) => records.push((
                    raw.start_offset,
                    raw.record_type.0,
                    raw.timestamp,
                    raw.body.to_vec(),
                )),
                Progress::Ready(None) if complete => break,
                Progress::Ready(None) => {
                    reader.supply(&data[len..]);
                    complete = true;
                }
                Progress::NeedBytes(_) => reader.end_of_input(),
            }
        }
        assert_eq!(records, all);
    }
}

#[test]
fn timestamp_does_not_make_a_header_known() {
    for record_type in [4, 5] {
        for timestamp in [0, 1, u64::MAX] {
            let bytes = record(true, record_type, timestamp, &[]);
            let known = is_known_record_header(Endianness::LittleEndian, &bytes);
            assert_eq!(known, record_type == 4);
        }
    }
    let bytes = record(true, 4, 0, &[]);
    assert!(!is_known_record_header(Endianness::BigEndian, &bytes));
    assert!(!is_known_record_header(Endianness::LittleEndian, &bytes[..15]));
}

#[test]
fn position_is_judged_by_what_comes_from_it_on() {
    let data = three_records(true);
    let mut further_on = JitDumpReader::new(data.clone()).unwrap();
    assert_eq!(further_on.skip_next_record(), SkipProgress::Ready(true));
    let reader = JitDumpReader::new(data).unwrap();
    for i in 0..40 {
        let verdict = reader.peek_chain_valid_header_at(19 + i);
        assert_eq!(verdict, further_on.peek_chain_valid_header_at(i));
    }
    assert_eq!(reader.peek_chain_valid_header_at(0), Progress::Ready(true));
    assert_eq!(reader.peek_chain_valid_header_at(1), Progress::Ready(false));
    assert_eq!(reader.peek_chain_valid_header_at(35), Progress::NeedBytes(38));
    assert_eq!(reader.peek_chain_valid_header_at(42), Progress::NeedBytes(16));
    assert_eq!(reader.available(), 57);
    assert_eq!(reader.next_record_offset(), 40);
}

#[test]
fn stream_is_moved_only_within_its_length() {
    assert_eq!(seek_target(10, 15, 5), Some(15));
    assert_eq!(seek_target(10, 20, 5), Some(15));
    assert_eq!(seek_target(10, 14, 5), None);
    assert_eq!(seek_target(20, 15, 0), None);
    assert_eq!(seek_target(u64::MAX, u64::MAX, 0), Some(u64::MAX));
    assert_eq!(seek_target(1, u64::MAX, u64::MAX), None);
}

#[test]
fn body_size_leaves_out_the_header() {
    for (total_size, body_size) in [(15, None), (16, Some(0)), (19, Some(3))] {
        let header = JitDumpRecordHeader {
            record_type: JitDumpRecordType(0),
            total_size,
            timestamp: 0,
        };
        assert_eq!(header.body_size(), body_size);
    }
}

#[test]
fn recovery_keeps_less_than_a_header_for_later() {
    let data = three_records(true);
    for len in 40..56 {
        let mut reader = JitDumpReader::new(data[..len].to_vec())
            .unwrap()
            .recover_from_corruption(true);
        reader.end_of_input();
        assert!(matches!(reader.next_record(), Progress::Ready(None)));
        assert_eq!(reader.available(), len - 40);
        assert_eq!(reader.next_record_offset(), 40);
        reader.supply(&data[len..]);
        assert_eq!(reader.next_record_timestamp(), Progress::Ready(Some(10)));
    }
}

#[test]
fn recovery_leaves_behind_a_record_in_front_of_a_cut_off_header() {
    let mut data = file_header(true, 40);
    data.extend(record(true, 1, 10, &[0xFF; 3]));
    data.extend(record(true, 4, 20, &[1]));
    // The first record is complete, and the second header is there in part.
    for len in 60..75 {
        let mut reader = JitDumpReader::new(data[..len].to_vec())
            .unwrap()
            .recover_from_corruption(true);
        reader.end_of_input();
        assert!(matches!(reader.next_record(), Progress::Ready(None)));
        assert_eq!(reader.available(), 15);
        assert_eq!(reader.next_record_offset(), len as u64 - 15);
    }
    // Without any of the second header, the first record is taken.
    assert_eq!(read_in_chunks(&data[..59], 64, true), vec![(40, 1, 10, vec![0xFF; 3])]);
}
