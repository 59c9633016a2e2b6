use jitdump::{JitDumpReader, JitDumpRecord, JitDumpRecordHeader, JitDumpRecordType, Progress};

const HEADER_SIZE: usize = 40;

fn make_header(le: bool) -> Vec<u8> {
    let mut h = Vec::with_capacity(HEADER_SIZE);
    if le {
        h.extend_from_slice(b"DTiJ");
    } else {
        h.extend_from_slice(b"JiTD");
    }
    let total_size = HEADER_SIZE as u32;
    if le {
        h.extend_from_slice(&1u32.to_le_bytes());
        h.extend_from_slice(&total_size.to_le_bytes());
        h.extend_from_slice(&62u32.to_le_bytes());
        h.extend_from_slice(&0u32.to_le_bytes());
        h.extend_from_slice(&12345u32.to_le_bytes());
        h.extend_from_slice(&0u64.to_le_bytes());
        h.extend_from_slice(&0u64.to_le_bytes());
    } else {
        h.extend_from_slice(&1u32.to_be_bytes());
        h.extend_from_slice(&total_size.to_be_bytes());
        h.extend_from_slice(&62u32.to_be_bytes());
        h.extend_from_slice(&0u32.to_be_bytes());
        h.extend_from_slice(&12345u32.to_be_bytes());
        h.extend_from_slice(&0u64.to_be_bytes());
        h.extend_from_slice(&0u64.to_be_bytes());
    }
    assert_eq!(h.len(), HEADER_SIZE);
    h
}

fn make_code_load(name: &str, vma: u64, code: &[u8], ts: u64) -> Vec<u8> {
    // body: pid(4) + tid(4) + vma(8) + code_addr(8) + code_size(8) + code_index(8)
    let body_fixed = 4 + 4 + 8 + 8 + 8 + 8;
    let body_len = body_fixed + name.len() + 1 + code.len();
    let total = JitDumpRecordHeader::SIZE + body_len;
    let mut r = Vec::with_capacity(total);
    r.extend_from_slice(&JitDumpRecordType::JIT_CODE_LOAD.to_le_bytes());
    r.extend_from_slice(&(total as u32).to_le_bytes());
    r.extend_from_slice(&ts.to_le_bytes());
    r.extend_from_slice(&12345u32.to_le_bytes());
    r.extend_from_slice(&12345u32.to_le_bytes());
    r.extend_from_slice(&vma.to_le_bytes());
    r.extend_from_slice(&vma.to_le_bytes());
    r.extend_from_slice(&(code.len() as u64).to_le_bytes());
    r.extend_from_slice(&0u64.to_le_bytes());
    r.extend_from_slice(name.as_bytes());
    r.push(0);
    r.extend_from_slice(code);
    assert_eq!(r.len(), total);
    r
}

fn collect_code_load_names(mut reader: JitDumpReader) -> Vec<String> {
    let mut names = Vec::new();
    loop {
        match reader.next_record() {
            Progress::Ready(Some(raw)) => {
                if let JitDumpRecord::CodeLoad(record) = raw.parse().unwrap() {
                    names.push(String::from_utf8_lossy(record.function_name).into_owned());
                }
            }
            Progress::Ready(None) => return names,
            Progress::NeedBytes(_) => reader.end_of_input(),
        }
    }
}

#[test]
fn recovers_past_inline_corruption() {
    // Mimics the CPython fork-flush race: two stray bytes get
    // interleaved between otherwise-valid records.
    let mut data = make_header(true);
    data.extend(make_code_load("first", 0x1000, &[0x90; 8], 100));
    data.extend_from_slice(&[0u8, 0u8]);
    data.extend(make_code_load("second", 0x2000, &[0x90; 8], 200));
    data.extend(make_code_load("third", 0x3000, &[0x90; 8], 300));

    let reader = JitDumpReader::new(data)
        .unwrap()
        .recover_from_corruption(true);
    let names = collect_code_load_names(reader);
    assert_eq!(names, vec!["first", "second", "third"]);
}

#[test]
fn strict_mode_stops_at_corruption() {
    // Without recovery enabled, the reader should give up at the
    // corruption boundary (returns None once a body can't be
    // consumed). We expect to see only the records before the gap.
    let mut data = make_header(true);
    data.extend(make_code_load("first", 0x1000, &[0x90; 8], 100));
    data.extend_from_slice(&[0u8, 0u8]);
    data.extend(make_code_load("second", 0x2000, &[0x90; 8], 200));

    let reader = JitDumpReader::new(data).unwrap();
    let names = collect_code_load_names(reader);
    assert_eq!(names, vec!["first"]);
}

#[test]
fn clean_file_unaffected_by_recovery_flag() {
    let mut data = make_header(true);
    data.extend(make_code_load("first", 0x1000, &[0x90; 8], 100));
    data.extend(make_code_load("second", 0x2000, &[0x90; 8], 200));

    let reader = JitDumpReader::new(data)
        .unwrap()
        .recover_from_corruption(true);
    let names = collect_code_load_names(reader);
    assert_eq!(names, vec!["first", "second"]);
}
