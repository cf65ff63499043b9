use extrae_rs::bufferinfo::{apply_flush, BufferInfo, ParseError, HEADER_BYTES};
use extrae_rs::Buffer;

#[test]
fn buffer_file_round_trip() {
    let mut buffer = Buffer::new(1, 77, "worker", String::from("Trace_1.bin"), 1000, 0);
    buffer.emplace_event(1, 1);
    buffer.emplace_event(2, 7);
    buffer.emplace_event(3, 8);
    buffer.emplace_event(4, 9);
    buffer.emplace_event(5, 10);
    buffer.emplace_event(6, 11);

    let mut file: Vec<u8> = Vec::new();
    let (header_block, payload) = buffer.flush_blocks().expect("six records are pending");
    apply_flush(&mut file, &header_block, &payload);
    assert!(buffer.file_started);

    let parsed = BufferInfo::parse_file(file.as_slice()).expect("a freshly flushed file parses");
    assert_eq!(parsed.header.id, 1);
    assert_eq!(parsed.header.tid, 77);
    assert_eq!(parsed.header.start_gtime, 1000);
    assert_eq!(parsed.header.total_flushed, 6);
    assert_eq!(parsed.entries.len(), 6);
    let expected = [(1u16, 1u32), (2, 7), (3, 8), (4, 9), (5, 10), (6, 11)];
    for (i, (id, value)) in expected.iter().enumerate() {
        assert_eq!(parsed.entries[i].info.id, *id);
        assert_eq!(parsed.entries[i].info.value, *value);
    }
}

#[test]
fn empty_buffer_creates_no_file() {
    let mut buffer = Buffer::new(1, 77, "idle", String::from("Trace_1.bin"), 1000, 0);
    assert!(buffer.flush_blocks().is_none());
    assert!(!buffer.file_started);
    assert_eq!(buffer.len(), 0);
}

#[test]
fn multi_flush_accumulates() {
    let mut buffer = Buffer::new(1, 77, "worker", String::from("Trace_1.bin"), 1000, 0);
    let mut file: Vec<u8> = Vec::new();

    buffer.emplace_event(0, 1);
    buffer.emplace_event(1, 2);
    let (hb, pl) = buffer.flush_blocks().unwrap();
    apply_flush(&mut file, &hb, &pl);

    buffer.emplace_event(2, 3);
    buffer.emplace_event(3, 4);
    let (hb, pl) = buffer.flush_blocks().unwrap();
    apply_flush(&mut file, &hb, &pl);

    buffer.emplace_event(4, 5);
    buffer.emplace_event(5, 6);
    let (hb, pl) = buffer.flush_blocks().unwrap();
    apply_flush(&mut file, &hb, &pl);

    let parsed = BufferInfo::parse_file(file.as_slice()).unwrap();
    assert_eq!(parsed.header.total_flushed, 6);
    assert_eq!(parsed.entries.len(), 6);
    for i in 0..6 {
        assert_eq!(parsed.entries[i].info.id, i as u16);
        assert_eq!(parsed.entries[i].info.value, (i + 1) as u32);
    }
}

#[test]
fn parse_rejects_short_and_mismatched_files() {
    assert_eq!(BufferInfo::parse_file(&[0u8; 4]), Err(ParseError::TooShort));

    let mut buffer = Buffer::new(1, 77, "w", String::from("p"), 0, 0);
    buffer.emplace_event(1, 1);
    let (hb, pl) = buffer.flush_blocks().unwrap();
    let mut file: Vec<u8> = Vec::new();
    apply_flush(&mut file, &hb, &pl);
    // one record declared, none stored
    assert_eq!(
        BufferInfo::parse_file(&file[..HEADER_BYTES]),
        Err(ParseError::CountMismatch)
    );
    // a truncated record
    assert_eq!(
        BufferInfo::parse_file(&file[..file.len() - 1]),
        Err(ParseError::CountMismatch)
    );
}

#[test]
fn flush_keeps_header_identity() {
    let mut info = BufferInfo::new(9, 1234, 555);
    info.emplace_event(1, 1);
    let (hb, _pl) = info.flush_blocks().unwrap();
    assert_eq!(hb.len(), HEADER_BYTES);
    assert_eq!(info.header.id, 9);
    assert_eq!(info.header.tid, 1234);
    assert_eq!(info.header.start_gtime, 555);
    assert_eq!(info.header.total_flushed, 1);
    assert!(info.is_empty());
}
