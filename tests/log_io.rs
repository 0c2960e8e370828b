use kvs::{
    encode_frame, frame_size, header_bytes, header_value, parse_frame, KvError, LogEntry,
    LogReader, LogWriter, MemLog,
};

/// A frame built independently of the crate: bson's own encoding of the
/// entry document, after a big-endian length.
fn serialize_set(key: &str, val: &str) -> Vec<u8> {
    let mut doc = bson::Document::new();
    doc.insert("cmd", "Set");
    doc.insert("key", key);
    doc.insert("val", val);
    let entry_bytes = bson::to_vec(&doc).unwrap();
    let mut buf = (entry_bytes.len() as u32).to_be_bytes().to_vec();
    buf.extend_from_slice(&entry_bytes);
    buf
}

/// Reads the first frame of `buf` with bson directly.
fn deserialize_frame(buf: &[u8]) -> bson::Document {
    let size = u32::from_be_bytes([buf[0], buf[1], buf[2], buf[3]]) as usize;
    assert_eq!(buf.len(), 4 + size);
    bson::from_slice(&buf[4..4 + size]).unwrap()
}

#[test]
fn test_reader() {
    let buf = serialize_set("key1", "val");
    let entry_size = buf.len() as u32;

    let mut reader = LogReader::new(MemLog::new(buf));

    let res = reader.read_next();

    let frame = res.unwrap().unwrap();
    assert_eq!(frame.offset, 0);
    assert_eq!(reader.pos(), entry_size);

    if let LogEntry::Put { key, val } = frame.entry {
        assert_eq!(key, "key1");
        assert_eq!(val, "val");
    } else {
        unreachable!()
    }
}

#[test]
fn test_writer() {
    let entry = LogEntry::Put {
        key: "key1".to_string(),
        val: "val".to_string(),
    };

    let mut writer = LogWriter::new(MemLog::new(Vec::new()));
    writer.write(entry).unwrap();

    let buf = writer.sink().bytes().clone();
    assert_eq!(writer.pos() as usize, buf.len());

    let doc = deserialize_frame(&buf);
    assert_eq!(doc.get_str("cmd").unwrap(), "Set");
    assert_eq!(doc.get_str("key").unwrap(), "key1");
    assert_eq!(doc.get_str("val").unwrap(), "val");
}

#[test]
fn header_is_big_endian_length() {
    assert_eq!(header_bytes(0x01020304), [1, 2, 3, 4]);
    assert_eq!(header_value(&[0, 0, 1, 0]), 256);
    assert_eq!(encode_frame(&[7, 8]), vec![0, 0, 0, 2, 7, 8]);
}

#[test]
fn entry_bytes_are_a_bson_document() {
    let e = LogEntry::Remove { key: "k".to_string() };
    let bytes = e.encode().unwrap();
    // little-endian total length, then the `cmd` string element first
    assert_eq!(bytes.len() as u32, u32::from_le_bytes([bytes[0], bytes[1], bytes[2], bytes[3]]));
    assert_eq!(bytes[4], 0x02);
    assert_eq!(&bytes[5..9], b"cmd\0");
    match LogEntry::decode(&bytes, 0).unwrap() {
        LogEntry::Remove { key } => assert_eq!(key, "k"),
        other => panic!("unexpected {:?}", other),
    }
}

#[test]
fn entry_round_trip() {
    for e in [
        LogEntry::Put { key: "a".to_string(), val: "".to_string() },
        LogEntry::Put { key: "ключ".to_string(), val: "значение".to_string() },
        LogEntry::Remove { key: "".to_string() },
    ] {
        let back = LogEntry::decode(&e.encode().unwrap(), 0).unwrap();
        assert_eq!(format!("{:?}", back), format!("{:?}", e));
    }
}

#[test]
fn decode_rejects_garbage_with_position() {
    match LogEntry::decode(&[1, 2, 3], 42) {
        Err(KvError::DeserializeEntry { pos, .. }) => assert_eq!(pos, 42),
        other => panic!("unexpected {:?}", other),
    }
}

#[test]
fn sequential_reads_follow_each_frame() {
    let mut writer = LogWriter::new(MemLog::new(Vec::new()));
    writer.write(LogEntry::Put { key: "a".into(), val: "1".into() }).unwrap();
    let second = writer.pos();
    writer.write(LogEntry::Remove { key: "a".into() }).unwrap();
    let end = writer.pos();
    let mut reader = LogReader::new(MemLog::new(writer.sink().bytes().clone()));
    let f1 = reader.read_next().unwrap().unwrap();
    assert_eq!(f1.offset, 0);
    assert_eq!(reader.pos(), 4 + f1.size);
    assert_eq!(reader.pos(), second);
    let f2 = reader.read_next().unwrap().unwrap();
    assert_eq!(f2.offset, second);
    assert_eq!(reader.pos(), end);
    assert!(reader.read_next().unwrap().is_none());
    assert_eq!(reader.pos(), end);
    let again = reader.read_pos(0).unwrap();
    assert_eq!(again.offset, 0);
    assert_eq!(reader.pos(), second);
}

#[test]
fn partial_header_is_end_but_partial_payload_is_error() {
    let mut bytes = encode_frame(&LogEntry::Remove { key: "a".into() }.encode().unwrap());
    let full = bytes.len();
    bytes.extend_from_slice(&[0, 0]);
    let mut reader = LogReader::new(MemLog::new(bytes.clone()));
    assert!(reader.read_next().unwrap().is_some());
    assert!(reader.read_next().unwrap().is_none());
    assert_eq!(reader.pos() as usize, full);

    let mut cut = bytes[..full - 1].to_vec();
    cut.truncate(full - 1);
    let mut reader = LogReader::new(MemLog::new(cut));
    match reader.read_next() {
        Err(KvError::Io(e)) => assert_eq!(e.kind(), std::io::ErrorKind::UnexpectedEof),
        other => panic!("unexpected {:?}", other),
    }
    assert_eq!(reader.pos(), 0);
}

#[test]
fn read_pos_past_end_is_error() {
    let mut reader = LogReader::new(MemLog::new(Vec::new()));
    assert!(matches!(reader.read_pos(0), Err(KvError::Io(_))));
}

#[test]
fn frame_size_outcomes() {
    assert_eq!(frame_size(&[0, 0], 0).unwrap(), None);
    assert_eq!(frame_size(&[0, 0, 1, 2], 10).unwrap(), Some(258));
    assert!(matches!(frame_size(&[255, 255, 255, 255], 1), Err(KvError::Io(_))));
}

#[test]
fn parse_frame_outcomes() {
    let payload = LogEntry::Remove { key: "k".into() }.encode().unwrap();
    let f = parse_frame(&payload, payload.len() as u32, 7).unwrap();
    assert_eq!((f.offset, f.size as usize), (7, payload.len()));
    match parse_frame(&payload[..2], payload.len() as u32, 7) {
        Err(KvError::Io(e)) => assert_eq!(e.kind(), std::io::ErrorKind::UnexpectedEof),
        other => panic!("unexpected {:?}", other),
    }
    match parse_frame(&[5, 0, 0, 0, 0], 5, 9) {
        Err(KvError::DeserializeEntry { pos, .. }) => assert_eq!(pos, 9),
        other => panic!("unexpected {:?}", other),
    }
}

#[test]
fn reader_reads_frames_written_by_bson() {
    let mut bytes = serialize_set("a", "1");
    let second = bytes.len() as u32;
    bytes.extend(serialize_set("b", "2"));
    let mut reader = LogReader::new(MemLog::new(bytes));
    let f = reader.read_pos(second).unwrap();
    match f.entry {
        LogEntry::Put { key, val } => assert_eq!((key.as_str(), val.as_str()), ("b", "2")),
        other => panic!("unexpected {:?}", other),
    }
    assert!(reader.read_next().unwrap().is_none());
}
