use redis_starter_rust::keyspace::Keyspace;
use redis_starter_rust::rdb::{parse_rdb, read_length, read_rdb_from_bytes, EncodedLength, RdbError};
use redis_starter_rust::replication::empty_snapshot;

fn file(body: &[u8]) -> Vec<u8> {
    let mut v = b"REDIS0011".to_vec();
    v.extend_from_slice(body);
    v
}

fn sample() -> Vec<u8> {
    let mut body = Vec::new();
    body.extend_from_slice(b"\xfa\x09redis-ver\x057.2.0");
    body.extend_from_slice(b"\xfa\x0aredis-bits\xc0\x40");
    body.extend_from_slice(b"\xfe\x00\xfb\x03\x02");
    body.push(0xfc);
    body.extend_from_slice(&1700000000000u64.to_le_bytes());
    body.extend_from_slice(b"\x00\x03foo\x03bar");
    body.extend_from_slice(b"\x00\x03baz\xc1\xc8\x00");
    body.push(0xfd);
    body.extend_from_slice(&1700000000u32.to_le_bytes());
    body.extend_from_slice(b"\x00\x01k\x40\x02xy");
    body.push(0xff);
    body.extend_from_slice(&[1, 2, 3, 4, 5, 6, 7, 8]);
    file(&body)
}

#[test]
fn reads_entries_with_expiries() {
    let entries = match parse_rdb(&sample()) {
        Ok(e) => e,
        Err(e) => panic!("unexpected {:?}", e),
    };
    assert_eq!(entries.len(), 3);
    assert_eq!(entries[0].key, b"foo".to_vec());
    assert_eq!(entries[0].value, b"bar".to_vec());
    assert_eq!(entries[0].expiry_ms, Some(1700000000000));
    assert_eq!(entries[1].key, b"baz".to_vec());
    assert_eq!(entries[1].value, b"200".to_vec());
    assert_eq!(entries[1].expiry_ms, None);
    assert_eq!(entries[2].key, b"k".to_vec());
    assert_eq!(entries[2].value, b"xy".to_vec());
    assert_eq!(entries[2].expiry_ms, Some(1700000000000));
}

#[test]
fn seeds_keyspace_and_keeps_past_expiries() {
    let mut k = Keyspace::new();
    assert_eq!(read_rdb_from_bytes(&sample(), &mut k), Ok(()));
    assert_eq!(k.get(b"baz", 0), Some(b"200".to_vec()));
    assert_eq!(k.get(b"foo", 1699999999999), Some(b"bar".to_vec()));
    assert_eq!(k.get(b"foo", 1700000000000), None);
    assert_eq!(k.keys().len(), 3);
}

#[test]
fn failed_load_leaves_keyspace_alone() {
    let mut k = Keyspace::new();
    k.set(b"a".to_vec(), b"1".to_vec(), None, 0);
    let mut bad = sample();
    bad.truncate(30);
    assert_eq!(read_rdb_from_bytes(&bad, &mut k), Err(RdbError::Truncated));
    assert_eq!(k.keys(), vec![b"a".to_vec()]);
}

#[test]
fn embedded_empty_snapshot_has_no_entries() {
    let bytes = empty_snapshot().unwrap();
    assert!(bytes.starts_with(b"REDIS0011"));
    assert_eq!(bytes.len(), 88);
    match parse_rdb(&bytes) {
        Ok(e) => assert!(e.is_empty()),
        Err(e) => panic!("unexpected {:?}", e),
    }
}

#[test]
fn rejects_bad_magic() {
    assert_eq!(parse_rdb(b"RADIS0011\xff").err(), Some(RdbError::BadMagic));
    assert_eq!(parse_rdb(b"xy").err(), Some(RdbError::BadMagic));
}

#[test]
fn rejects_bad_version() {
    assert_eq!(parse_rdb(b"REDIS00a1\xff").err(), Some(RdbError::BadVersion));
}

#[test]
fn rejects_truncated_files() {
    assert_eq!(parse_rdb(b"REDIS").err(), Some(RdbError::Truncated));
    assert_eq!(parse_rdb(b"REDIS0011").err(), Some(RdbError::Truncated));
    assert_eq!(parse_rdb(&file(b"\xfe\x00\xfb\x01\x00\x00\x03fo")).err(), Some(RdbError::Truncated));
    assert_eq!(parse_rdb(&file(b"\xff\x01\x02")).err(), Some(RdbError::Truncated));
}

#[test]
fn rejects_unknown_entry_type() {
    assert_eq!(
        parse_rdb(&file(b"\xfe\x00\xfb\x01\x00\x01\x01a\x01b\xff")).err(),
        Some(RdbError::UnknownEntryType)
    );
}

#[test]
fn rejects_more_expiring_than_entries() {
    assert_eq!(parse_rdb(&file(b"\xfe\x00\xfb\x01\x02\xff")).err(), Some(RdbError::BadCounts));
}

#[test]
fn rejects_unexpected_section() {
    assert_eq!(parse_rdb(&file(b"\x10\xff")).err(), Some(RdbError::UnexpectedOpcode));
    assert_eq!(parse_rdb(&file(b"\xfe\x00\xfa\xff")).err(), Some(RdbError::UnexpectedOpcode));
}

#[test]
fn rejects_compressed_strings() {
    assert_eq!(
        parse_rdb(&file(b"\xfe\x00\xfb\x01\x00\x00\xc3\x01\x01a\xff")).err(),
        Some(RdbError::UnsupportedEncoding)
    );
}

#[test]
fn rejects_trailing_bytes() {
    assert_eq!(parse_rdb(&file(b"\xff123456789")).err(), Some(RdbError::TrailingBytes));
}

#[test]
fn accepts_end_without_checksum() {
    assert_eq!(parse_rdb(&file(b"\xfe\x00\xfb\x00\x00\xff")).map(|e| e.len()).ok(), Some(0));
}

#[test]
fn reads_every_length_form() {
    assert_eq!(read_length(b"\x0a", 0), Ok((EncodedLength::Len(10), 1)));
    assert_eq!(read_length(b"\x41\x02", 0), Ok((EncodedLength::Len(258), 2)));
    assert_eq!(read_length(b"\x80\x00\x01\x00\x00", 0), Ok((EncodedLength::Len(65536), 5)));
    assert_eq!(read_length(b"\xc0\xff", 0), Ok((EncodedLength::Int(-1), 2)));
    assert_eq!(read_length(b"\xc1\x39\x30", 0), Ok((EncodedLength::Int(12345), 3)));
    assert_eq!(read_length(b"\xc2\xff\xff\xff\xff", 0), Ok((EncodedLength::Int(-1), 5)));
    assert_eq!(read_length(b"\xc3", 0), Ok((EncodedLength::Compressed, 1)));
    assert_eq!(read_length(b"\x81", 0), Err(RdbError::UnsupportedEncoding));
    assert_eq!(read_length(b"\xc4", 0), Err(RdbError::UnsupportedEncoding));
    assert_eq!(read_length(b"\x41", 0), Err(RdbError::Truncated));
}

#[test]
fn integer_strings_render_in_decimal() {
    let entries = parse_rdb(&file(b"\xfe\x00\xfb\x01\x00\x00\x01n\xc0\xfb\xff")).ok().unwrap();
    assert_eq!(entries[0].value, b"-5".to_vec());
}
