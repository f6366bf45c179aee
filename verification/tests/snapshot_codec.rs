use codecrafters_redis::byte_map::ByteMap;
use codecrafters_redis::database::{read_db, write_database};
use codecrafters_redis::encoding::{
    read_size, read_special_int, read_string, write_size, write_string, ByteReader,
};
use codecrafters_redis::header::{read_header, write_header};
use codecrafters_redis::metadata::{read_metada, write_metadata};
use codecrafters_redis::print_hex::create_dummy_rdb;
use codecrafters_redis::{
    read_rdb, write_rdb, Expiration, RdbError, RdbFile, RedisDatabase, RedisValue,
};

fn reader(bytes: &[u8]) -> ByteReader {
    ByteReader::new(bytes.to_vec())
}

fn value(text: &str, expires_at: Option<Expiration>) -> RedisValue {
    RedisValue { value: text.as_bytes().to_vec(), expires_at }
}

#[test]
fn size_in_six_bits() {
    let mut r = reader(&[0x0A]);
    assert_eq!(read_size(&mut r), Ok((10, None)));
    assert_eq!(r.remaining_len(), 0);
}

#[test]
fn size_in_fourteen_bits() {
    let mut r = reader(&[0x42, 0xBC, 0x99]);
    assert_eq!(read_size(&mut r), Ok((700, None)));
    assert_eq!(r.remaining_len(), 1);
}

#[test]
fn size_in_four_bytes() {
    let mut r = reader(&[0x80, 0x00, 0x00, 0x42, 0x68]);
    assert_eq!(read_size(&mut r), Ok((17000, None)));
}

#[test]
fn size_of_special_encoding_returns_tag() {
    let mut r = reader(&[0xC0, 0x7B]);
    assert_eq!(read_size(&mut r), Ok((usize::MAX, Some(vec![0xC0]))));
    assert_eq!(r.remaining_len(), 1);
}

#[test]
fn size_of_nothing_is_unexpected_eof() {
    let mut r = reader(&[]);
    assert_eq!(read_size(&mut r), Err(RdbError::UnexpectedEof));
    let mut r = reader(&[0x42]);
    assert_eq!(read_size(&mut r), Err(RdbError::UnexpectedEof));
    let mut r = reader(&[0x80, 0x00, 0x00]);
    assert_eq!(read_size(&mut r), Err(RdbError::UnexpectedEof));
}

#[test]
fn write_size_picks_shortest_form() {
    let mut out = Vec::new();
    write_size(&mut out, 10).unwrap();
    assert_eq!(out, vec![0x0A]);
    let mut out = Vec::new();
    write_size(&mut out, 63).unwrap();
    assert_eq!(out, vec![0x3F]);
    let mut out = Vec::new();
    write_size(&mut out, 64).unwrap();
    assert_eq!(out, vec![0x40, 0x40]);
    let mut out = Vec::new();
    write_size(&mut out, 700).unwrap();
    assert_eq!(out, vec![0x42, 0xBC]);
    let mut out = Vec::new();
    write_size(&mut out, 16383).unwrap();
    assert_eq!(out, vec![0x7F, 0xFF]);
    let mut out = Vec::new();
    write_size(&mut out, 16384).unwrap();
    assert_eq!(out, vec![0x80, 0x00, 0x00, 0x40, 0x00]);
    let mut out = Vec::new();
    write_size(&mut out, 17000).unwrap();
    assert_eq!(out, vec![0x80, 0x00, 0x00, 0x42, 0x68]);
}

#[test]
fn write_size_refuses_what_has_no_encoding() {
    let mut out = vec![1u8];
    assert_eq!(write_size(&mut out, 0x1_0000_0000), Err(RdbError::InvalidSizeEncoding));
    assert_eq!(write_size(&mut out, usize::MAX), Err(RdbError::InvalidSizeEncoding));
    assert_eq!(out, vec![1u8]);
    let mut out = Vec::new();
    write_size(&mut out, 0xFFFF_FFFF).unwrap();
    assert_eq!(out, vec![0x80, 0xFF, 0xFF, 0xFF, 0xFF]);
    let mut r = ByteReader::new(out);
    assert_eq!(read_size(&mut r), Ok((0xFFFF_FFFF, None)));
}

#[test]
fn size_round_trip_on_boundaries() {
    for n in [0usize, 1, 63, 64, 255, 256, 16383, 16384, 65535, 65536, 1 << 24, 0xFFFF_FFFE, 0xFFFF_FFFF] {
        let mut out = Vec::new();
        write_size(&mut out, n).unwrap();
        let mut r = ByteReader::new(out);
        assert_eq!(read_size(&mut r), Ok((n, None)));
        assert_eq!(r.remaining_len(), 0);
    }
}

#[test]
fn string_with_length_prefix() {
    let mut bytes = vec![0x0D];
    bytes.extend_from_slice(b"Hello, World!");
    let mut r = ByteReader::new(bytes);
    assert_eq!(read_string(&mut r), Ok(b"Hello, World!".to_vec()));
}

#[test]
fn string_as_eight_bit_integer() {
    let mut r = reader(&[0xC0, 0x7B]);
    assert_eq!(read_string(&mut r), Ok(b"123".to_vec()));
}

#[test]
fn string_as_sixteen_bit_integer() {
    let mut r = reader(&[0xC1, 0x39, 0x30]);
    assert_eq!(read_string(&mut r), Ok(b"12345".to_vec()));
}

#[test]
fn string_as_thirty_two_bit_integer() {
    let mut r = reader(&[0xC2, 0x87, 0xD6, 0x12, 0x00]);
    assert_eq!(read_string(&mut r), Ok(b"1234567".to_vec()));
}

#[test]
fn compressed_string_is_invalid_string_encoding() {
    let mut r = reader(&[0xC3, 0x01, 0x02]);
    assert_eq!(read_string(&mut r), Err(RdbError::InvalidStringEncoding));
}

#[test]
fn short_string_is_unexpected_eof() {
    let mut r = reader(&[0x05, b'a', b'b']);
    assert_eq!(read_string(&mut r), Err(RdbError::UnexpectedEof));
}

#[test]
fn special_int_without_tag_is_invalid() {
    let mut r = reader(&[0x7B]);
    assert_eq!(read_special_int(&mut r, None), Err(RdbError::InvalidStringEncoding));
    assert_eq!(read_special_int(&mut r, Some(vec![])), Err(RdbError::InvalidStringEncoding));
    assert_eq!(read_special_int(&mut r, Some(vec![0xC0])), Ok(b"123".to_vec()));
}

#[test]
fn write_string_then_read_string() {
    let mut out = Vec::new();
    write_string(&mut out, b"redis-ver").unwrap();
    assert_eq!(out[0], 9);
    assert_eq!(&out[1..], b"redis-ver");
    let long = vec![b'x'; 300];
    let mut out = Vec::new();
    write_string(&mut out, &long).unwrap();
    assert_eq!(&out[..2], &[0x41, 0x2C]);
    let mut r = ByteReader::new(out);
    assert_eq!(read_string(&mut r), Ok(long));
}

#[test]
fn header_is_magic_and_version() {
    let mut r = reader(b"REDIS0011rest");
    assert_eq!(read_header(&mut r), Ok(b"0011".to_vec()));
    assert_eq!(r.remaining_len(), 4);
}

#[test]
fn header_with_wrong_magic_is_invalid_header() {
    let mut r = reader(b"RODIS0011");
    assert_eq!(read_header(&mut r), Err(RdbError::InvalidHeader));
}

#[test]
fn header_with_non_ascii_version_is_invalid_version() {
    let mut r = reader(&[b'R', b'E', b'D', b'I', b'S', b'0', 0xFF, b'1', b'1']);
    assert_eq!(read_header(&mut r), Err(RdbError::InvalidVersion));
}

#[test]
fn short_header_is_unexpected_eof() {
    let mut r = reader(b"REDIS00");
    assert_eq!(read_header(&mut r), Err(RdbError::UnexpectedEof));
}

#[test]
fn write_header_checks_version() {
    let mut out = Vec::new();
    assert_eq!(write_header(&mut out, b"11"), Err(RdbError::InvalidVersion));
    assert!(out.is_empty());
    assert_eq!(write_header(&mut out, &[b'0', b'0', 0x80, b'1']), Err(RdbError::InvalidVersion));
    assert_eq!(write_header(&mut out, b"0011"), Ok(()));
    assert_eq!(out, b"REDIS0011".to_vec());
}

#[test]
fn metadata_ends_before_first_other_byte() {
    let mut bytes = vec![0xFA, 0x09];
    bytes.extend_from_slice(b"redis-ver");
    bytes.push(0x06);
    bytes.extend_from_slice(b"6.0.16");
    bytes.push(0xFE);
    let mut r = ByteReader::new(bytes);
    let m = read_metada(&mut r).unwrap();
    assert_eq!(m.len(), 1);
    assert_eq!(m.key_at(0), &b"redis-ver".to_vec());
    assert_eq!(m.value_at(0), &b"6.0.16".to_vec());
    assert_eq!(r.peek(), Some(0xFE));
}

#[test]
fn metadata_without_end_is_unexpected_eof() {
    let mut r = reader(&[]);
    assert_eq!(read_metada(&mut r).err(), Some(RdbError::UnexpectedEof));
}

#[test]
fn metadata_round_trip() {
    let mut m: ByteMap<Vec<u8>> = ByteMap::new();
    m.insert(b"redis-ver".to_vec(), b"7.2.0".to_vec());
    m.insert(b"redis-bits".to_vec(), b"64".to_vec());
    let mut out = Vec::new();
    write_metadata(&mut out, &m).unwrap();
    out.push(0xFF);
    let mut r = ByteReader::new(out);
    assert_eq!(read_metada(&mut r).unwrap(), m);
}

#[test]
fn database_block_with_expiries() {
    let mut bytes = vec![0xFB, 0x03, 0x02];
    bytes.extend_from_slice(&[0x00, 0x03, b'f', b'o', b'o', 0x03, b'b', b'a', b'r']);
    bytes.extend_from_slice(&[0xFD, 0x52, 0xED, 0x2A, 0x66, 0x00, 0x01, b'a', 0x01, b'b']);
    bytes.push(0xFC);
    bytes.extend_from_slice(&1713824559637u64.to_le_bytes());
    bytes.extend_from_slice(&[0x00, 0x01, b'c', 0x01, b'd']);
    bytes.push(0xFF);
    let mut r = ByteReader::new(bytes);
    let (db, reached_eof) = read_db(&mut r).unwrap();
    assert!(reached_eof);
    assert_eq!(db.len(), 3);
    assert_eq!(db.get(b"foo"), Some(&value("bar", None)));
    assert_eq!(db.get(b"a"), Some(&value("b", Some(Expiration::Seconds(0x662AED52)))));
    assert_eq!(db.get(b"c"), Some(&value("d", Some(Expiration::Milliseconds(1713824559637)))));
}

#[test]
fn database_block_stops_before_next_selector() {
    let bytes = vec![0x00, 0x01, b'k', 0x01, b'v', 0xFE, 0x01];
    let mut r = ByteReader::new(bytes);
    let (db, reached_eof) = read_db(&mut r).unwrap();
    assert!(!reached_eof);
    assert_eq!(db.len(), 1);
    assert_eq!(r.peek(), Some(0xFE));
}

#[test]
fn unknown_value_type_is_typed_error() {
    let mut r = reader(&[0x07, 0x01, b'k']);
    assert_eq!(read_db(&mut r).err(), Some(RdbError::InvalidValueType(0x07)));
    let mut r = reader(&[0xFD, 1, 0, 0, 0, 0x02, 0x01, b'k', 0x01, b'v']);
    assert_eq!(read_db(&mut r).err(), Some(RdbError::InvalidValueType(0x02)));
}

#[test]
fn truncated_database_is_unexpected_eof() {
    let mut r = reader(&[0x00, 0x01, b'k', 0x01, b'v']);
    assert_eq!(read_db(&mut r).err(), Some(RdbError::UnexpectedEof));
}

#[test]
fn write_database_emits_hint_and_entries() {
    let mut db = RedisDatabase::new();
    db.insert(b"foo".to_vec(), value("bar", None));
    db.insert(b"k".to_vec(), value("v", Some(Expiration::Seconds(5))));
    let mut out = Vec::new();
    write_database(&mut out, 0, &db).unwrap();
    let mut expected = vec![0xFE, 0x00, 0xFB, 0x02, 0x01];
    expected.extend_from_slice(&[0x00, 0x03, b'f', b'o', b'o', 0x03, b'b', b'a', b'r']);
    expected.extend_from_slice(&[0xFD, 5, 0, 0, 0, 0x00, 0x01, b'k', 0x01, b'v']);
    assert_eq!(out, expected);
}

fn sample_snapshot() -> RdbFile {
    let mut rdb = RdbFile::new(b"0011".to_vec());
    rdb.insert_metadata(b"redis-ver".to_vec(), b"7.2.0".to_vec());
    let mut first = RedisDatabase::new();
    first.insert(b"foo".to_vec(), value("bar", None));
    first.insert(b"soon".to_vec(), value("gone", Some(Expiration::Milliseconds(1700000000123))));
    first.insert(b"later".to_vec(), value("", Some(Expiration::Seconds(4000000000))));
    let mut second = RedisDatabase::new();
    second.insert(vec![0, 255, 10, 13], vec_value(vec![1, 2, 3]));
    rdb.insert_database(0, first);
    rdb.insert_database(3, second);
    rdb.insert_database(7, RedisDatabase::new());
    rdb
}

fn vec_value(bytes: Vec<u8>) -> RedisValue {
    RedisValue { value: bytes, expires_at: None }
}

#[test]
fn snapshot_read_of_write_is_identity() {
    let rdb = sample_snapshot();
    let mut out = Vec::new();
    write_rdb(&mut out, &rdb).unwrap();
    assert_eq!(&out[..9], b"REDIS0011");
    assert_eq!(&out[out.len() - 9..], &[0xFF, 0, 0, 0, 0, 0, 0, 0, 0]);
    let mut r = ByteReader::new(out);
    assert_eq!(read_rdb(&mut r), Ok(rdb));
}

#[test]
fn snapshot_write_of_read_keeps_content() {
    let file = create_dummy_rdb();
    let mut r = ByteReader::new(file);
    let first = read_rdb(&mut r).unwrap();
    let mut out = Vec::new();
    write_rdb(&mut out, &first).unwrap();
    let mut r = ByteReader::new(out);
    let second = read_rdb(&mut r).unwrap();
    assert_eq!(second, first);
}

#[test]
fn dummy_snapshot_holds_foo_bar() {
    let mut r = ByteReader::new(create_dummy_rdb());
    let rdb = read_rdb(&mut r).unwrap();
    assert_eq!(rdb.version(), &b"0011".to_vec());
    assert_eq!(rdb.metadata().len(), 2);
    assert_eq!(rdb.metadata().value_at(0), &b"7.2.0".to_vec());
    assert_eq!(rdb.metadata().value_at(1), &b"64".to_vec());
    let db = rdb.database(0).unwrap();
    assert_eq!(db.len(), 1);
    assert_eq!(db.get(b"foo"), Some(&value("bar", None)));
    assert!(rdb.database(1).is_none());
}

#[test]
fn metadata_of_snapshot_is_bound_by_name() {
    let mut rdb = RdbFile::new(b"0011".to_vec());
    rdb.insert_metadata(b"a".to_vec(), b"1".to_vec());
    rdb.insert_metadata(b"b".to_vec(), b"2".to_vec());
    rdb.insert_metadata(b"a".to_vec(), b"3".to_vec());
    assert_eq!(rdb.metadata().len(), 2);
    assert_eq!(rdb.metadata().key_at(0), &b"a".to_vec());
    assert_eq!(rdb.metadata().value_at(0), &b"3".to_vec());
    assert_eq!(rdb.metadata().value_at(1), &b"2".to_vec());
}

#[test]
fn databases_of_snapshot_have_distinct_indices() {
    let mut rdb = sample_snapshot();
    assert_eq!(rdb.database_count(), 3);
    assert_eq!(rdb.database_at(1).0, 3);
    rdb.insert_database(3, RedisDatabase::new());
    assert_eq!(rdb.database_count(), 3);
    assert_eq!(rdb.database_at(1).0, 3);
    assert_eq!(rdb.database_at(1).1.len(), 0);
    assert_eq!(rdb.find_database(7), Some(2));
    assert_eq!(rdb.find_database(9), None);
}

#[test]
fn first_database_is_taken_out() {
    let mut rdb = sample_snapshot();
    let db = rdb.take_database(3).unwrap();
    assert_eq!(db.len(), 1);
    assert!(rdb.database(3).is_none());
    assert!(rdb.take_database(3).is_none());
    assert_eq!(rdb.database_count(), 2);
    assert_eq!(rdb.take_database(0).unwrap().len(), 3);
}

#[test]
fn snapshot_with_bad_section_marker_is_invalid_value_type() {
    let mut bytes = b"REDIS0011".to_vec();
    bytes.push(0x42);
    let mut r = ByteReader::new(bytes);
    assert_eq!(read_rdb(&mut r), Err(RdbError::InvalidValueType(0x42)));
}

#[test]
fn snapshot_without_end_marker_is_unexpected_eof() {
    let mut bytes = b"REDIS0011".to_vec();
    bytes.extend_from_slice(&[0xFE, 0x00, 0x00, 0x01, b'k', 0x01, b'v']);
    let mut r = ByteReader::new(bytes);
    assert_eq!(read_rdb(&mut r), Err(RdbError::UnexpectedEof));
}

#[test]
fn snapshot_with_repeated_database_index_keeps_the_last() {
    let mut bytes = b"REDIS0011".to_vec();
    bytes.extend_from_slice(&[0xFE, 0x00, 0x00, 0x01, b'a', 0x01, b'1']);
    bytes.extend_from_slice(&[0xFE, 0x00, 0x00, 0x01, b'b', 0x01, b'2', 0xFF]);
    let mut r = ByteReader::new(bytes);
    let rdb = read_rdb(&mut r).unwrap();
    assert_eq!(rdb.database_count(), 1);
    let db = rdb.database(0).unwrap();
    assert!(db.get(b"a").is_none());
    assert_eq!(db.get(b"b"), Some(&value("2", None)));
}

#[test]
fn write_rdb_refuses_bad_version() {
    let rdb = RdbFile::new(b"11".to_vec());
    let mut out = Vec::new();
    assert_eq!(write_rdb(&mut out, &rdb), Err(RdbError::InvalidVersion));
    assert!(out.is_empty());
}

#[test]
fn error_messages() {
    assert_eq!(RdbError::InvalidHeader.message(), "Invalid RDB header");
    assert_eq!(RdbError::InvalidVersion.message(), "Invalid RDB version");
    assert_eq!(RdbError::UnexpectedEof.message(), "Unexpected end of file");
    assert_eq!(RdbError::InvalidSizeEncoding.message(), "Invalid size encoding");
    assert_eq!(RdbError::InvalidStringEncoding.message(), "Invalid string encoding");
    assert_eq!(RdbError::InvalidValueType(7).message(), "Invalid value type: 7");
    assert_eq!(RdbError::InvalidValueType(254).message(), "Invalid value type: 254");
    assert_eq!(RdbError::ChecksumMismatch.message(), "Checksum mismatch");
    assert_eq!(RdbError::UnsupportedFeature("x y").message(), "Unsupported feature: x y");
}

#[test]
fn expiration_in_seconds_and_expiry() {
    assert_eq!(Expiration::Seconds(7).as_seconds(), 7);
    assert_eq!(Expiration::Milliseconds(7999).as_seconds(), 7);
    assert!(Expiration::Seconds(7).is_expired(7000));
    assert!(!Expiration::Seconds(7).is_expired(6999));
    assert!(Expiration::Milliseconds(100).is_expired(100));
    assert!(!Expiration::Milliseconds(100).is_expired(99));
    assert!(Expiration::Milliseconds(100).is_expiring_soon(10, 90));
    assert!(!Expiration::Milliseconds(100).is_expiring_soon(9, 90));
    assert!(Expiration::Milliseconds(100).is_expiring_soon(0, 200));
    assert!(Expiration::Seconds(1).is_expiring_soon(1000, 0));
    assert!(!Expiration::Seconds(1).is_expiring_soon(999, 0));
}

#[test]
fn database_insert_get_remove() {
    let mut db = RedisDatabase::new();
    assert_eq!(db.len(), 0);
    db.insert(b"k".to_vec(), value("v", None));
    db.insert(b"k2".to_vec(), value("w", None));
    db.insert(b"k".to_vec(), value("x", None));
    assert_eq!(db.len(), 2);
    assert_eq!(db.get(b"k"), Some(&value("x", None)));
    assert_eq!(db.get(b"missing"), None);
    assert!(db.remove(b"k"));
    assert!(!db.remove(b"k"));
    assert_eq!(db.len(), 1);
}
