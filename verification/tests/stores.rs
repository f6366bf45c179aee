use codecrafters_redis::broadcast_info::BroadCastInfo;
use codecrafters_redis::entry_stream::{
    parse_id_request, IdRequest, RedisEntry, RedisEntryStream, StreamId,
};
use codecrafters_redis::entry_utils::{get_all_stream_names, get_xread_resp_array};
use codecrafters_redis::print_hex::{print_hex, print_hex_dump};
use codecrafters_redis::redis_list::RedisList;
use codecrafters_redis::redis_sorted_set::{name_before, resolve_range, RedisSortedSet, UserScore};
use codecrafters_redis::redis_subscriber::{Channel, Subscriber};
use codecrafters_redis::utils::{
    charset_byte, id_from_picks, matches_pattern, random_id_gen, read_rdb_keys,
};
use codecrafters_redis::{RdbFile, RedisDatabase, RedisValue};

fn b(text: &str) -> Vec<u8> {
    text.as_bytes().to_vec()
}

fn fields(pairs: &[(&str, &str)]) -> Vec<(Vec<u8>, Vec<u8>)> {
    pairs.iter().map(|(f, v)| (b(f), b(v))).collect()
}

const ZERO_ERROR: &[u8] = b"-ERR The ID specified in XADD must be greater than 0-0\r\n";
const SMALLER_ERROR: &[u8] =
    b"-ERR The ID specified in XADD is equal or smaller than the target stream top item\r\n";

#[test]
fn id_requests() {
    assert_eq!(parse_id_request(b"*"), IdRequest::Auto);
    assert_eq!(parse_id_request(b"5-*"), IdRequest::AutoSeq(5));
    assert_eq!(parse_id_request(b"1526985054069-3"), IdRequest::Explicit(StreamId { ms: 1526985054069, seq: 3 }));
    assert_eq!(parse_id_request(b"5"), IdRequest::Malformed);
    assert_eq!(parse_id_request(b"5-"), IdRequest::Malformed);
    assert_eq!(parse_id_request(b"-5"), IdRequest::Malformed);
    assert_eq!(parse_id_request(b"1-2-3"), IdRequest::Malformed);
    assert_eq!(parse_id_request(b"a-1"), IdRequest::Malformed);
    assert_eq!(parse_id_request(b""), IdRequest::Malformed);
}

#[test]
fn stream_id_as_text() {
    assert_eq!(StreamId { ms: 1526985054069, seq: 0 }.to_bytes(), b("1526985054069-0"));
    assert!(StreamId { ms: 1, seq: 9 }.is_before(&StreamId { ms: 2, seq: 0 }));
    assert!(StreamId { ms: 1, seq: 1 }.is_before(&StreamId { ms: 1, seq: 2 }));
    assert!(!StreamId { ms: 1, seq: 1 }.is_before(&StreamId { ms: 1, seq: 1 }));
}

#[test]
fn xadd_zero_id_is_refused() {
    let mut s = RedisEntryStream::new();
    let (reply, messages) = s.handle_add(b"s", b"0-0", fields(&[("k", "v")]), 10);
    assert_eq!(reply, ZERO_ERROR.to_vec());
    assert!(messages.is_empty());
    assert_eq!(s.len(), 0);
}

#[test]
fn xadd_id_not_above_last_is_refused() {
    let mut s = RedisEntryStream::new();
    assert_eq!(s.handle_add(b"s", b"1-1", fields(&[("k", "v")]), 10).0, b"$3\r\n1-1\r\n".to_vec());
    assert_eq!(s.handle_add(b"s", b"1-1", fields(&[("k", "v")]), 10).0, SMALLER_ERROR.to_vec());
    assert_eq!(s.handle_add(b"s", b"0-5", fields(&[("k", "v")]), 10).0, SMALLER_ERROR.to_vec());
    assert_eq!(s.handle_add(b"s", b"junk", fields(&[("k", "v")]), 10).0, SMALLER_ERROR.to_vec());
    assert_eq!(s.len(), 1);
    assert_eq!(s.last_id(), StreamId { ms: 1, seq: 1 });
}

#[test]
fn xadd_synthesizes_sequence_numbers() {
    let mut s = RedisEntryStream::new();
    assert_eq!(s.handle_add(b"s", b"0-*", fields(&[("k", "v")]), 10).0, b"$3\r\n0-1\r\n".to_vec());
    assert_eq!(s.handle_add(b"s", b"5-*", fields(&[("k", "v")]), 10).0, b"$3\r\n5-0\r\n".to_vec());
    assert_eq!(s.handle_add(b"s", b"5-*", fields(&[("k", "v")]), 10).0, b"$3\r\n5-1\r\n".to_vec());
    assert_eq!(s.get_next_sequence(5), 2);
    assert_eq!(s.get_next_sequence(5), 3);
    assert_eq!(s.get_next_sequence(9), 0);
}

#[test]
fn xadd_star_uses_the_clock() {
    let mut s = RedisEntryStream::new();
    let (reply, _) = s.handle_add(b"s", b"*", fields(&[("k", "v")]), 1526985054069);
    assert_eq!(reply, b"$15\r\n1526985054069-0\r\n".to_vec());
    assert_eq!(s.last_id(), StreamId { ms: 1526985054069, seq: 0 });
    let (reply, _) = s.handle_add(b"s", b"*", fields(&[("k", "v")]), 1526985054069);
    assert_eq!(reply, SMALLER_ERROR.to_vec());
    let (reply, _) = s.handle_add(b"s", b"1526985054069-*", fields(&[("k", "v")]), 0);
    assert_eq!(reply, b"$15\r\n1526985054069-1\r\n".to_vec());
}

#[test]
fn stream_id_response_alone_moves_last_id() {
    let mut s = RedisEntryStream::new();
    assert_eq!(s.stream_id_response(b"3-4", 0), (true, b"$3\r\n3-4\r\n".to_vec()));
    assert_eq!(s.stream_id_response(b"3-4", 0), (false, SMALLER_ERROR.to_vec()));
    assert_eq!(s.stream_id_response(b"0-0", 0), (false, ZERO_ERROR.to_vec()));
    assert_eq!(s.last_id(), StreamId { ms: 3, seq: 4 });
    assert_eq!(s.len(), 0);
}

#[test]
fn stream_append_and_range() {
    let mut s = RedisEntryStream::new();
    assert_eq!(s.handle_add(b"s", b"1-1", fields(&[("temp", "36")]), 100).0, b"$3\r\n1-1\r\n".to_vec());
    assert_eq!(s.handle_add(b"s", b"1-2", fields(&[("temp", "37")]), 200).0, b"$3\r\n1-2\r\n".to_vec());
    let expected = b"*2\r\n*2\r\n$3\r\n1-1\r\n*2\r\n$4\r\ntemp\r\n$2\r\n36\r\n*2\r\n$3\r\n1-2\r\n*2\r\n$4\r\ntemp\r\n$2\r\n37\r\n".to_vec();
    assert_eq!(s.get_from_range(b"-", b"+"), expected);
    assert_eq!(s.get_from_range(b"1", b"1"), expected);
    assert_eq!(s.get_from_range(b"1-1", b"1-2"), expected);
    assert_eq!(
        s.get_from_range(b"1-2", b"+"),
        b"*1\r\n*2\r\n$3\r\n1-2\r\n*2\r\n$4\r\ntemp\r\n$2\r\n37\r\n".to_vec()
    );
    assert_eq!(
        s.get_from_range(b"0", b"1-1"),
        b"*1\r\n*2\r\n$3\r\n1-1\r\n*2\r\n$4\r\ntemp\r\n$2\r\n36\r\n".to_vec()
    );
    assert_eq!(s.get_from_range(b"2", b"+"), b"$-1\r\n".to_vec());
    assert_eq!(
        s.get_from_range(b"x", b"+"),
        b"-ERR Invalid stream ID specified as stream command argument\r\n".to_vec()
    );
    assert_eq!(RedisEntryStream::new().get_from_range(b"-", b"+"), b"$-1\r\n".to_vec());
}

#[test]
fn stream_entries_are_linked_and_increasing() {
    let mut s = RedisEntryStream::new();
    s.handle_add(b"s", b"1-1", fields(&[("a", "1")]), 100);
    s.handle_add(b"s", b"1-2", fields(&[("a", "2")]), 200);
    s.handle_add(b"s", b"7-0", fields(&[("a", "3")]), 300);
    let (_, found) = s.xread_range(b"s", b"0-0").unwrap();
    assert_eq!(found.len(), 3);
    for i in 0..found.len() {
        if i > 0 {
            assert!(found[i - 1].id.is_before(&found[i].id));
            assert_eq!(found[i].prev_entry_id, Some(found[i - 1].id));
        } else {
            assert_eq!(found[i].prev_entry_id, None);
        }
        if i + 1 < found.len() {
            assert_eq!(found[i].next_sequence_id, Some(found[i + 1].id));
        } else {
            assert_eq!(found[i].next_sequence_id, None);
        }
    }
    assert_eq!(found[1].insertion_time, 200);
}

#[test]
fn xread_is_exclusive() {
    let mut s = RedisEntryStream::new();
    s.handle_add(b"s", b"1-1", fields(&[("a", "1")]), 100);
    s.handle_add(b"s", b"1-2", fields(&[("a", "2")]), 200);
    let (name, found) = s.xread_range(b"s", b"1-1").unwrap();
    assert_eq!(name, b("s"));
    assert_eq!(found.len(), 1);
    assert_eq!(found[0].id, StreamId { ms: 1, seq: 2 });
    assert!(s.xread_range(b"s", b"1-2").is_none());
    assert!(s.xread_range(b"s", b"$").is_none());
    assert!(s.xread_range(b"s", b"bad").is_none());
    assert_eq!(s.xread_range(b"s", b"-").unwrap().1.len(), 2);
    assert_eq!(s.xread_range(b"s", b"1").unwrap().1.len(), 2);
}

#[test]
fn block_xread_returns_what_was_added_meanwhile() {
    let mut s = RedisEntryStream::new();
    s.handle_add(b"s", b"1-1", fields(&[("a", "1")]), 100);
    s.handle_add(b"s", b"1-2", fields(&[("a", "2")]), 1500);
    s.handle_add(b"s", b"1-3", fields(&[("a", "3")]), 2500);
    let (_, found) = s.block_xread(b"s", 1000, 1000, b"$").unwrap();
    assert_eq!(found.len(), 1);
    assert_eq!(found[0].id, StreamId { ms: 1, seq: 2 });
    assert!(s.block_xread(b"s", 3000, 1000, b"$").is_none());
    let (name, found) = s.block_xread(b"s", 1000, 1000, b"1-2").unwrap();
    assert_eq!(name, b("s"));
    assert_eq!(found.len(), 1);
    assert_eq!(found[0].id, StreamId { ms: 1, seq: 3 });
    assert_eq!(s.block_xread(b"s", 3000, 1000, b"1-1").unwrap().1.len(), 2);
    assert_eq!(s.block_xread(b"s", 3000, 1000, b"-").unwrap().1.len(), 3);
    assert_eq!(s.block_xread(b"s", 3000, 1000, b"0").unwrap().1.len(), 3);
    assert!(s.block_xread(b"s", 1000, 1000, b"1-3").is_none());
    assert!(s.block_xread(b"s", 1000, 1000, b"bad").is_none());
    assert_eq!(s.block_xread(b"s", 0, u64::MAX, b"0-0").unwrap().1.len(), 3);
}

#[test]
fn waiters_are_woken_with_the_new_entry() {
    let mut s = RedisEntryStream::new();
    s.add_waiter(4);
    s.add_waiter(9);
    s.add_waiter(4);
    let (reply, messages) = s.handle_add(b"s", b"2-0", fields(&[("k", "v")]), 10);
    assert_eq!(reply, b"$3\r\n2-0\r\n".to_vec());
    let note = b"*1\r\n*2\r\n$1\r\ns\r\n*1\r\n*2\r\n$3\r\n2-0\r\n*2\r\n$1\r\nk\r\n$1\r\nv\r\n".to_vec();
    assert_eq!(messages, vec![(4, note.clone()), (9, note)]);
    let (_, messages) = s.handle_add(b"s", b"2-1", fields(&[("k", "v")]), 10);
    assert!(messages.is_empty());
}

#[test]
fn entry_fields_as_array() {
    let e = RedisEntry::new(StreamId { ms: 1, seq: 1 }, fields(&[("temperature", "36"), ("humidity", "95")]), None, 0);
    assert_eq!(
        e.entry_resp_array(),
        b"*4\r\n$11\r\ntemperature\r\n$2\r\n36\r\n$8\r\nhumidity\r\n$2\r\n95\r\n".to_vec()
    );
    assert_eq!(e.next_sequence_id, None);
    assert_eq!(e.duplicate(), e);
}

#[test]
fn stream_names_are_paired_with_ids() {
    let lines: Vec<Vec<u8>> = vec![b("XREAD"), b("streams"), b("a"), b("b"), b("0-1"), b("$")];
    assert_eq!(get_all_stream_names(&lines[2..]), vec![(b("a"), b("0-1")), (b("b"), b("$"))]);
    let odd: Vec<Vec<u8>> = vec![b("a"), b("1-1"), b("x")];
    assert_eq!(get_all_stream_names(&odd), vec![(b("a"), b("1-1"))]);
    assert!(get_all_stream_names(&lines[6..]).is_empty());
}

#[test]
fn xread_reply_over_streams() {
    assert_eq!(get_xread_resp_array(&Vec::new()), b"$-1\r\n".to_vec());
    let e1 = RedisEntry::new(StreamId { ms: 1, seq: 1 }, fields(&[("k", "v")]), None, 0);
    let e2 = RedisEntry::new(StreamId { ms: 1, seq: 2 }, fields(&[("k", "w")]), None, 0);
    let found = vec![(b("s"), vec![e1, e2])];
    assert_eq!(
        get_xread_resp_array(&found),
        b"*1\r\n*2\r\n$1\r\ns\r\n*2\r\n*2\r\n$3\r\n1-1\r\n*2\r\n$1\r\nk\r\n$1\r\nv\r\n*2\r\n$3\r\n1-2\r\n*2\r\n$1\r\nk\r\n$1\r\nw\r\n".to_vec()
    );
}

#[test]
fn names_are_ordered_bytewise() {
    assert!(name_before(b"a", b"b"));
    assert!(name_before(b"a", b"ab"));
    assert!(name_before(b"", b"a"));
    assert!(!name_before(b"a", b"a"));
    assert!(!name_before(b"b", b"a"));
    assert!(name_before(b"Z", b"a"));
    assert!(UserScore::new(1, b("z")).stands_before(&UserScore::new(2, b("a"))));
    assert!(UserScore::new(1, b("a")).stands_before(&UserScore::new(1, b("b"))));
    assert!(!UserScore::new(1, b("a")).stands_before(&UserScore::new(1, b("a"))));
}

#[test]
fn sorted_set_orders_by_score_then_name() {
    let mut z = RedisSortedSet::new();
    assert!(z.insert(30, b"carol"));
    assert!(z.insert(10, b"bob"));
    assert!(z.insert(10, b"alice"));
    assert!(z.insert(20, b"dave"));
    assert_eq!(z.len(), 4);
    assert_eq!(z.rank(b"alice"), Some(0));
    assert_eq!(z.rank(b"bob"), Some(1));
    assert_eq!(z.rank(b"dave"), Some(2));
    assert_eq!(z.rank(b"carol"), Some(3));
    assert_eq!(z.rank(b"nobody"), None);
    assert_eq!(
        z.range_resp_array(0, -1),
        b"*4\r\n$5\r\nalice\r\n$3\r\nbob\r\n$4\r\ndave\r\n$5\r\ncarol\r\n".to_vec()
    );
    assert_eq!(z.range_resp_array(1, 2), b"*2\r\n$3\r\nbob\r\n$4\r\ndave\r\n".to_vec());
    assert_eq!(z.range_resp_array(-2, 100), b"*2\r\n$4\r\ndave\r\n$5\r\ncarol\r\n".to_vec());
    assert_eq!(z.range_resp_array(3, 1), b"*0\r\n".to_vec());
    assert_eq!(z.range_resp_array(4, 9), b"*0\r\n".to_vec());
}

#[test]
fn sorted_set_moves_member_on_new_score() {
    let mut z = RedisSortedSet::new();
    assert!(z.insert(1, b"a"));
    assert!(z.insert(2, b"b"));
    assert!(z.insert(3, b"c"));
    assert!(!z.insert(9, b"a"));
    assert_eq!(z.len(), 3);
    assert_eq!(z.rank(b"b"), Some(0));
    assert_eq!(z.rank(b"c"), Some(1));
    assert_eq!(z.rank(b"a"), Some(2));
    assert!(!z.insert(9, b"a"));
    assert_eq!(z.len(), 3);
    assert_eq!(z.rank(b"a"), Some(2));
}

#[test]
fn range_indexes() {
    assert_eq!(resolve_range(5, 0, -1), Some((0, 4)));
    assert_eq!(resolve_range(5, -2, -1), Some((3, 4)));
    assert_eq!(resolve_range(5, -9, 1), Some((0, 1)));
    assert_eq!(resolve_range(5, 2, 99), Some((2, 4)));
    assert_eq!(resolve_range(5, 5, 9), None);
    assert_eq!(resolve_range(5, 3, 2), None);
    assert_eq!(resolve_range(5, 0, -9), None);
    assert_eq!(resolve_range(0, 0, -1), None);
    assert_eq!(resolve_range(3, i64::MIN, i64::MAX), Some((0, 2)));
}

#[test]
fn list_hands_values_to_waiters_in_order() {
    let mut l = RedisList::new(b("l"));
    l.values = vec![b("x"), b("y"), b("z")];
    l.blocking_pop_streams = vec![5, 6];
    let messages = l.check_waiting_streams();
    assert_eq!(
        messages,
        vec![
            (5, b"*2\r\n$1\r\nl\r\n$1\r\nx\r\n".to_vec()),
            (6, b"*2\r\n$1\r\nl\r\n$1\r\ny\r\n".to_vec()),
        ]
    );
    assert_eq!(l.values, vec![b("z")]);
    assert!(l.blocking_pop_streams.is_empty());
    assert!(l.check_waiting_streams().is_empty());
    l.values.clear();
    l.blocking_pop_streams = vec![7];
    assert!(l.check_waiting_streams().is_empty());
    assert_eq!(l.blocking_pop_streams, vec![7]);
}

#[test]
fn channel_and_subscriber_start_empty() {
    let c = Channel::new(&b("news"));
    assert_eq!(c.name, b("news"));
    assert!(c.subscribers.is_empty());
    assert_eq!(c.position_of(3), None);
    let s = Subscriber::new(b("6380"));
    assert_eq!(s.sub_id, b("6380"));
    assert_eq!(s.channel_count, 0);
}

#[test]
fn fan_out_sends_frame_to_every_replica() {
    let mut info = BroadCastInfo::new(5);
    assert_eq!(info.waiting_until, 5);
    assert_eq!(info.add_connection(11), 0);
    assert_eq!(info.add_connection(12), 1);
    let frame = vec![b("SET"), b("k"), b("v")];
    let bytes = b"*3\r\n$3\r\nSET\r\n$1\r\nk\r\n$1\r\nv\r\n".to_vec();
    assert_eq!(info.broadcast_command(&frame), vec![(11, bytes.clone()), (12, bytes)]);
}

#[test]
fn replication_id_is_forty_alphanumerics() {
    let id = random_id_gen();
    assert_eq!(id.len(), 40);
    assert!(id.iter().all(|c| c.is_ascii_alphanumeric()));
    let other = random_id_gen();
    assert_eq!(other.len(), 40);
    assert!(other.iter().all(|c| c.is_ascii_alphanumeric()));
}

#[test]
fn id_is_spelled_from_picks() {
    assert_eq!(id_from_picks(&vec![0, 25, 26, 51, 52, 61]), b"AZaz09".to_vec());
    assert_eq!(charset_byte(0), b'A');
    assert_eq!(charset_byte(61), b'9');
}

#[test]
fn glob_patterns() {
    assert!(matches_pattern(b"*", b""));
    assert!(matches_pattern(b"*", b"anything"));
    assert!(matches_pattern(b"foo", b"foo"));
    assert!(!matches_pattern(b"foo", b"foobar"));
    assert!(matches_pattern(b"f*", b"foo"));
    assert!(matches_pattern(b"*o", b"foo"));
    assert!(matches_pattern(b"f*o", b"fo"));
    assert!(matches_pattern(b"a*b*c", b"a__b__c"));
    assert!(!matches_pattern(b"a*b*c", b"a__c__b"));
    assert!(!matches_pattern(b"", b"x"));
    assert!(matches_pattern(b"**", b"x"));
}

#[test]
fn keys_of_database_zero_matching_pattern() {
    let mut rdb = RdbFile::new(b("0011"));
    let mut other = RedisDatabase::new();
    other.insert(b("hidden"), RedisValue { value: b("1"), expires_at: None });
    let mut db = RedisDatabase::new();
    for key in ["foo", "bar", "foobar", "baz"] {
        db.insert(b(key), RedisValue { value: b("1"), expires_at: None });
    }
    rdb.insert_database(1, other);
    rdb.insert_database(0, db);
    assert_eq!(read_rdb_keys(&rdb, b"*"), vec![b("foo"), b("bar"), b("foobar"), b("baz")]);
    assert_eq!(read_rdb_keys(&rdb, b"foo*"), vec![b("foo"), b("foobar")]);
    assert_eq!(read_rdb_keys(&rdb, b"ba?"), Vec::<Vec<u8>>::new());
    assert_eq!(read_rdb_keys(&rdb, b"*a*"), vec![b("bar"), b("foobar"), b("baz")]);
    let empty = RdbFile::new(b("0011"));
    assert!(read_rdb_keys(&empty, b"*").is_empty());
}

#[test]
fn bytes_as_one_line_of_hex() {
    assert_eq!(print_hex(&[0x00, 0xab, 0xff, 0x10]), b("00 ab ff 10 \n"));
    assert_eq!(print_hex(&[]), b("\n"));
}

#[test]
fn dump_shows_offsets_hex_and_characters() {
    let mut data = b("REDIS0011");
    data.push(0xfa);
    data.extend_from_slice(b"\tredis-ver");
    assert_eq!(
        print_hex_dump(&data),
        b("00000000: 5245 4449 5330 3031 31fa 0972 6564 6973  REDIS0011..redis\n00000010: 2d76 6572                                -ver\n")
    );
    assert_eq!(print_hex_dump(&[]), Vec::<u8>::new());
    let first: Vec<u8> = (0u8..16).collect();
    assert_eq!(
        print_hex_dump(&first),
        b("00000000: 0001 0203 0405 0607 0809 0a0b 0c0d 0e0f  ................\n")
    );
    assert_eq!(
        print_hex_dump(b"abc"),
        b("00000000: 6162 63                                  abc\n")
    );
    assert_eq!(print_hex_dump(b" ~\x7f"), b("00000000: 207e 7f                                   ~.\n"));
}
