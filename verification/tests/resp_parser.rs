use codecrafters_redis::redis_connection::RedisConnection;
use codecrafters_redis::resp_parser::RespConnection;
use codecrafters_redis::utils::{
    format_resp_array, get_bulk_string, get_redis_int, get_resp_from_string, get_simple_str,
};

fn frame(parts: &[&str]) -> Vec<Vec<u8>> {
    parts.iter().map(|p| p.as_bytes().to_vec()).collect()
}

#[test]
fn bulk_string_encoding() {
    assert_eq!(get_bulk_string(b"bar"), b"$3\r\nbar\r\n".to_vec());
    assert_eq!(get_bulk_string(b""), b"$0\r\n\r\n".to_vec());
    assert_eq!(get_bulk_string(b"0123456789"), b"$10\r\n0123456789\r\n".to_vec());
}

#[test]
fn integer_encoding() {
    assert_eq!(get_redis_int(0), b":0\r\n".to_vec());
    assert_eq!(get_redis_int(42), b":42\r\n".to_vec());
    assert_eq!(get_redis_int(-7), b":-7\r\n".to_vec());
    assert_eq!(get_redis_int(i32::MAX), b":2147483647\r\n".to_vec());
    assert_eq!(get_redis_int(i32::MIN), b":-2147483648\r\n".to_vec());
}

#[test]
fn simple_string_encoding() {
    assert_eq!(get_simple_str(b"stream"), b"+stream\r\n".to_vec());
    assert_eq!(RespConnection::get_simple_str(b"OK"), b"+OK\r\n".to_vec());
}

#[test]
fn array_encoding() {
    assert_eq!(
        format_resp_array(&frame(&["SET", "foo", "bar"])),
        b"*3\r\n$3\r\nSET\r\n$3\r\nfoo\r\n$3\r\nbar\r\n".to_vec()
    );
    assert_eq!(format_resp_array(&Vec::new()), b"*0\r\n".to_vec());
    assert_eq!(get_resp_from_string(&frame(&["a"])), b"*1\r\n$1\r\na\r\n".to_vec());
    assert_eq!(
        RespConnection::format_resp_array(&frame(&["REPLCONF", "GETACK", "*"])).len(),
        37
    );
}

#[test]
fn parses_one_frame() {
    let mut conn = RespConnection::new();
    let frames = conn.try_read_command(b"*2\r\n$3\r\nGET\r\n$3\r\nfoo\r\n").unwrap();
    assert_eq!(frames, vec![frame(&["GET", "foo"])]);
    assert_eq!(conn.pending(), 0);
    assert_eq!(conn.bytes_counted(), 22);
}

#[test]
fn nothing_read_gives_none() {
    let mut conn = RespConnection::new();
    assert_eq!(conn.try_read_command(b""), None);
    assert_eq!(conn.bytes_counted(), 0);
}

#[test]
fn parses_several_frames_of_one_read() {
    let mut conn = RespConnection::new();
    let frames = conn
        .try_read_command(b"*1\r\n$4\r\nPING\r\n*2\r\n$4\r\nECHO\r\n$3\r\nhey\r\n*0\r\n")
        .unwrap();
    assert_eq!(frames, vec![frame(&["PING"]), frame(&["ECHO", "hey"]), Vec::<Vec<u8>>::new()]);
}

#[test]
fn partial_frame_stays_in_buffer() {
    let mut conn = RespConnection::new();
    let frames = conn.try_read_command(b"*2\r\n$3\r\nGET\r\n$3\r\nfo").unwrap();
    assert!(frames.is_empty());
    assert_eq!(conn.pending(), 19);
    let frames = conn.try_read_command(b"o\r").unwrap();
    assert!(frames.is_empty());
    let frames = conn.try_read_command(b"\n*1\r\n$4\r\nPI").unwrap();
    assert_eq!(frames, vec![frame(&["GET", "foo"])]);
    assert_eq!(conn.pending(), 10);
    let frames = conn.try_read_command(b"NG\r\n").unwrap();
    assert_eq!(frames, vec![frame(&["PING"])]);
    assert_eq!(conn.pending(), 0);
    assert_eq!(conn.bytes_counted(), 36);
}

#[test]
fn payload_may_hold_line_ends() {
    let mut conn = RespConnection::new();
    let element = b"a\r\nb\n\n".to_vec();
    let encoded = format_resp_array(&vec![b"ECHO".to_vec(), element.clone()]);
    let frames = conn.try_read_command(&encoded).unwrap();
    assert_eq!(frames, vec![vec![b"ECHO".to_vec(), element]]);
}

#[test]
fn parse_of_encode_is_identity() {
    let samples: Vec<Vec<Vec<u8>>> = vec![
        frame(&["SET", "foo", "bar"]),
        frame(&["XADD", "s", "1-1", "temp", "36"]),
        vec![vec![], vec![0, 1, 2, 255], b"$5\r\n".to_vec(), b"*3".to_vec()],
        vec![vec![b'x'; 1000]],
        Vec::new(),
    ];
    for sample in samples {
        let mut conn = RespConnection::new();
        let encoded = format_resp_array(&sample);
        let frames = conn.try_read_command(&encoded).unwrap();
        assert_eq!(frames, vec![sample]);
        assert_eq!(conn.pending(), 0);
    }
}

#[test]
fn noise_lines_are_skipped() {
    let mut conn = RespConnection::new();
    let frames = conn
        .try_read_command(b"+PONG\r\n+OK\r\n:5\r\n-ERR x\r\n\r\n*1\r\n$4\r\nPING\r\n")
        .unwrap();
    assert_eq!(frames, vec![frame(&["PING"])]);
}

#[test]
fn snapshot_blob_is_swallowed_and_offset_reset() {
    let mut conn = RespConnection::new();
    let mut input = b"+FULLRESYNC 75cd7bc10c49047e0d163660f3b90625b1af31dc 0\r\n".to_vec();
    input.extend_from_slice(b"$5\r\n");
    input.extend_from_slice(&[b'R', b'\n', b'*', 0xFF, b'$']);
    input.extend_from_slice(b"*3\r\n$8\r\nREPLCONF\r\n$6\r\nGETACK\r\n$1\r\n*\r\n");
    let frames = conn.try_read_command(&input).unwrap();
    assert_eq!(frames, vec![frame(&["REPLCONF", "GETACK", "*"])]);
    assert_eq!(conn.bytes_counted(), 37);
    let frames = conn.try_read_command(b"*1\r\n$4\r\nPING\r\n").unwrap();
    assert_eq!(frames, vec![frame(&["PING"])]);
    assert_eq!(conn.bytes_counted(), 51);
}

#[test]
fn incomplete_snapshot_blob_waits() {
    let mut conn = RespConnection::new();
    let frames = conn.try_read_command(b"$10\r\n12345").unwrap();
    assert!(frames.is_empty());
    assert_eq!(conn.pending(), 10);
    let frames = conn.try_read_command(b"67890*1\r\n$4\r\nPING\r\n").unwrap();
    assert_eq!(frames, vec![frame(&["PING"])]);
    assert_eq!(conn.bytes_counted(), 14);
}

#[test]
fn malformed_length_is_skipped() {
    let mut conn = RespConnection::new();
    let frames = conn.try_read_command(b"*x\r\n$y\r\n*1\r\n$4\r\nPING\r\n").unwrap();
    assert_eq!(frames, vec![frame(&["PING"])]);
}

#[test]
fn array_with_missing_element_gives_way_to_next_frame() {
    let mut conn = RespConnection::new();
    let frames = conn
        .try_read_command(b"*2\r\n$3\r\nGET\r\n*1\r\n$4\r\nPING\r\n")
        .unwrap();
    assert_eq!(frames, vec![frame(&["PING"])]);
}

#[test]
fn payload_without_line_end_is_skipped() {
    let mut conn = RespConnection::new();
    let frames = conn
        .try_read_command(b"*1\r\n$3\r\nabcde\r\n*1\r\n$4\r\nPING\r\n")
        .unwrap();
    assert_eq!(frames, vec![frame(&["PING"])]);
}

#[test]
fn connection_starts_plain() {
    let mut conn = RedisConnection::new(7);
    assert_eq!(conn.id, 7);
    assert!(!conn.is_master);
    assert!(!conn.multi_waiting);
    assert!(!conn.in_sub_mode);
    assert_eq!(conn.num_channels, 0);
    assert!(conn.queued.is_empty());
    assert_eq!(conn.try_read_command(b""), None);
    let frames = conn.try_read_command(b"*1\r\n$4\r\nPING\r\n").unwrap();
    assert_eq!(frames, vec![frame(&["PING"])]);
    assert_eq!(conn.broadcast_command(&frame(&["SET", "k", "v"])), b"*3\r\n$3\r\nSET\r\n$1\r\nk\r\n$1\r\nv\r\n".to_vec());
    assert_eq!(conn.format_resp_array(&frame(&["a"])), b"*1\r\n$1\r\na\r\n".to_vec());
    assert_eq!(conn.get_simple_str(b"x"), b"+x\r\n".to_vec());
}
