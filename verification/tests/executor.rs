use codecrafters_redis::handler::executor::{parse_verb, score_argument, Verb};
use codecrafters_redis::handler::lists::{poll_blpop, read_seconds};
use codecrafters_redis::handler::replication::{
    finish_wait, keys_response, snapshot_of, snapshot_transfer, wait_satisfied, HandshakeStep,
};
use codecrafters_redis::handler::streams::finish_block_read;
use codecrafters_redis::handler::{
    execute_command, handle_connection, handle_frame, handle_set, Action, Server,
};
use codecrafters_redis::encoding::ByteReader;
use codecrafters_redis::redis_connection::{QueuedCommand, RedisConnection, ReplicaState};
use codecrafters_redis::{read_rdb, Expiration, RdbError, RedisDatabase, RedisValue};

fn b(text: &str) -> Vec<u8> {
    text.as_bytes().to_vec()
}

fn frame(parts: &[&str]) -> Vec<Vec<u8>> {
    parts.iter().map(|p| b(p)).collect()
}

fn cmd(parts: &[&str]) -> QueuedCommand {
    QueuedCommand { frame: frame(parts), score: None }
}

fn primary() -> Server {
    Server::new(None, None, true, b("8371b4fb1155b71f4a04d3e1bc3e18c4a990aeeb"), 0)
}

fn run(server: &mut Server, conn: &mut RedisConnection, parts: &[&str], now_ms: u64) -> Vec<Action> {
    handle_frame(server, conn, cmd(parts), now_ms)
}

fn reply(text: &str) -> Vec<Action> {
    vec![Action::Reply(b(text))]
}

#[test]
fn verbs_are_read_without_regard_to_case() {
    assert_eq!(parse_verb(b"ping"), Verb::Ping);
    assert_eq!(parse_verb(b"PING"), Verb::Ping);
    assert_eq!(parse_verb(b"PiNg"), Verb::Ping);
    assert_eq!(parse_verb(b"SET"), Verb::SetString);
    assert_eq!(parse_verb(b"get"), Verb::GetString);
    assert_eq!(parse_verb(b"xadd"), Verb::Xadd);
    assert_eq!(parse_verb(b"zrange"), Verb::Zrange);
    assert_eq!(parse_verb(b"pingg"), Verb::Unknown);
    assert_eq!(parse_verb(b""), Verb::Unknown);
}

#[test]
fn set_then_get() {
    let mut server = primary();
    let mut conn = RedisConnection::new(1);
    let frames = conn.try_read_command(b"*3\r\n$3\r\nSET\r\n$3\r\nfoo\r\n$3\r\nbar\r\n").unwrap();
    assert_eq!(frames.len(), 1);
    let actions = handle_frame(&mut server, &mut conn, QueuedCommand { frame: frames[0].clone(), score: None }, 1000);
    assert_eq!(actions, reply("+OK\r\n"));
    let frames = conn.try_read_command(b"*2\r\n$3\r\nGET\r\n$3\r\nfoo\r\n").unwrap();
    let actions = handle_frame(&mut server, &mut conn, QueuedCommand { frame: frames[0].clone(), score: None }, 1000);
    assert_eq!(actions, reply("$3\r\nbar\r\n"));
    assert_eq!(run(&mut server, &mut conn, &["GET", "nothing"], 1000), reply("$-1\r\n"));
    assert_eq!(run(&mut server, &mut conn, &["GET"], 1000), reply("$-1\r\n"));
    assert_eq!(run(&mut server, &mut conn, &["SET", "k"], 1000), reply("$-1\r\n"));
}

#[test]
fn value_with_expiry_disappears() {
    let mut server = primary();
    let mut conn = RedisConnection::new(1);
    assert_eq!(run(&mut server, &mut conn, &["SET", "k", "v", "PX", "100"], 1000), reply("+OK\r\n"));
    assert_eq!(
        server.new_db.get(b"k"),
        Some(&RedisValue { value: b("v"), expires_at: Some(Expiration::Milliseconds(1100)) })
    );
    assert_eq!(run(&mut server, &mut conn, &["GET", "k"], 1099), reply("$1\r\nv\r\n"));
    assert_eq!(run(&mut server, &mut conn, &["GET", "k"], 1200), reply("$-1\r\n"));
    assert_eq!(server.new_db.get(b"k"), None);
}

#[test]
fn expired_key_is_absent_from_the_next_keys() {
    let mut server = Server::new(Some(b("/tmp")), Some(b("dump.rdb")), true, b("id"), 0);
    let mut conn = RedisConnection::new(1);
    run(&mut server, &mut conn, &["SET", "k", "v", "px", "100"], 1000);
    run(&mut server, &mut conn, &["SET", "stay", "v"], 1000);
    assert_eq!(run(&mut server, &mut conn, &["GET", "k"], 1100), reply("$-1\r\n"));
    let actions = run(&mut server, &mut conn, &["SAVE"], 1100);
    assert_eq!(actions.len(), 2);
    let saved = match &actions[0] {
        Action::SaveSnapshot { bytes } => bytes.clone(),
        other => panic!("unexpected {:?}", other),
    };
    assert_eq!(actions[1], Action::Reply(b("+OK\r\n")));
    assert_eq!(
        run(&mut server, &mut conn, &["KEYS", "*"], 1100),
        vec![Action::LoadKeys { pattern: b("*") }]
    );
    assert_eq!(keys_response(b"*", Some(saved)), b"*1\r\n$4\r\nstay\r\n".to_vec());
}

#[test]
fn set_with_seconds() {
    let mut server = primary();
    let mut conn = RedisConnection::new(1);
    assert_eq!(run(&mut server, &mut conn, &["SET", "k", "v", "EX", "10"], 5999), reply("+OK\r\n"));
    assert_eq!(
        server.new_db.get(b"k"),
        Some(&RedisValue { value: b("v"), expires_at: Some(Expiration::Seconds(15)) })
    );
    assert_eq!(run(&mut server, &mut conn, &["GET", "k"], 14999), reply("$1\r\nv\r\n"));
    assert_eq!(run(&mut server, &mut conn, &["GET", "k"], 15000), reply("$-1\r\n"));
}

#[test]
fn set_with_bad_expiry() {
    let mut server = primary();
    let mut conn = RedisConnection::new(1);
    assert_eq!(run(&mut server, &mut conn, &["SET", "k", "v", "ZZ", "10"], 0), reply("-ERR syntax error\r\n"));
    assert_eq!(
        run(&mut server, &mut conn, &["SET", "k", "v", "PX", "soon"], 0),
        reply("-ERR value is not an integer or out of range\r\n")
    );
    assert_eq!(
        run(&mut server, &mut conn, &["SET", "k", "v", "EX", "4294967296"], 0),
        reply("-ERR value is not an integer or out of range\r\n")
    );
    assert_eq!(server.new_db.len(), 0);
}

#[test]
fn handle_set_reports_what_is_wrong() {
    let mut db = RedisDatabase::new();
    assert_eq!(handle_set(b("k"), b("v"), &mut db, None, 0), Ok(()));
    assert_eq!(
        handle_set(b("k"), b("v"), &mut db, Some((b"xx", b"1")), 0),
        Err(RdbError::UnsupportedFeature("WRONG SET ARGUMENTS"))
    );
    assert_eq!(
        handle_set(b("k"), b("v"), &mut db, Some((b"px", b"-1")), 0),
        Err(RdbError::UnsupportedFeature("INVALID EXPIRE TIME"))
    );
    assert_eq!(handle_set(b("k"), b("w"), &mut db, Some((b"Px", b"7")), 3), Ok(()));
    assert_eq!(
        db.get(b"k"),
        Some(&RedisValue { value: b("w"), expires_at: Some(Expiration::Milliseconds(10)) })
    );
}

#[test]
fn incr_counts_and_refuses_text() {
    let mut server = primary();
    let mut conn = RedisConnection::new(1);
    assert_eq!(run(&mut server, &mut conn, &["INCR", "n"], 0), reply(":1\r\n"));
    assert_eq!(run(&mut server, &mut conn, &["INCR", "n"], 0), reply(":2\r\n"));
    assert_eq!(run(&mut server, &mut conn, &["GET", "n"], 0), reply("$1\r\n2\r\n"));
    run(&mut server, &mut conn, &["SET", "s", "abc"], 0);
    assert_eq!(
        run(&mut server, &mut conn, &["INCR", "s"], 0),
        reply("-ERR value is not an integer or out of range\r\n")
    );
    assert_eq!(run(&mut server, &mut conn, &["GET", "s"], 0), reply("$3\r\nabc\r\n"));
    run(&mut server, &mut conn, &["SET", "neg", "-5"], 0);
    assert_eq!(run(&mut server, &mut conn, &["INCR", "neg"], 0), reply(":-4\r\n"));
    run(&mut server, &mut conn, &["SET", "top", "2147483647"], 0);
    assert_eq!(
        run(&mut server, &mut conn, &["INCR", "top"], 0),
        reply("-ERR value is not an integer or out of range\r\n")
    );
    run(&mut server, &mut conn, &["SET", "gone", "41", "px", "10"], 0);
    assert_eq!(run(&mut server, &mut conn, &["INCR", "gone"], 100), reply(":1\r\n"));
}

#[test]
fn del_counts_removed_keys() {
    let mut server = primary();
    let mut conn = RedisConnection::new(1);
    run(&mut server, &mut conn, &["SET", "a", "1"], 0);
    run(&mut server, &mut conn, &["SET", "b", "1"], 0);
    assert_eq!(run(&mut server, &mut conn, &["DEL", "a", "x", "a", "b"], 0), reply(":2\r\n"));
    assert_eq!(server.new_db.len(), 0);
    assert_eq!(
        run(&mut server, &mut conn, &["DEL"], 0),
        reply("-ERR wrong number of arguments for 'DEL' command\r\n")
    );
}

#[test]
fn exec_without_multi() {
    let mut server = primary();
    let mut conn = RedisConnection::new(1);
    assert_eq!(run(&mut server, &mut conn, &["EXEC"], 0), reply("-ERR EXEC without MULTI\r\n"));
    assert_eq!(run(&mut server, &mut conn, &["DISCARD"], 0), reply("-ERR DISCARD without MULTI\r\n"));
}

#[test]
fn transaction_runs_queue_in_order() {
    let mut server = primary();
    let mut conn = RedisConnection::new(1);
    assert_eq!(run(&mut server, &mut conn, &["MULTI"], 0), reply("+OK\r\n"));
    assert!(conn.multi_waiting);
    assert_eq!(run(&mut server, &mut conn, &["INCR", "n"], 0), reply("+QUEUED\r\n"));
    assert_eq!(run(&mut server, &mut conn, &["INCR", "n"], 0), reply("+QUEUED\r\n"));
    assert_eq!(server.new_db.len(), 0);
    assert_eq!(run(&mut server, &mut conn, &["EXEC"], 0), reply("*2\r\n:1\r\n:2\r\n"));
    assert!(!conn.multi_waiting);
    assert!(conn.queued.is_empty());
    assert_eq!(run(&mut server, &mut conn, &["GET", "n"], 0), reply("$1\r\n2\r\n"));
}

#[test]
fn empty_transaction_and_discard() {
    let mut server = primary();
    let mut conn = RedisConnection::new(1);
    run(&mut server, &mut conn, &["MULTI"], 0);
    assert_eq!(run(&mut server, &mut conn, &["EXEC"], 0), reply("*0\r\n"));
    run(&mut server, &mut conn, &["MULTI"], 0);
    assert_eq!(run(&mut server, &mut conn, &["SET", "k", "v"], 0), reply("+QUEUED\r\n"));
    assert_eq!(run(&mut server, &mut conn, &["DISCARD"], 0), reply("+OK\r\n"));
    assert!(!conn.multi_waiting);
    assert!(conn.queued.is_empty());
    assert_eq!(run(&mut server, &mut conn, &["GET", "k"], 0), reply("$-1\r\n"));
}

#[test]
fn transaction_passes_other_actions_through() {
    let mut server = primary();
    let mut replica = RedisConnection::new(2);
    run(&mut server, &mut replica, &["PSYNC", "?", "-1"], 0);
    let mut conn = RedisConnection::new(1);
    run(&mut server, &mut conn, &["MULTI"], 0);
    run(&mut server, &mut conn, &["SET", "k", "v"], 0);
    run(&mut server, &mut conn, &["GET", "k"], 0);
    let actions = run(&mut server, &mut conn, &["EXEC"], 0);
    assert_eq!(
        actions,
        vec![
            Action::Send { conn: 2, bytes: b("*3\r\n$3\r\nSET\r\n$1\r\nk\r\n$1\r\nv\r\n") },
            Action::Reply(b("*2\r\n+OK\r\n$1\r\nv\r\n")),
        ]
    );
}

#[test]
fn lrange_on_missing_list_is_empty_array() {
    let mut server = primary();
    let mut conn = RedisConnection::new(1);
    assert_eq!(run(&mut server, &mut conn, &["LRANGE", "l", "0", "-1"], 0), reply("*0\r\n"));
    assert_eq!(run(&mut server, &mut conn, &["LLEN", "l"], 0), reply(":0\r\n"));
    assert_eq!(run(&mut server, &mut conn, &["LPOP", "l"], 0), reply("$-1\r\n"));
}

#[test]
fn list_push_range_pop() {
    let mut server = primary();
    let mut conn = RedisConnection::new(1);
    assert_eq!(run(&mut server, &mut conn, &["RPUSH", "l", "a", "b", "c"], 0), reply(":3\r\n"));
    assert_eq!(run(&mut server, &mut conn, &["LPUSH", "l", "x", "y"], 0), reply(":5\r\n"));
    assert_eq!(
        run(&mut server, &mut conn, &["LRANGE", "l", "0", "-1"], 0),
        reply("*5\r\n$1\r\ny\r\n$1\r\nx\r\n$1\r\na\r\n$1\r\nb\r\n$1\r\nc\r\n")
    );
    assert_eq!(run(&mut server, &mut conn, &["LRANGE", "l", "-2", "-1"], 0), reply("*2\r\n$1\r\nb\r\n$1\r\nc\r\n"));
    assert_eq!(run(&mut server, &mut conn, &["LRANGE", "l", "1", "zz"], 0), reply("-ERR value is not an integer or out of range\r\n"));
    assert_eq!(run(&mut server, &mut conn, &["LLEN", "l"], 0), reply(":5\r\n"));
    assert_eq!(run(&mut server, &mut conn, &["LPOP", "l"], 0), reply("$1\r\ny\r\n"));
    assert_eq!(run(&mut server, &mut conn, &["LPOP", "l", "2"], 0), reply("*2\r\n$1\r\nx\r\n$1\r\na\r\n"));
    assert_eq!(run(&mut server, &mut conn, &["LPOP", "l", "9"], 0), reply("*2\r\n$1\r\nb\r\n$1\r\nc\r\n"));
    assert_eq!(run(&mut server, &mut conn, &["LPOP", "l"], 0), reply("$-1\r\n"));
    assert_eq!(run(&mut server, &mut conn, &["LPOP", "l", "0"], 0), reply("*0\r\n"));
}

#[test]
fn blpop_now_later_and_with_timeout() {
    let mut server = primary();
    let mut a = RedisConnection::new(1);
    let mut c = RedisConnection::new(3);
    run(&mut server, &mut c, &["RPUSH", "l", "v1"], 0);
    assert_eq!(run(&mut server, &mut a, &["BLPOP", "l", "0"], 0), reply("*2\r\n$1\r\nl\r\n$2\r\nv1\r\n"));
    assert_eq!(run(&mut server, &mut a, &["BLPOP", "l", "0"], 0), Vec::<Action>::new());
    assert_eq!(
        run(&mut server, &mut c, &["RPUSH", "l", "v2", "v3"], 0),
        vec![
            Action::Send { conn: 1, bytes: b("*2\r\n$1\r\nl\r\n$2\r\nv2\r\n") },
            Action::Reply(b(":2\r\n")),
        ]
    );
    assert_eq!(run(&mut server, &mut c, &["LLEN", "l"], 0), reply(":1\r\n"));
    assert_eq!(
        run(&mut server, &mut a, &["BLPOP", "q", "0.5"], 1000),
        vec![Action::PollList { key: b("q"), until_ms: 1500, every_ms: 50 }]
    );
    assert_eq!(poll_blpop(&mut server.lists_map, b"q", 1050, 1500), None);
    run(&mut server, &mut c, &["RPUSH", "q", "late"], 1060);
    assert_eq!(
        poll_blpop(&mut server.lists_map, b"q", 1100, 1500),
        Some(b("*2\r\n$1\r\nq\r\n$4\r\nlate\r\n"))
    );
    assert_eq!(poll_blpop(&mut server.lists_map, b"q", 1501, 1500), Some(b("$-1\r\n")));
    assert_eq!(
        run(&mut server, &mut a, &["BLPOP", "q", "soon"], 0),
        reply("-ERR value is not an integer or out of range\r\n")
    );
}

#[test]
fn seconds_as_milliseconds() {
    assert_eq!(read_seconds(b"0"), Some(0));
    assert_eq!(read_seconds(b"2"), Some(2000));
    assert_eq!(read_seconds(b"0.1"), Some(100));
    assert_eq!(read_seconds(b"1.5"), Some(1500));
    assert_eq!(read_seconds(b"0.05"), Some(50));
    assert_eq!(read_seconds(b"0.1239"), Some(123));
    assert_eq!(read_seconds(b"3."), Some(3000));
    assert_eq!(read_seconds(b".5"), None);
    assert_eq!(read_seconds(b"1.x"), None);
    assert_eq!(read_seconds(b"-1"), None);
    assert_eq!(read_seconds(b""), None);
}

#[test]
fn stream_append_and_range_over_the_wire() {
    let mut server = primary();
    let mut conn = RedisConnection::new(1);
    assert_eq!(run(&mut server, &mut conn, &["XADD", "s", "1-1", "temp", "36"], 0), reply("$3\r\n1-1\r\n"));
    assert_eq!(run(&mut server, &mut conn, &["XADD", "s", "1-2", "temp", "37"], 0), reply("$3\r\n1-2\r\n"));
    assert_eq!(
        run(&mut server, &mut conn, &["XRANGE", "s", "-", "+"], 0),
        reply("*2\r\n*2\r\n$3\r\n1-1\r\n*2\r\n$4\r\ntemp\r\n$2\r\n36\r\n*2\r\n$3\r\n1-2\r\n*2\r\n$4\r\ntemp\r\n$2\r\n37\r\n")
    );
    assert_eq!(
        run(&mut server, &mut conn, &["XADD", "s", "0-0", "temp", "1"], 0),
        reply("-ERR The ID specified in XADD must be greater than 0-0\r\n")
    );
    assert_eq!(
        run(&mut server, &mut conn, &["XADD", "s", "1-2", "temp", "1"], 0),
        reply("-ERR The ID specified in XADD is equal or smaller than the target stream top item\r\n")
    );
    assert_eq!(
        run(&mut server, &mut conn, &["XADD", "s", "2-0", "temp"], 0),
        reply("-ERR wrong number of arguments for 'XADD' command\r\n")
    );
    assert_eq!(run(&mut server, &mut conn, &["XRANGE", "nothing", "-", "+"], 0), reply("$-1\r\n"));
    assert_eq!(run(&mut server, &mut conn, &["TYPE", "s"], 0), reply("+stream\r\n"));
    assert_eq!(run(&mut server, &mut conn, &["TYPE", "nothing"], 0), reply("+none\r\n"));
    run(&mut server, &mut conn, &["SET", "k", "v"], 0);
    assert_eq!(run(&mut server, &mut conn, &["TYPE", "k"], 0), reply("+string\r\n"));
}

#[test]
fn xread_after_an_id() {
    let mut server = primary();
    let mut conn = RedisConnection::new(1);
    run(&mut server, &mut conn, &["XADD", "a", "1-1", "k", "v"], 0);
    run(&mut server, &mut conn, &["XADD", "b", "2-1", "k", "w"], 0);
    assert_eq!(
        run(&mut server, &mut conn, &["XREAD", "streams", "a", "b", "0-0", "2-0"], 0),
        reply("*2\r\n*2\r\n$1\r\na\r\n*1\r\n*2\r\n$3\r\n1-1\r\n*2\r\n$1\r\nk\r\n$1\r\nv\r\n*2\r\n$1\r\nb\r\n*1\r\n*2\r\n$3\r\n2-1\r\n*2\r\n$1\r\nk\r\n$1\r\nw\r\n")
    );
    assert_eq!(run(&mut server, &mut conn, &["XREAD", "streams", "a", "1-1"], 0), reply("$-1\r\n"));
    assert_eq!(run(&mut server, &mut conn, &["XREAD", "streams", "zz", "0-0"], 0), reply("$-1\r\n"));
}

#[test]
fn blocking_xread_is_answered_by_the_next_xadd() {
    let mut server = primary();
    let mut a = RedisConnection::new(1);
    let mut bb = RedisConnection::new(2);
    assert_eq!(run(&mut server, &mut a, &["XREAD", "BLOCK", "0", "STREAMS", "s", "$"], 0), Vec::<Action>::new());
    assert_eq!(
        run(&mut server, &mut bb, &["XADD", "s", "2-0", "k", "v"], 0),
        vec![
            Action::Send {
                conn: 1,
                bytes: b("*1\r\n*2\r\n$1\r\ns\r\n*1\r\n*2\r\n$3\r\n2-0\r\n*2\r\n$1\r\nk\r\n$1\r\nv\r\n"),
            },
            Action::Reply(b("$3\r\n2-0\r\n")),
        ]
    );
    assert_eq!(run(&mut server, &mut bb, &["XADD", "s", "2-1", "k", "v"], 0), reply("$3\r\n2-1\r\n"));
}

#[test]
fn xread_with_timed_block() {
    let mut server = primary();
    let mut a = RedisConnection::new(1);
    let mut bb = RedisConnection::new(2);
    run(&mut server, &mut bb, &["XADD", "s", "1-0", "k", "old"], 900);
    let actions = run(&mut server, &mut a, &["XREAD", "block", "1000", "streams", "s", "$"], 1000);
    let streams = vec![(b("s"), b("$"))];
    assert_eq!(actions, vec![Action::BlockRead { ms: 1000, started: 1000, streams: streams.clone() }]);
    run(&mut server, &mut bb, &["XADD", "s", "2-0", "k", "new"], 1500);
    assert_eq!(
        finish_block_read(&server.entry_streams, &streams, 1000, 1000),
        b("*1\r\n*2\r\n$1\r\ns\r\n*1\r\n*2\r\n$3\r\n2-0\r\n*2\r\n$1\r\nk\r\n$3\r\nnew\r\n")
    );
    assert_eq!(finish_block_read(&server.entry_streams, &streams, 2000, 1000), b("$-1\r\n"));
    let after_old = vec![(b("s"), b("1-0"))];
    assert_eq!(
        finish_block_read(&server.entry_streams, &after_old, 2000, 1000),
        b("*1\r\n*2\r\n$1\r\ns\r\n*1\r\n*2\r\n$3\r\n2-0\r\n*2\r\n$1\r\nk\r\n$3\r\nnew\r\n")
    );
    let from_start = vec![(b("s"), b("0-0"))];
    assert_eq!(
        finish_block_read(&server.entry_streams, &from_start, 2000, 1000),
        b("*1\r\n*2\r\n$1\r\ns\r\n*2\r\n*2\r\n$3\r\n1-0\r\n*2\r\n$1\r\nk\r\n$3\r\nold\r\n*2\r\n$3\r\n2-0\r\n*2\r\n$1\r\nk\r\n$3\r\nnew\r\n")
    );
    assert_eq!(
        run(&mut server, &mut a, &["XREAD", "block", "x", "streams", "s", "$"], 0),
        reply("-ERR value is not an integer or out of range\r\n")
    );
}

#[test]
fn handshake_messages_in_order() {
    let step = HandshakeStep::first();
    let (bytes, step, pause_ms) = step.advance(b"6380");
    assert_eq!(bytes, Some(b("*1\r\n$4\r\nPING\r\n")));
    assert_eq!(pause_ms, 10);
    let (bytes, step, _) = step.advance(b"6380");
    assert_eq!(bytes, Some(b("*3\r\n$8\r\nREPLCONF\r\n$14\r\nlistening-port\r\n$4\r\n6380\r\n")));
    let (bytes, step, _) = step.advance(b"6380");
    assert_eq!(bytes, Some(b("*3\r\n$8\r\nREPLCONF\r\n$4\r\ncapa\r\n$6\r\npsync2\r\n")));
    let (bytes, step, _) = step.advance(b"6380");
    assert_eq!(bytes, Some(b("*3\r\n$5\r\nPSYNC\r\n$1\r\n?\r\n$2\r\n-1\r\n")));
    assert_eq!(step, HandshakeStep::Done);
    assert_eq!(step.advance(b"6380"), (None, HandshakeStep::Done, 0));
}

#[test]
fn primary_answers_handshake_and_fans_out_writes() {
    let mut server = primary();
    let mut replica = RedisConnection::new(9);
    assert_eq!(run(&mut server, &mut replica, &["PING"], 0), reply("+PONG\r\n"));
    assert_eq!(replica.replica_state, None);
    assert_eq!(run(&mut server, &mut replica, &["REPLCONF", "listening-port", "6380"], 0), reply("+OK\r\n"));
    assert_eq!(replica.replica_state, Some(ReplicaState::Handshaking));
    assert_eq!(server.broadcast_info.ports, vec![b("6380")]);
    assert_eq!(run(&mut server, &mut replica, &["REPLCONF", "capa", "psync2"], 0), reply("+OK\r\n"));
    assert_eq!(replica.replica_state, Some(ReplicaState::Handshaking));
    assert_eq!(
        run(&mut server, &mut replica, &["PSYNC", "?", "-1"], 0),
        vec![
            Action::Reply(b("+FULLRESYNC 8371b4fb1155b71f4a04d3e1bc3e18c4a990aeeb 0\r\n")),
            Action::SendSnapshot,
        ]
    );
    assert_eq!(server.broadcast_info.connections, vec![9]);
    assert_eq!(replica.replica_state, Some(ReplicaState::Ready));
    assert_eq!(snapshot_transfer(b"REDIS"), b("$5\r\nREDIS"));
    let mut client = RedisConnection::new(1);
    assert_eq!(
        run(&mut server, &mut client, &["SET", "k", "v"], 0),
        vec![
            Action::Send { conn: 9, bytes: b("*3\r\n$3\r\nSET\r\n$1\r\nk\r\n$1\r\nv\r\n") },
            Action::Reply(b("+OK\r\n")),
        ]
    );
}

#[test]
fn replica_applies_writes_of_its_primary_silently() {
    let mut server = Server::new(None, None, false, b("id"), 0);
    let mut link = RedisConnection::new(1);
    link.is_master = true;
    let mut input = b("+FULLRESYNC 8371b4fb1155b71f4a04d3e1bc3e18c4a990aeeb 0\r\n$3\r\nabc");
    input.extend_from_slice(b"*3\r\n$3\r\nSET\r\n$1\r\nk\r\n$1\r\nv\r\n");
    input.extend_from_slice(b"*3\r\n$8\r\nREPLCONF\r\n$6\r\nGETACK\r\n$1\r\n*\r\n");
    let frames = link.try_read_command(&input).unwrap();
    let commands: Vec<QueuedCommand> =
        frames.into_iter().map(|frame| QueuedCommand { frame, score: None }).collect();
    let actions = handle_connection(&mut server, &mut link, commands, 0);
    assert_eq!(actions, reply("*3\r\n$8\r\nREPLCONF\r\n$3\r\nACK\r\n$2\r\n27\r\n"));
    assert_eq!(server.new_db.get(b"k"), Some(&RedisValue { value: b("v"), expires_at: None }));
    assert_eq!(run(&mut server, &mut link, &["PING"], 0), Vec::<Action>::new());
    let mut client = RedisConnection::new(2);
    assert_eq!(run(&mut server, &mut client, &["SET", "a", "b"], 0), reply("+OK\r\n"));
}

#[test]
fn replconf_getack_before_any_byte_acknowledges_zero() {
    let mut server = Server::new(None, None, false, b("id"), 0);
    let mut link = RedisConnection::new(1);
    assert_eq!(
        run(&mut server, &mut link, &["REPLCONF", "GETACK", "*"], 0),
        reply("*3\r\n$8\r\nREPLCONF\r\n$3\r\nACK\r\n$1\r\n0\r\n")
    );
}

#[test]
fn wait_without_writes_replies_with_replica_count() {
    let mut server = primary();
    run(&mut server, &mut RedisConnection::new(8), &["PSYNC", "?", "-1"], 0);
    run(&mut server, &mut RedisConnection::new(9), &["PSYNC", "?", "-1"], 0);
    let mut client = RedisConnection::new(1);
    assert_eq!(run(&mut server, &mut client, &["WAIT", "2", "1000"], 0), reply(":2\r\n"));
    assert_eq!(run(&mut server, &mut client, &["WAIT", "x", "1000"], 0), reply("-ERR value is not an integer or out of range\r\n"));
}

#[test]
fn wait_after_write_counts_acknowledgements() {
    let mut server = primary();
    let mut r1 = RedisConnection::new(8);
    let mut r2 = RedisConnection::new(9);
    run(&mut server, &mut r1, &["PSYNC", "?", "-1"], 0);
    run(&mut server, &mut r2, &["PSYNC", "?", "-1"], 0);
    let mut client = RedisConnection::new(1);
    run(&mut server, &mut client, &["SET", "k", "v"], 0);
    assert!(client.has_written);
    let probe = b("*3\r\n$8\r\nREPLCONF\r\n$6\r\nGETACK\r\n$1\r\n*\r\n");
    assert_eq!(
        run(&mut server, &mut client, &["WAIT", "1", "500"], 1000),
        vec![
            Action::Send { conn: 8, bytes: probe.clone() },
            Action::Send { conn: 9, bytes: probe },
            Action::AwaitAcks { ms: 500 },
        ]
    );
    assert_eq!(server.broadcast_info.num_waiting_for, 1);
    assert_eq!(server.broadcast_info.waiting_until, 1500);
    assert!(!wait_satisfied(&server.broadcast_info));
    assert_eq!(run(&mut server, &mut r1, &["REPLCONF", "ACK", "31"], 1100), Vec::<Action>::new());
    assert!(wait_satisfied(&server.broadcast_info));
    assert_eq!(run(&mut server, &mut r2, &["REPLCONF", "ACK", "31"], 1100), Vec::<Action>::new());
    assert_eq!(finish_wait(&mut server.broadcast_info), b(":1\r\n"));
    assert_eq!(server.broadcast_info.num_acks, 0);
    assert_eq!(server.broadcast_info.num_waiting_for, 0);
    assert_eq!(run(&mut server, &mut r1, &["REPLCONF", "ACK", "31"], 1100), Vec::<Action>::new());
    assert_eq!(server.broadcast_info.num_acks, 0);
}

#[test]
fn subscribe_mode_restricts_commands() {
    let mut server = primary();
    let mut conn = RedisConnection::new(1);
    assert_eq!(
        run(&mut server, &mut conn, &["SUBSCRIBE", "news"], 0),
        reply("*3\r\n$9\r\nsubscribe\r\n$4\r\nnews\r\n:1\r\n")
    );
    assert!(conn.in_sub_mode);
    assert_eq!(run(&mut server, &mut conn, &["SUBSCRIBE", "news"], 0), Vec::<Action>::new());
    assert_eq!(
        run(&mut server, &mut conn, &["SUBSCRIBE", "sport"], 0),
        reply("*3\r\n$9\r\nsubscribe\r\n$5\r\nsport\r\n:2\r\n")
    );
    assert_eq!(
        run(&mut server, &mut conn, &["ECHO", "hey"], 0),
        reply("-ERR Can't execute 'ECHO': only (P|S)SUBSCRIBE / (P|S)UNSUBSCRIBE / PING / QUIT / RESET are allowed in this context\r\n")
    );
    assert_eq!(run(&mut server, &mut conn, &["PING"], 0), reply("*2\r\n$4\r\npong\r\n$0\r\n\r\n"));
    assert_eq!(
        run(&mut server, &mut conn, &["UNSUBSCRIBE", "news"], 0),
        reply("*3\r\n$11\r\nunsubscribe\r\n$4\r\nnews\r\n:1\r\n")
    );
    assert!(conn.in_sub_mode);
    assert_eq!(run(&mut server, &mut conn, &["UNSUBSCRIBE", "news"], 0), Vec::<Action>::new());
    assert_eq!(
        run(&mut server, &mut conn, &["UNSUBSCRIBE", "sport"], 0),
        reply("*3\r\n$11\r\nunsubscribe\r\n$5\r\nsport\r\n:0\r\n")
    );
    assert!(!conn.in_sub_mode);
    assert_eq!(run(&mut server, &mut conn, &["ECHO", "hey"], 0), reply("+hey\r\n"));
}

#[test]
fn publish_reaches_every_subscriber() {
    let mut server = primary();
    let mut a = RedisConnection::new(1);
    let mut c = RedisConnection::new(3);
    let mut p = RedisConnection::new(5);
    run(&mut server, &mut a, &["SUBSCRIBE", "news"], 0);
    run(&mut server, &mut c, &["SUBSCRIBE", "news"], 0);
    let message = b("*3\r\n$7\r\nmessage\r\n$4\r\nnews\r\n$5\r\nhello\r\n");
    assert_eq!(
        run(&mut server, &mut p, &["PUBLISH", "news", "hello"], 0),
        vec![
            Action::Send { conn: 1, bytes: message.clone() },
            Action::Send { conn: 3, bytes: message },
            Action::Reply(b(":2\r\n")),
        ]
    );
    assert_eq!(run(&mut server, &mut p, &["PUBLISH", "void", "hello"], 0), reply(":0\r\n"));
}

#[test]
fn sorted_set_commands() {
    let mut server = primary();
    let mut conn = RedisConnection::new(1);
    let add = |server: &mut Server, conn: &mut RedisConnection, member: &str, score: Option<u64>| {
        let command = QueuedCommand { frame: frame(&["ZADD", "z", "ignored", member]), score };
        handle_frame(server, conn, command, 0)
    };
    assert_eq!(add(&mut server, &mut conn, "b", Some(20)), reply(":1\r\n"));
    assert_eq!(add(&mut server, &mut conn, "a", Some(20)), reply(":1\r\n"));
    assert_eq!(add(&mut server, &mut conn, "c", Some(10)), reply(":1\r\n"));
    assert_eq!(add(&mut server, &mut conn, "c", Some(30)), reply(":0\r\n"));
    assert_eq!(add(&mut server, &mut conn, "d", None), reply("-ERR value is not a valid float\r\n"));
    assert_eq!(run(&mut server, &mut conn, &["ZCARD", "z"], 0), reply(":3\r\n"));
    assert_eq!(run(&mut server, &mut conn, &["ZCARD", "none"], 0), reply(":0\r\n"));
    assert_eq!(run(&mut server, &mut conn, &["ZRANK", "z", "a"], 0), reply(":0\r\n"));
    assert_eq!(run(&mut server, &mut conn, &["ZRANK", "z", "c"], 0), reply(":2\r\n"));
    assert_eq!(run(&mut server, &mut conn, &["ZRANK", "z", "zz"], 0), reply("$-1\r\n"));
    assert_eq!(run(&mut server, &mut conn, &["ZRANK", "none", "a"], 0), reply("$-1\r\n"));
    assert_eq!(
        run(&mut server, &mut conn, &["ZRANGE", "z", "0", "-1"], 0),
        reply("*3\r\n$1\r\na\r\n$1\r\nb\r\n$1\r\nc\r\n")
    );
    assert_eq!(run(&mut server, &mut conn, &["ZRANGE", "none", "0", "-1"], 0), reply("*0\r\n"));
    assert_eq!(score_argument(&frame(&["zadd", "z", "1.5", "m"])), Some(&b("1.5")));
    assert_eq!(score_argument(&frame(&["ZRANK", "z", "m"])), None);
    assert_eq!(score_argument(&frame(&["ZADD", "z"])), None);
}

#[test]
fn config_info_and_plain_commands() {
    let mut server = Server::new(Some(b("/tmp/redis")), None, true, b("abc"), 0);
    let mut conn = RedisConnection::new(1);
    assert_eq!(
        run(&mut server, &mut conn, &["CONFIG", "GET", "dir"], 0),
        reply("*2\r\n$3\r\ndir\r\n$10\r\n/tmp/redis\r\n")
    );
    assert_eq!(run(&mut server, &mut conn, &["config", "get", "DBFILENAME"], 0), reply("$-1\r\n"));
    assert_eq!(run(&mut server, &mut conn, &["CONFIG", "GET", "port"], 0), reply("*0\r\n"));
    assert_eq!(
        run(&mut server, &mut conn, &["INFO", "replication"], 0),
        reply("$52\r\nrole:master\r\nmaster_replid:abc\r\nmaster_repl_offset:0\r\n")
    );
    assert_eq!(run(&mut server, &mut conn, &["ECHO", "hey"], 0), reply("+hey\r\n"));
    assert_eq!(
        run(&mut server, &mut conn, &["ECHO"], 0),
        reply("-ERR wrong number of arguments for 'ECHO' command\r\n")
    );
    assert_eq!(run(&mut server, &mut conn, &["FLY", "me"], 0), reply("-ERR unknown command 'FLY'\r\n"));
    assert_eq!(run(&mut server, &mut conn, &["COMMAND", "DOCS"], 0), vec![Action::Close]);
    assert_eq!(run(&mut server, &mut conn, &["SAVE"], 0), reply("+OK\r\n"));
    assert_eq!(handle_frame(&mut server, &mut conn, QueuedCommand { frame: Vec::new(), score: None }, 0), Vec::<Action>::new());
    let replica = Server::new(None, None, false, b("abc"), 0);
    assert!(!replica.is_master());
    assert!(server.is_master());
}

#[test]
fn keys_reply_from_snapshot_bytes() {
    let mut db = RedisDatabase::new();
    db.insert(b("foo"), RedisValue { value: b("bar"), expires_at: None });
    db.insert(b("baz"), RedisValue { value: b("1"), expires_at: Some(Expiration::Seconds(9)) });
    let bytes = snapshot_of(&db).unwrap();
    let mut reader = ByteReader::new(bytes.clone());
    let rdb = read_rdb(&mut reader).unwrap();
    assert_eq!(rdb.version(), &b("0011"));
    assert_eq!(rdb.database(0), Some(&db));
    assert_eq!(keys_response(b"*", Some(bytes.clone())), b("*2\r\n$3\r\nfoo\r\n$3\r\nbaz\r\n"));
    assert_eq!(keys_response(b"f*", Some(bytes)), b("*1\r\n$3\r\nfoo\r\n"));
    assert_eq!(keys_response(b"*", None), b("$-1\r\n"));
    assert_eq!(keys_response(b"*", Some(b("garbage"))), b("$-1\r\n"));
}

#[test]
fn frames_of_one_read_are_handled_in_order() {
    let mut server = primary();
    let mut conn = RedisConnection::new(1);
    let commands = vec![
        cmd(&["SET", "n", "5"]),
        cmd(&["INCR", "n"]),
        cmd(&["MULTI"]),
        cmd(&["INCR", "n"]),
        cmd(&["EXEC"]),
        cmd(&["GET", "n"]),
    ];
    let actions = handle_connection(&mut server, &mut conn, commands, 0);
    assert_eq!(
        actions,
        vec![
            Action::Reply(b("+OK\r\n")),
            Action::Reply(b(":6\r\n")),
            Action::Reply(b("+OK\r\n")),
            Action::Reply(b("+QUEUED\r\n")),
            Action::Reply(b("*1\r\n:7\r\n")),
            Action::Reply(b("$1\r\n7\r\n")),
        ]
    );
}

#[test]
fn closed_connection_is_forgotten() {
    let mut server = primary();
    let mut a = RedisConnection::new(1);
    let mut c = RedisConnection::new(3);
    run(&mut server, &mut a, &["PSYNC", "?", "-1"], 0);
    run(&mut server, &mut c, &["PSYNC", "?", "-1"], 0);
    run(&mut server, &mut a, &["BLPOP", "l", "0"], 0);
    run(&mut server, &mut a, &["XREAD", "BLOCK", "0", "STREAMS", "s", "$"], 0);
    run(&mut server, &mut a, &["SUBSCRIBE", "news"], 0);
    a.close();
    assert_eq!(a.replica_state, Some(ReplicaState::Closed));
    server.forget_connection(1);
    assert_eq!(server.broadcast_info.connections, vec![3]);
    assert_eq!(run(&mut server, &mut c, &["RPUSH", "l", "v"], 0), reply(":1\r\n"));
    assert_eq!(run(&mut server, &mut c, &["XADD", "s", "1-1", "k", "v"], 0), reply("$3\r\n1-1\r\n"));
    assert_eq!(run(&mut server, &mut c, &["PUBLISH", "news", "x"], 0), reply(":0\r\n"));
}

#[test]
fn execute_command_runs_outside_any_transaction() {
    let mut server = primary();
    let mut conn = RedisConnection::new(1);
    conn.multi_waiting = true;
    let actions = execute_command(&mut server, &mut conn, &frame(&["SET", "k", "v"]), None, 0);
    assert_eq!(actions, reply("+OK\r\n"));
    assert_eq!(server.new_db.len(), 1);
}
