//! The dispatcher: one command against the shared state.

use vstd::prelude::*;
use vstd::string::StringSliceAdditionalSpecFns;
use crate::broadcast_info::{fan_out, BroadCastInfo};
use crate::bytes::{clone_bytes, is_text, lower, text, to_lower, views};
use crate::constants::{DISCARD_WITHOUT_MULTI, EXEC_WITHOUT_MULTI, PONG_RESPONSE, RESP_OK};
use crate::database::entries_encodable;
use crate::entry_utils::pair_views;
use crate::handler::action::{action_views, no_action, nothing, reply, reply_with, send_all,
    sends, Action, ActionModel};
use crate::handler::lists::{blpop_post, cmd_blpop, cmd_llen, cmd_lpop, cmd_lrange, cmd_push,
    list_or_empty, lpop_post, lrange_reply, push_post, Blocking, POLL_INTERVAL_MS};
use crate::handler::pubsub::{cmd_publish, cmd_subscribe, cmd_unsubscribe, publish_post,
    subscribe_post, unsubscribe_post};
use crate::handler::replication::{announces_port, cmd_config, cmd_info, cmd_psync, cmd_replconf,
    cmd_wait, config_reply, fullresync, info_text, is_port_announcement, optional_view,
    replconf_outcome, saved, snapshot_of, wait_post, Waiting};
use crate::handler::replies::{arity_error, get_arity_error, get_subscribed_error,
    get_unknown_error, subscribed_error, unknown_error};
use crate::handler::server::{says_master, Server};
use crate::handler::sets::{cmd_zadd, cmd_zcard, cmd_zrange, cmd_zrank, members_or_none,
    zadd_post, zrange_reply, zrank_reply};
use crate::handler::streams::{cmd_type, cmd_xadd, cmd_xrange, cmd_xread, stream_or_empty,
    type_post, xadd_post, xread_post, Reading};
use crate::handler::strings::{cmd_del, cmd_get, cmd_incr, cmd_set, del_post, get_post,
    incr_post, set_outcome};
use crate::entry_stream::range_reply;
use crate::metadata::pairs_of;
use crate::rdb::rdb_encoding;
use crate::redis_connection::{RedisConnection, ReplicaState};
use crate::utils::{bulk_string, get_simple_str, integer_reply, message_views, resp_array,
    simple_string};

verus! {

/// The commands that the server knows.
#[derive(Debug, Clone, Copy, PartialEq, Eq)]
pub enum Verb {
    Command,
    Ping,
    Echo,
    SetString,
    GetString,
    Del,
    Incr,
    Type,
    Config,
    Keys,
    Save,
    Info,
    Replconf,
    Psync,
    Wait,
    Xadd,
    Xrange,
    Xread,
    Multi,
    Exec,
    Discard,
    Rpush,
    Lpush,
    Lrange,
    Llen,
    Lpop,
    Blpop,
    Subscribe,
    Publish,
    Unsubscribe,
    Zadd,
    Zrank,
    Zrange,
    Zcard,
    Unknown,
}

/// The command that a name stands for; the name is read without regard to
/// case.
pub open spec fn verb_of(name: Seq<u8>) -> Verb {
    let w = lower(name);
    if w == "command".spec_bytes() {
        Verb::Command
    } else if w == "ping".spec_bytes() {
        Verb::Ping
    } else if w == "echo".spec_bytes() {
        Verb::Echo
    } else if w == "set".spec_bytes() {
        Verb::SetString
    } else if w == "get".spec_bytes() {
        Verb::GetString
    } else if w == "del".spec_bytes() {
        Verb::Del
    } else if w == "incr".spec_bytes() {
        Verb::Incr
    } else if w == "type".spec_bytes() {
        Verb::Type
    } else if w == "config".spec_bytes() {
        Verb::Config
    } else if w == "keys".spec_bytes() {
        Verb::Keys
    } else if w == "save".spec_bytes() {
        Verb::Save
    } else if w == "info".spec_bytes() {
        Verb::Info
    } else if w == "replconf".spec_bytes() {
        Verb::Replconf
    } else if w == "psync".spec_bytes() {
        Verb::Psync
    } else if w == "wait".spec_bytes() {
        Verb::Wait
    } else if w == "xadd".spec_bytes() {
        Verb::Xadd
    } else if w == "xrange".spec_bytes() {
        Verb::Xrange
    } else if w == "xread".spec_bytes() {
        Verb::Xread
    } else if w == "multi".spec_bytes() {
        Verb::Multi
    } else if w == "exec".spec_bytes() {
        Verb::Exec
    } else if w == "discard".spec_bytes() {
        Verb::Discard
    } else if w == "rpush".spec_bytes() {
        Verb::Rpush
    } else if w == "lpush".spec_bytes() {
        Verb::Lpush
    } else if w == "lrange".spec_bytes() {
        Verb::Lrange
    } else if w == "llen".spec_bytes() {
        Verb::Llen
    } else if w == "lpop".spec_bytes() {
        Verb::Lpop
    } else if w == "blpop".spec_bytes() {
        Verb::Blpop
    } else if w == "subscribe".spec_bytes() {
        Verb::Subscribe
    } else if w == "publish".spec_bytes() {
        Verb::Publish
    } else if w == "unsubscribe".spec_bytes() {
        Verb::Unsubscribe
    } else if w == "zadd".spec_bytes() {
        Verb::Zadd
    } else if w == "zrank".spec_bytes() {
        Verb::Zrank
    } else if w == "zrange".spec_bytes() {
        Verb::Zrange
    } else if w == "zcard".spec_bytes() {
        Verb::Zcard
    } else {
        Verb::Unknown
    }
}

/// The command that a name stands for.
pub fn parse_verb(name: &[u8]) -> (r: Verb)
    ensures
        r == verb_of(name@),
{
    let folded = to_lower(name);
    let w = folded.as_slice();
    if is_text(w, "command") {
        Verb::Command
    } else if is_text(w, "ping") {
        Verb::Ping
    } else if is_text(w, "echo") {
        Verb::Echo
    } else if is_text(w, "set") {
        Verb::SetString
    } else if is_text(w, "get") {
        Verb::GetString
    } else if is_text(w, "del") {
        Verb::Del
    } else if is_text(w, "incr") {
        Verb::Incr
    } else if is_text(w, "type") {
        Verb::Type
    } else if is_text(w, "config") {
        Verb::Config
    } else if is_text(w, "keys") {
        Verb::Keys
    } else if is_text(w, "save") {
        Verb::Save
    } else if is_text(w, "info") {
        Verb::Info
    } else if is_text(w, "replconf") {
        Verb::Replconf
    } else if is_text(w, "psync") {
        Verb::Psync
    } else if is_text(w, "wait") {
        Verb::Wait
    } else if is_text(w, "xadd") {
        Verb::Xadd
    } else if is_text(w, "xrange") {
        Verb::Xrange
    } else if is_text(w, "xread") {
        Verb::Xread
    } else if is_text(w, "multi") {
        Verb::Multi
    } else if is_text(w, "exec") {
        Verb::Exec
    } else if is_text(w, "discard") {
        Verb::Discard
    } else if is_text(w, "rpush") {
        Verb::Rpush
    } else if is_text(w, "lpush") {
        Verb::Lpush
    } else if is_text(w, "lrange") {
        Verb::Lrange
    } else if is_text(w, "llen") {
        Verb::Llen
    } else if is_text(w, "lpop") {
        Verb::Lpop
    } else if is_text(w, "blpop") {
        Verb::Blpop
    } else if is_text(w, "subscribe") {
        Verb::Subscribe
    } else if is_text(w, "publish") {
        Verb::Publish
    } else if is_text(w, "unsubscribe") {
        Verb::Unsubscribe
    } else if is_text(w, "zadd") {
        Verb::Zadd
    } else if is_text(w, "zrank") {
        Verb::Zrank
    } else if is_text(w, "zrange") {
        Verb::Zrange
    } else if is_text(w, "zcard") {
        Verb::Zcard
    } else {
        Verb::Unknown
    }
}

/// Whether a command may be executed on a connection in subscribe mode.
/// The name is compared as it was sent.
pub open spec fn allowed_when_subscribed(name: Seq<u8>) -> bool {
    ||| name == "SUBSCRIBE".spec_bytes()
    ||| name == "UNSUBSCRIBE".spec_bytes()
    ||| name == "PSUBSCRIBE".spec_bytes()
    ||| name == "PUNSUBSCRIBE".spec_bytes()
    ||| name == "PING".spec_bytes()
    ||| name == "QUIT".spec_bytes()
}

/// Whether a command may be executed on a connection in subscribe mode.
pub fn is_allowed_when_subscribed(name: &[u8]) -> (r: bool)
    ensures
        r == allowed_when_subscribed(name@),
{
    is_text(name, "SUBSCRIBE") || is_text(name, "UNSUBSCRIBE") || is_text(name, "PSUBSCRIBE")
        || is_text(name, "PUNSUBSCRIBE") || is_text(name, "PING") || is_text(name, "QUIT")
}

/// The one action of replying with `bytes`; no action where there are no
/// bytes to reply with.
pub open spec fn maybe_reply(bytes: Seq<u8>) -> Seq<ActionModel> {
    if bytes.len() == 0 {
        nothing()
    } else {
        reply(bytes)
    }
}

/// The one action of replying with `bytes`; no action where there are no
/// bytes to reply with.
pub fn reply_if_any(bytes: Vec<u8>) -> (r: Vec<Action>)
    ensures
        action_views(r@) == maybe_reply(bytes@),
{
    if bytes.len() == 0 {
        no_action()
    } else {
        reply_with(bytes)
    }
}

/// The reply to `PING`: in subscribe mode an array of `pong` and an empty
/// string; otherwise `PONG`, which a replica does not send to its primary.
pub open spec fn ping_reply(conn: RedisConnection) -> Seq<u8> {
    if conn.in_sub_mode {
        resp_array(seq!["pong".spec_bytes(), Seq::empty()])
    } else if !conn.is_master {
        PONG_RESPONSE.spec_bytes()
    } else {
        Seq::empty()
    }
}

/// The reply to `ECHO`.
pub open spec fn echo_reply(frame: Seq<Seq<u8>>) -> Seq<u8> {
    if frame.len() < 2 {
        arity_error(frame[0])
    } else {
        simple_string(frame[1])
    }
}

/// The actions that the outcome of `BLPOP` stands for.
pub open spec fn blocking_actions(r: Blocking, key: Seq<u8>) -> Seq<ActionModel> {
    match r {
        Blocking::Reply(bytes) => reply(bytes@),
        Blocking::Waiting => nothing(),
        Blocking::Poll { until_ms } => seq![
            ActionModel::PollList { key, until_ms, every_ms: POLL_INTERVAL_MS },
        ],
    }
}

/// The actions that the outcome of `XREAD` stands for.
pub open spec fn reading_actions(r: Reading, now_ms: u64) -> Seq<ActionModel> {
    match r {
        Reading::Reply(bytes) => reply(bytes@),
        Reading::Waiting => nothing(),
        Reading::Block { ms, streams } => seq![
            ActionModel::BlockRead { ms, started: now_ms, streams: pair_views(streams@) },
        ],
    }
}

/// The actions that the outcome of `WAIT` stands for.
pub open spec fn waiting_actions(r: Waiting) -> Seq<ActionModel> {
    match r {
        Waiting::Reply(bytes) => reply(bytes@),
        Waiting::Await { ms, probes } => sends(message_views(probes@)) + seq![
            ActionModel::AwaitAcks { ms },
        ],
    }
}

/// The connection after it sent a command that writes.
pub open spec fn written(conn: RedisConnection) -> RedisConnection {
    RedisConnection { has_written: true, ..conn }
}

/// What executing one command does: `before` and `conn` are the shared
/// state and the connection's state when the command arrives, `after` and
/// `conn_after` the states when it is done, and `actions` what is to be done
/// for it, in order. `score` is the integer that stands for the score of a
/// `ZADD` in the order of scores, and `now_ms` the time in milliseconds
/// since the epoch.
#[verifier::opaque]
pub open spec fn executed(
    before: Server,
    conn: RedisConnection,
    frame: Seq<Seq<u8>>,
    score: Option<u64>,
    now_ms: u64,
    after: Server,
    conn_after: RedisConnection,
    actions: Seq<ActionModel>,
) -> bool {
    if conn.in_sub_mode && !allowed_when_subscribed(frame[0]) {
        actions == reply(subscribed_error(frame[0])) && after == before && conn_after == conn
    } else {
        match verb_of(frame[0]) {
            Verb::Command => actions == seq![ActionModel::Close] && after == before && conn_after
                == conn,
            Verb::Ping => actions == maybe_reply(ping_reply(conn)) && after == before
                && conn_after == conn,
            Verb::Echo => actions == reply(echo_reply(frame)) && after == before && conn_after
                == conn,
            Verb::SetString => {
                &&& after == (Server { new_db: after.new_db, ..before })
                &&& conn_after == written(conn)
                &&& actions == if frame.len() >= 3 && says_master(pairs_of(&before.info_fields)) {
                    sends(fan_out(before.broadcast_info.connections@, resp_array(frame)))
                } else {
                    nothing()
                } + maybe_reply(set_outcome(before.new_db@, frame, now_ms, conn.is_master).1)
                &&& after.new_db@ == set_outcome(before.new_db@, frame, now_ms, conn.is_master).0
            },
            Verb::GetString => {
                &&& after == (Server { new_db: after.new_db, ..before })
                &&& conn_after == conn
                &&& exists|r: Seq<u8>| #[trigger]
                    get_post(before.new_db@, after.new_db@, frame, now_ms, r) && actions == reply(
                        r,
                    )
            },
            Verb::Del => {
                &&& after == (Server { new_db: after.new_db, ..before })
                &&& conn_after == written(conn)
                &&& exists|r: Seq<u8>| #[trigger]
                    del_post(before.new_db@, after.new_db@, frame, r) && actions == reply(r)
            },
            Verb::Incr => {
                &&& after == (Server { new_db: after.new_db, ..before })
                &&& conn_after == written(conn)
                &&& exists|r: Seq<u8>| #[trigger]
                    incr_post(before.new_db@, after.new_db@, frame, now_ms, r) && actions
                        == reply(r)
            },
            Verb::Type => {
                &&& after == (Server { new_db: after.new_db, ..before })
                &&& conn_after == conn
                &&& exists|r: Seq<u8>| #[trigger]
                    type_post(
                        before.new_db@,
                        after.new_db@,
                        &before.entry_streams,
                        frame,
                        now_ms,
                        r,
                    ) && actions == reply(r)
            },
            Verb::Config => actions == reply(
                config_reply(optional_view(before.dir), optional_view(before.db_filename), frame),
            ) && after == before && conn_after == conn,
            Verb::Keys => after == before && conn_after == conn && actions == if frame.len() < 2 {
                reply(arity_error(frame[0]))
            } else {
                seq![ActionModel::LoadKeys { pattern: frame[1] }]
            },
            Verb::Save => after == before && conn_after == conn && actions == if before.dir
                is Some && before.db_filename is Some && entries_encodable(before.new_db@) {
                seq![ActionModel::SaveSnapshot { bytes: rdb_encoding(saved(before.new_db@)) }]
            } else {
                nothing()
            } + reply(RESP_OK.spec_bytes()),
            Verb::Info => actions == reply(bulk_string(info_text(pairs_of(&before.info_fields))))
                && after == before && conn_after == conn,
            Verb::Replconf => {
                let outcome = replconf_outcome(
                    frame,
                    conn.parser.offset(),
                    views(before.broadcast_info.ports@),
                    before.broadcast_info.num_waiting_for,
                    before.broadcast_info.num_acks,
                );
                &&& after == (Server { broadcast_info: after.broadcast_info, ..before })
                &&& after.broadcast_info == (BroadCastInfo {
                    ports: after.broadcast_info.ports,
                    num_acks: outcome.2,
                    ..before.broadcast_info
                })
                &&& views(after.broadcast_info.ports@) == outcome.1
                &&& conn_after == (RedisConnection {
                    replica_state: if announces_port(frame) {
                        Some(ReplicaState::Handshaking)
                    } else {
                        conn.replica_state
                    },
                    ..conn
                })
                &&& actions == maybe_reply(outcome.0)
            },
            Verb::Psync => {
                &&& after == (Server { broadcast_info: after.broadcast_info, ..before })
                &&& after.broadcast_info == (BroadCastInfo {
                    connections: after.broadcast_info.connections,
                    next_id: after.broadcast_info.next_id,
                    ..before.broadcast_info
                })
                &&& after.broadcast_info.connections@ == before.broadcast_info.connections@.push(
                    conn.id,
                )
                &&& conn_after == (RedisConnection {
                    replica_state: Some(ReplicaState::Ready),
                    ..conn
                })
                &&& actions == reply(fullresync(pairs_of(&before.info_fields))) + seq![
                    ActionModel::SendSnapshot,
                ]
            },
            Verb::Wait => {
                &&& after == (Server { broadcast_info: after.broadcast_info, ..before })
                &&& conn_after == conn
                &&& exists|r: Waiting| #[trigger]
                    wait_post(
                        before.broadcast_info,
                        after.broadcast_info,
                        frame,
                        conn.has_written,
                        now_ms,
                        r,
                    ) && actions == waiting_actions(r)
            },
            Verb::Xadd => {
                &&& after == (Server { entry_streams: after.entry_streams, ..before })
                &&& conn_after == written(conn)
                &&& exists|r: Seq<u8>, messages: Seq<(u64, Seq<u8>)>| #[trigger]
                    xadd_post(
                        &before.entry_streams,
                        &after.entry_streams,
                        frame,
                        now_ms,
                        r,
                        messages,
                    ) && actions == sends(messages) + reply(r)
            },
            Verb::Xrange => actions == reply(
                if frame.len() < 4 {
                    arity_error(frame[0])
                } else {
                    range_reply(
                        stream_or_empty(&before.entry_streams, frame[1]).entries,
                        frame[2],
                        frame[3],
                    )
                },
            ) && after == before && conn_after == conn,
            Verb::Xread => {
                &&& after == (Server { entry_streams: after.entry_streams, ..before })
                &&& conn_after == conn
                &&& exists|r: Reading| #[trigger]
                    xread_post(&before.entry_streams, &after.entry_streams, frame, conn.id, r)
                        && actions == reading_actions(r, now_ms)
            },
            Verb::Multi => actions == reply(RESP_OK.spec_bytes()) && after == before
                && conn_after == (RedisConnection { multi_waiting: true, ..conn }),
            Verb::Exec => actions == reply(EXEC_WITHOUT_MULTI.spec_bytes()) && after == before
                && conn_after == conn,
            Verb::Discard => actions == reply(DISCARD_WITHOUT_MULTI.spec_bytes()) && after
                == before && conn_after == conn,
            Verb::Rpush => {
                &&& after == (Server { lists_map: after.lists_map, ..before })
                &&& conn_after == written(conn)
                &&& exists|r: Seq<u8>, messages: Seq<(u64, Seq<u8>)>| #[trigger]
                    push_post(&before.lists_map, &after.lists_map, frame, false, r, messages)
                        && actions == sends(messages) + reply(r)
            },
            Verb::Lpush => {
                &&& after == (Server { lists_map: after.lists_map, ..before })
                &&& conn_after == written(conn)
                &&& exists|r: Seq<u8>, messages: Seq<(u64, Seq<u8>)>| #[trigger]
                    push_post(&before.lists_map, &after.lists_map, frame, true, r, messages)
                        && actions == sends(messages) + reply(r)
            },
            Verb::Lrange => actions == reply(lrange_reply(&before.lists_map, frame)) && after
                == before && conn_after == conn,
            Verb::Llen => actions == reply(
                if frame.len() < 2 {
                    arity_error(frame[0])
                } else {
                    integer_reply(list_or_empty(&before.lists_map, frame[1]).values.len() as int)
                },
            ) && after == before && conn_after == conn,
            Verb::Lpop => {
                &&& after == (Server { lists_map: after.lists_map, ..before })
                &&& conn_after == written(conn)
                &&& exists|r: Seq<u8>| #[trigger]
                    lpop_post(&before.lists_map, &after.lists_map, frame, r) && actions == reply(
                        r,
                    )
            },
            Verb::Blpop => {
                &&& after == (Server { lists_map: after.lists_map, ..before })
                &&& conn_after == written(conn)
                &&& exists|r: Blocking| #[trigger]
                    blpop_post(&before.lists_map, &after.lists_map, frame, conn.id, now_ms, r)
                        && actions == blocking_actions(r, frame[1])
            },
            Verb::Subscribe => {
                &&& after == (Server { channels_db: after.channels_db, ..before })
                &&& exists|r: Seq<u8>| #[trigger]
                    subscribe_post(
                        &before.channels_db,
                        &after.channels_db,
                        conn,
                        conn_after,
                        frame,
                        r,
                    ) && actions == maybe_reply(r)
            },
            Verb::Publish => {
                &&& after == before
                &&& conn_after == conn
                &&& exists|r: Seq<u8>, messages: Seq<(u64, Seq<u8>)>| #[trigger]
                    publish_post(&before.channels_db, frame, r, messages) && actions == sends(
                        messages,
                    ) + reply(r)
            },
            Verb::Unsubscribe => {
                &&& after == (Server { channels_db: after.channels_db, ..before })
                &&& exists|r: Seq<u8>| #[trigger]
                    unsubscribe_post(
                        &before.channels_db,
                        &after.channels_db,
                        conn,
                        conn_after,
                        frame,
                        r,
                    ) && actions == maybe_reply(r)
            },
            Verb::Zadd => {
                &&& after == (Server { sets_map: after.sets_map, ..before })
                &&& conn_after == written(conn)
                &&& exists|r: Seq<u8>| #[trigger]
                    zadd_post(&before.sets_map, &after.sets_map, frame, score, r) && actions
                        == reply(r)
            },
            Verb::Zrank => actions == reply(zrank_reply(&before.sets_map, frame)) && after
                == before && conn_after == conn,
            Verb::Zrange => actions == reply(zrange_reply(&before.sets_map, frame)) && after
                == before && conn_after == conn,
            Verb::Zcard => actions == reply(
                if frame.len() < 2 {
                    arity_error(frame[0])
                } else {
                    integer_reply(members_or_none(&before.sets_map, frame[1]).len() as int)
                },
            ) && after == before && conn_after == conn,
            Verb::Unknown => actions == reply(unknown_error(frame[0])) && after == before
                && conn_after == conn,
        }
    }
}

/// Whether the connection, in its present mode, may execute the command.
pub open spec fn admitted(conn: RedisConnection, frame: Seq<Seq<u8>>) -> bool {
    !(conn.in_sub_mode && !allowed_when_subscribed(frame[0]))
}

/// The commands on the string store.
fn run_strings(
    server: &mut Server,
    conn: &mut RedisConnection,
    frame: &Vec<Vec<u8>>,
    now_ms: u64,
    verb: Verb,
) -> (r: Vec<Action>)
    requires
        frame@.len() >= 1,
        admitted(*old(conn), views(frame@)),
        verb == verb_of(frame@[0]@),
        verb == Verb::SetString || verb == Verb::GetString || verb == Verb::Del || verb
            == Verb::Incr || verb == Verb::Type,
    ensures
        executed(
            *old(server),
            *old(conn),
            views(frame@),
            None,
            now_ms,
            *final(server),
            *final(conn),
            action_views(r@),
        ),
        forall|score: Option<u64>|
            executed(
                *old(server),
                *old(conn),
                views(frame@),
                score,
                now_ms,
                *final(server),
                *final(conn),
                action_views(r@),
            ),
{
    proof {
        reveal(executed);
    }
    match verb {
        Verb::SetString => {
            conn.has_written = true;
            let fan = if frame.len() >= 3 && server.is_master() {
                server.broadcast_info.broadcast_command(frame)
            } else {
                let none: Vec<(u64, Vec<u8>)> = Vec::new();
                assert(sends(message_views(none@)) =~= nothing());
                none
            };
            let answer = cmd_set(&mut server.new_db, frame, now_ms, conn.is_master);
            send_all(fan, reply_if_any(answer))
        },
        Verb::GetString => {
            let answer = cmd_get(&mut server.new_db, frame, now_ms);
            reply_with(answer)
        },
        Verb::Del => {
            conn.has_written = true;
            let answer = cmd_del(&mut server.new_db, frame);
            reply_with(answer)
        },
        Verb::Incr => {
            conn.has_written = true;
            let answer = cmd_incr(&mut server.new_db, frame, now_ms);
            reply_with(answer)
        },
        _ => {
            let answer = cmd_type(&mut server.new_db, &server.entry_streams, frame, now_ms);
            reply_with(answer)
        },
    }
}

/// The commands on lists.
fn run_lists(
    server: &mut Server,
    conn: &mut RedisConnection,
    frame: &Vec<Vec<u8>>,
    now_ms: u64,
    verb: Verb,
) -> (r: Vec<Action>)
    requires
        frame@.len() >= 1,
        admitted(*old(conn), views(frame@)),
        verb == verb_of(frame@[0]@),
        verb == Verb::Rpush || verb == Verb::Lpush || verb == Verb::Lrange || verb == Verb::Llen
            || verb == Verb::Lpop || verb == Verb::Blpop,
    ensures
        forall|score: Option<u64>|
            executed(
                *old(server),
                *old(conn),
                views(frame@),
                score,
                now_ms,
                *final(server),
                *final(conn),
                action_views(r@),
            ),
{
    proof {
        reveal(executed);
    }
    match verb {
        Verb::Rpush => {
            conn.has_written = true;
            let (answer, messages) = cmd_push(&mut server.lists_map, frame, false);
            send_all(messages, reply_with(answer))
        },
        Verb::Lpush => {
            conn.has_written = true;
            let (answer, messages) = cmd_push(&mut server.lists_map, frame, true);
            send_all(messages, reply_with(answer))
        },
        Verb::Lrange => reply_with(cmd_lrange(&server.lists_map, frame)),
        Verb::Llen => reply_with(cmd_llen(&server.lists_map, frame)),
        Verb::Lpop => {
            conn.has_written = true;
            let answer = cmd_lpop(&mut server.lists_map, frame);
            reply_with(answer)
        },
        _ => {
            conn.has_written = true;
            let outcome = cmd_blpop(&mut server.lists_map, frame, conn.id, now_ms);
            let ghost shown = outcome;
            match outcome {
                Blocking::Reply(bytes) => reply_with(bytes),
                Blocking::Waiting => no_action(),
                Blocking::Poll { until_ms } => {
                    let mut out: Vec<Action> = Vec::new();
                    if frame.len() > 1 {
                        out.push(
                            Action::PollList {
                                key: clone_bytes(&frame[1]),
                                until_ms,
                                every_ms: POLL_INTERVAL_MS,
                            },
                        );
                        assert(action_views(out@) =~= blocking_actions(shown, frame@[1]@));
                    }
                    out
                },
            }
        },
    }
}

/// The commands on streams.
fn run_streams(
    server: &mut Server,
    conn: &mut RedisConnection,
    frame: &Vec<Vec<u8>>,
    now_ms: u64,
    verb: Verb,
) -> (r: Vec<Action>)
    requires
        frame@.len() >= 1,
        admitted(*old(conn), views(frame@)),
        verb == verb_of(frame@[0]@),
        verb == Verb::Xadd || verb == Verb::Xrange || verb == Verb::Xread,
    ensures
        forall|score: Option<u64>|
            executed(
                *old(server),
                *old(conn),
                views(frame@),
                score,
                now_ms,
                *final(server),
                *final(conn),
                action_views(r@),
            ),
{
    proof {
        reveal(executed);
    }
    match verb {
        Verb::Xadd => {
            conn.has_written = true;
            let (answer, messages) = cmd_xadd(&mut server.entry_streams, frame, now_ms);
            send_all(messages, reply_with(answer))
        },
        Verb::Xrange => reply_with(cmd_xrange(&server.entry_streams, frame)),
        _ => {
            let outcome = cmd_xread(&mut server.entry_streams, frame, conn.id);
            let ghost shown = outcome;
            let actions = match outcome {
                Reading::Reply(bytes) => reply_with(bytes),
                Reading::Waiting => no_action(),
                Reading::Block { ms, streams } => {
                    let mut out: Vec<Action> = Vec::new();
                    out.push(Action::BlockRead { ms, started: now_ms, streams });
                    assert(action_views(out@) =~= reading_actions(shown, now_ms));
                    out
                },
            };
            assert(action_views(actions@) == reading_actions(shown, now_ms));
            actions
        },
    }
}

/// The commands on sorted sets and on channels.
fn run_sets_and_channels(
    server: &mut Server,
    conn: &mut RedisConnection,
    frame: &Vec<Vec<u8>>,
    score: Option<u64>,
    now_ms: u64,
    verb: Verb,
) -> (r: Vec<Action>)
    requires
        frame@.len() >= 1,
        admitted(*old(conn), views(frame@)),
        verb == verb_of(frame@[0]@),
        verb == Verb::Zadd || verb == Verb::Zrank || verb == Verb::Zrange || verb == Verb::Zcard
            || verb == Verb::Subscribe || verb == Verb::Publish || verb == Verb::Unsubscribe,
    ensures
        executed(
            *old(server),
            *old(conn),
            views(frame@),
            score,
            now_ms,
            *final(server),
            *final(conn),
            action_views(r@),
        ),
{
    proof {
        reveal(executed);
    }
    match verb {
        Verb::Zadd => {
            conn.has_written = true;
            let answer = cmd_zadd(&mut server.sets_map, frame, score);
            reply_with(answer)
        },
        Verb::Zrank => reply_with(cmd_zrank(&server.sets_map, frame)),
        Verb::Zrange => reply_with(cmd_zrange(&server.sets_map, frame)),
        Verb::Zcard => reply_with(cmd_zcard(&server.sets_map, frame)),
        Verb::Subscribe => {
            let answer = cmd_subscribe(&mut server.channels_db, conn, frame);
            reply_if_any(answer)
        },
        Verb::Publish => {
            let (answer, messages) = cmd_publish(&server.channels_db, frame);
            send_all(messages, reply_with(answer))
        },
        _ => {
            let answer = cmd_unsubscribe(&mut server.channels_db, conn, frame);
            reply_if_any(answer)
        },
    }
}

/// The commands of replication and administration.
fn run_admin(
    server: &mut Server,
    conn: &mut RedisConnection,
    frame: &Vec<Vec<u8>>,
    now_ms: u64,
    verb: Verb,
) -> (r: Vec<Action>)
    requires
        frame@.len() >= 1,
        admitted(*old(conn), views(frame@)),
        verb == verb_of(frame@[0]@),
        verb == Verb::Config || verb == Verb::Keys || verb == Verb::Save || verb == Verb::Info
            || verb == Verb::Replconf || verb == Verb::Psync || verb == Verb::Wait,
    ensures
        forall|score: Option<u64>|
            executed(
                *old(server),
                *old(conn),
                views(frame@),
                score,
                now_ms,
                *final(server),
                *final(conn),
                action_views(r@),
            ),
{
    proof {
        reveal(executed);
    }
    match verb {
        Verb::Config => reply_with(cmd_config(&server.dir, &server.db_filename, frame)),
        Verb::Keys => {
            if frame.len() < 2 {
                reply_with(get_arity_error(frame[0].as_slice()))
            } else {
                let mut out: Vec<Action> = Vec::new();
                out.push(Action::LoadKeys { pattern: clone_bytes(&frame[1]) });
                assert(action_views(out@) =~= seq![ActionModel::LoadKeys { pattern: frame@[1]@ }]);
                out
            }
        },
        Verb::Save => {
            let mut out: Vec<Action> = Vec::new();
            if server.dir.is_some() && server.db_filename.is_some() {
                match snapshot_of(&server.new_db) {
                    Some(bytes) => {
                        out.push(Action::SaveSnapshot { bytes });
                    },
                    None => {},
                }
            }
            let ghost first = action_views(out@);
            out.push(Action::Reply(text(RESP_OK)));
            assert(action_views(out@) =~= first + reply(RESP_OK.spec_bytes()));
            assert(first =~= if server.dir is Some && server.db_filename is Some
                && entries_encodable(server.new_db@) {
                seq![ActionModel::SaveSnapshot { bytes: rdb_encoding(saved(server.new_db@)) }]
            } else {
                nothing()
            });
            out
        },
        Verb::Info => reply_with(cmd_info(&server.info_fields)),
        Verb::Replconf => {
            let counted = conn.parser.bytes_counted();
            let answer = cmd_replconf(&mut server.broadcast_info, frame, counted);
            if is_port_announcement(frame) {
                conn.replica_state = Some(ReplicaState::Handshaking);
            }
            reply_if_any(answer)
        },
        Verb::Psync => {
            let answer = cmd_psync(&server.info_fields, &mut server.broadcast_info, conn.id);
            conn.replica_state = Some(ReplicaState::Ready);
            let mut out = reply_with(answer);
            let ghost first = action_views(out@);
            out.push(Action::SendSnapshot);
            assert(action_views(out@) =~= first + seq![ActionModel::SendSnapshot]);
            out
        },
        _ => {
            let outcome = cmd_wait(&mut server.broadcast_info, frame, conn.has_written, now_ms);
            let ghost shown = outcome;
            let actions = match outcome {
                Waiting::Reply(bytes) => reply_with(bytes),
                Waiting::Await { ms, probes } => {
                    let mut last: Vec<Action> = Vec::new();
                    last.push(Action::AwaitAcks { ms });
                    assert(action_views(last@) =~= seq![ActionModel::AwaitAcks { ms }]);
                    send_all(probes, last)
                },
            };
            assert(action_views(actions@) == waiting_actions(shown));
            actions
        },
    }
}

/// The commands that touch no store.
fn run_plain(
    server: &mut Server,
    conn: &mut RedisConnection,
    frame: &Vec<Vec<u8>>,
    now_ms: u64,
    verb: Verb,
) -> (r: Vec<Action>)
    requires
        frame@.len() >= 1,
        admitted(*old(conn), views(frame@)),
        verb == verb_of(frame@[0]@),
        verb == Verb::Command || verb == Verb::Ping || verb == Verb::Echo || verb == Verb::Multi
            || verb == Verb::Exec || verb == Verb::Discard || verb == Verb::Unknown,
    ensures
        forall|score: Option<u64>|
            executed(
                *old(server),
                *old(conn),
                views(frame@),
                score,
                now_ms,
                *final(server),
                *final(conn),
                action_views(r@),
            ),
{
    proof {
        reveal(executed);
    }
    match verb {
        Verb::Command => {
            let mut out: Vec<Action> = Vec::new();
            out.push(Action::Close);
            assert(action_views(out@) =~= seq![ActionModel::Close]);
            out
        },
        Verb::Ping => {
            if conn.in_sub_mode {
                let mut parts: Vec<Vec<u8>> = Vec::new();
                parts.push(text("pong"));
                parts.push(Vec::new());
                assert(views(parts@) =~= seq!["pong".spec_bytes(), Seq::<u8>::empty()]);
                reply_if_any(crate::utils::format_resp_array(&parts))
            } else if !conn.is_master {
                reply_if_any(text(PONG_RESPONSE))
            } else {
                reply_if_any(Vec::new())
            }
        },
        Verb::Echo => {
            if frame.len() < 2 {
                reply_with(get_arity_error(frame[0].as_slice()))
            } else {
                reply_with(get_simple_str(frame[1].as_slice()))
            }
        },
        Verb::Multi => {
            conn.multi_waiting = true;
            reply_with(text(RESP_OK))
        },
        Verb::Exec => reply_with(text(EXEC_WITHOUT_MULTI)),
        Verb::Discard => reply_with(text(DISCARD_WITHOUT_MULTI)),
        _ => reply_with(get_unknown_error(frame[0].as_slice())),
    }
}

/// Executes one command. `frame` holds the command's name and its
/// arguments, `score` the integer that stands for the score of a `ZADD` in
/// the order of scores (`None` where the score is no number; it is not read
/// for other commands), and `now_ms` the time in milliseconds since the
/// epoch. Returns what is to be done, in order.
pub fn execute_command(
    server: &mut Server,
    conn: &mut RedisConnection,
    frame: &Vec<Vec<u8>>,
    score: Option<u64>,
    now_ms: u64,
) -> (r: Vec<Action>)
    requires
        frame@.len() >= 1,
    ensures
        executed(
            *old(server),
            *old(conn),
            views(frame@),
            score,
            now_ms,
            *final(server),
            *final(conn),
            action_views(r@),
        ),
{
    proof {
        reveal(executed);
    }
    let name = frame[0].as_slice();
    if conn.in_sub_mode && !is_allowed_when_subscribed(name) {
        return reply_with(get_subscribed_error(name));
    }
    let verb = parse_verb(name);
    match verb {
        Verb::SetString | Verb::GetString | Verb::Del | Verb::Incr | Verb::Type => run_strings(
            server,
            conn,
            frame,
            now_ms,
            verb,
        ),
        Verb::Rpush | Verb::Lpush | Verb::Lrange | Verb::Llen | Verb::Lpop | Verb::Blpop => run_lists(
            server,
            conn,
            frame,
            now_ms,
            verb,
        ),
        Verb::Xadd | Verb::Xrange | Verb::Xread => run_streams(server, conn, frame, now_ms, verb),
        Verb::Zadd | Verb::Zrank | Verb::Zrange | Verb::Zcard | Verb::Subscribe | Verb::Publish | Verb::Unsubscribe => run_sets_and_channels(
            server,
            conn,
            frame,
            score,
            now_ms,
            verb,
        ),
        Verb::Config | Verb::Keys | Verb::Save | Verb::Info | Verb::Replconf | Verb::Psync | Verb::Wait => run_admin(
            server,
            conn,
            frame,
            now_ms,
            verb,
        ),
        _ => run_plain(server, conn, frame, now_ms, verb),
    }
}

/// The argument of a frame that holds a score: the third element of a
/// `ZADD`. The caller turns it into the integer that stands for the score in
/// the order of scores and hands that to the executor.
pub fn score_argument(frame: &Vec<Vec<u8>>) -> (r: Option<&Vec<u8>>)
    ensures
        match r {
            Some(text) => frame@.len() >= 3 && verb_of(frame@[0]@) == Verb::Zadd && text@
                == frame@[2]@,
            None => frame@.len() < 3 || verb_of(frame@[0]@) != Verb::Zadd,
        },
{
    if frame.len() >= 3 {
        match parse_verb(frame[0].as_slice()) {
            Verb::Zadd => Some(&frame[2]),
            _ => None,
        }
    } else {
        None
    }
}

/// A write on a primary and the wait that follows it on the same
/// connection: the frame of the write is sent to every replica, in the order
/// in which they joined, before the writer gets its reply, and only the wait
/// sends the probe to those replicas, after which it asks to wait for the
/// acknowledgements. The write binds the key to the value.
pub proof fn lemma_write_is_sent_before_the_probe(
    s0: Server,
    c0: RedisConnection,
    write: Seq<Seq<u8>>,
    score1: Option<u64>,
    now1: u64,
    s1: Server,
    c1: RedisConnection,
    a1: Seq<ActionModel>,
    wait: Seq<Seq<u8>>,
    score2: Option<u64>,
    now2: u64,
    s2: Server,
    c2: RedisConnection,
    a2: Seq<ActionModel>,
    n: usize,
    ms: u64,
)
    requires
        executed(s0, c0, write, score1, now1, s1, c1, a1),
        executed(s1, c1, wait, score2, now2, s2, c2, a2),
        !c0.in_sub_mode,
        !c0.is_master,
        says_master(pairs_of(&s0.info_fields)),
        write.len() == 3,
        verb_of(write[0]) == Verb::SetString,
        wait.len() >= 3,
        verb_of(wait[0]) == Verb::Wait,
        crate::handler::replication::wait_arguments(wait) == Some((n, ms)),
    ensures
        a1 == sends(fan_out(s0.broadcast_info.connections@, resp_array(write))) + reply(
            RESP_OK.spec_bytes(),
        ),
        s1.new_db@ == crate::byte_map::assoc_put(
            s0.new_db@,
            write[1],
            crate::types::ValueModel { value: write[2], expires_at: None },
        ),
        a2 == sends(
            fan_out(s0.broadcast_info.connections@, crate::handler::replication::ack_probe()),
        ) + seq![ActionModel::AwaitAcks { ms }],
        s2.broadcast_info.num_waiting_for == n,
        s2.broadcast_info.num_acks == 0,
{
    reveal(executed);
    reveal_strlit("+OK\r\n");
    vstd::string::is_ascii_spec_bytes("+OK\r\n");
    assert(RESP_OK.spec_bytes().len() == 5);
    assert(c1 == written(c0));
    assert(s1.broadcast_info == s0.broadcast_info);
    let r = choose|r: Waiting| #[trigger]
        wait_post(s1.broadcast_info, s2.broadcast_info, wait, c1.has_written, now2, r) && a2
            == waiting_actions(r);
    assert(wait_post(s1.broadcast_info, s2.broadcast_info, wait, c1.has_written, now2, r));
}

} // verus!
