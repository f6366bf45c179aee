//! The commands of replication and administration.

use vstd::prelude::*;
use vstd::string::StringSliceAdditionalSpecFns;
use crate::broadcast_info::{fan_out, BroadCastInfo};
use crate::byte_map::{assoc_get, assoc_keys, ByteMap};
use crate::bytes::{clone_bytes, decimal, is_text, lower, parse_decimal, parse_u64, push_bytes,
    push_decimal, push_text, text, to_lower, views};
use crate::constants::{ACK, FULLRESYNC, GETACK, LISTENING_PORT, MASTER_REPL_ID,
    MASTER_REPL_OFFSET, NOT_INT_ERROR, PSYNC, REPL_CONF, RESP_NULL, RESP_OK};
use crate::database::{database_encoding, entries_encodable, write_database};
use crate::encoding::ByteReader;
use crate::handler::lists::later;
use crate::handler::replies::{arity_error, get_arity_error, get_unknown_error, unknown_error};
use crate::header::write_header;
use crate::metadata::{pairs_of, write_metadata, Pairs};
use crate::rdb::{databases_encoding, decode_rdb, rdb_encoding, read_rdb, trailer, RdbModel};
use crate::types::{Entries, RedisDatabase};
use crate::utils::{bulk_string, crlf, format_resp_array, get_bulk_string, get_redis_count,
    integer_reply, keys_of_first_database, matching_keys, message_views, push_crlf, read_rdb_keys,
    resp_array, DOLLAR};

verus! {

/// The reply to `CONFIG`: for `GET dir` and `GET dbfilename` an array of
/// the name and the configured value, or the null bulk string where none is
/// configured; for `GET` of another name the empty array; for anything but
/// `GET` an error. The words are read without regard to case.
pub open spec fn config_reply(
    dir: Option<Seq<u8>>,
    db_filename: Option<Seq<u8>>,
    frame: Seq<Seq<u8>>,
) -> Seq<u8> {
    if frame.len() < 3 {
        arity_error(frame[0])
    } else if lower(frame[1]) != "get".spec_bytes() {
        unknown_error(frame[0])
    } else if lower(frame[2]) == "dir".spec_bytes() {
        match dir {
            Some(value) => resp_array(seq![lower(frame[2]), value]),
            None => RESP_NULL.spec_bytes(),
        }
    } else if lower(frame[2]) == "dbfilename".spec_bytes() {
        match db_filename {
            Some(value) => resp_array(seq![lower(frame[2]), value]),
            None => RESP_NULL.spec_bytes(),
        }
    } else {
        resp_array(Seq::empty())
    }
}

/// The bytes that an optional byte string holds.
pub open spec fn optional_view(v: Option<Vec<u8>>) -> Option<Seq<u8>> {
    match v {
        Some(bytes) => Some(bytes@),
        None => None,
    }
}

/// `CONFIG GET name`.
pub fn cmd_config(dir: &Option<Vec<u8>>, db_filename: &Option<Vec<u8>>, frame: &Vec<Vec<u8>>) -> (r:
    Vec<u8>)
    requires
        frame@.len() >= 1,
    ensures
        r@ == config_reply(optional_view(*dir), optional_view(*db_filename), views(frame@)),
{
    if frame.len() < 3 {
        return get_arity_error(frame[0].as_slice());
    }
    let word = to_lower(frame[1].as_slice());
    if !is_text(word.as_slice(), "get") {
        return get_unknown_error(frame[0].as_slice());
    }
    let field = to_lower(frame[2].as_slice());
    let configured = if is_text(field.as_slice(), "dir") {
        dir
    } else if is_text(field.as_slice(), "dbfilename") {
        db_filename
    } else {
        return format_resp_array(&Vec::new());
    };
    match configured {
        Some(value) => {
            let mut pair: Vec<Vec<u8>> = Vec::new();
            let ghost name = field@;
            pair.push(field);
            pair.push(clone_bytes(value));
            assert(views(pair@) =~= seq![name, value@]);
            format_resp_array(&pair)
        },
        None => text(RESP_NULL),
    }
}

/// The reply to `KEYS pattern` once the snapshot file was read: the keys
/// of the snapshot's database zero that match the pattern; the null bulk
/// string where the file could not be read or does not decode.
pub open spec fn keys_reply(pattern: Seq<u8>, contents: Option<Seq<u8>>) -> Seq<u8> {
    match contents {
        None => RESP_NULL.spec_bytes(),
        Some(bytes) => match decode_rdb(bytes) {
            Ok(m) => resp_array(matching_keys(keys_of_first_database(m.databases), pattern)),
            Err(_) => RESP_NULL.spec_bytes(),
        },
    }
}

/// The reply to `KEYS pattern`, from the bytes of the snapshot file;
/// `None` stands for a file that could not be read.
pub fn keys_response(pattern: &[u8], contents: Option<Vec<u8>>) -> (r: Vec<u8>)
    ensures
        r@ == keys_reply(pattern@, optional_view(contents)),
{
    match contents {
        None => text(RESP_NULL),
        Some(bytes) => {
            let mut reader = ByteReader::new(bytes);
            match read_rdb(&mut reader) {
                Ok(rdb) => {
                    let keys = read_rdb_keys(&rdb, pattern);
                    format_resp_array(&keys)
                },
                Err(_) => text(RESP_NULL),
            }
        },
    }
}

/// The snapshot that `SAVE` writes of a string store: version `0011`, the
/// server's version as metadata, and the store as database zero.
pub open spec fn saved(db: Entries) -> RdbModel {
    RdbModel {
        version: "0011".spec_bytes(),
        metadata: seq![("redis-version".spec_bytes(), "6.0.16".spec_bytes())],
        databases: seq![(0u8, db)],
    }
}

/// The bytes of the snapshot that `SAVE` writes; `None` where a key, a
/// value or the number of keys is too large for the format.
pub fn snapshot_of(db: &RedisDatabase) -> (r: Option<Vec<u8>>)
    ensures
        match r {
            Some(bytes) => entries_encodable(db@) && bytes@ == rdb_encoding(saved(db@)),
            None => !entries_encodable(db@),
        },
{
    let mut out: Vec<u8> = Vec::new();
    proof {
        reveal_strlit("0011");
        vstd::string::is_ascii_spec_bytes("0011");
        reveal_strlit("redis-version");
        vstd::string::is_ascii_spec_bytes("redis-version");
        reveal_strlit("6.0.16");
        vstd::string::is_ascii_spec_bytes("6.0.16");
    }
    let version = text("0011");
    match write_header(&mut out, version.as_slice()) {
        Ok(_) => {},
        Err(_) => {
            assert(false);
            return None;
        },
    }
    let mut metadata: ByteMap<Vec<u8>> = ByteMap::new();
    metadata.insert(text("redis-version"), text("6.0.16"));
    assert(pairs_of(&metadata) =~= saved(db@).metadata);
    match write_metadata(&mut out, &metadata) {
        Ok(_) => {},
        Err(_) => {
            assert(crate::encoding::size_limit() == 0xFFFF_FFFF);
            assert(pairs_of(&metadata)[0].0.len() == 13);
            assert(pairs_of(&metadata)[0].1.len() == 6);
            assert(false);
            return None;
        },
    }
    match write_database(&mut out, 0, db) {
        Ok(_) => {},
        Err(_) => {
            return None;
        },
    }
    let ghost body = out@;
    out.push(crate::database::EOF);
    let mut k: usize = 0;
    while k < 8
        invariant
            k <= 8,
            out@ == body + seq![crate::database::EOF] + Seq::new(k as nat, |j: int| 0u8),
        decreases 8 - k,
    {
        out.push(0);
        k += 1;
        assert(out@ =~= body + seq![crate::database::EOF] + Seq::new(k as nat, |j: int| 0u8));
    }
    proof {
        let m = saved(db@);
        assert(seq![crate::database::EOF] + Seq::new(8, |j: int| 0u8) =~= trailer());
        assert(m.databases.drop_last() =~= Seq::<(u8, Entries)>::empty());
        assert(databases_encoding(m.databases) =~= database_encoding(0, db@)) by {
            reveal_with_fuel(databases_encoding, 2);
        }
        assert(out@ =~= rdb_encoding(m));
    }
    Some(out)
}

/// The lines of the information fields: each name, a colon and the value,
/// with a line end between two lines.
pub open spec fn info_text(fields: Pairs) -> Seq<u8>
    decreases fields.len(),
{
    if fields.len() == 0 {
        Seq::<u8>::empty()
    } else if fields.len() == 1 {
        fields[0].0 + seq![58u8] + fields[0].1
    } else {
        info_text(fields.drop_last()) + crlf() + fields.last().0 + seq![58u8] + fields.last().1
    }
}

/// `INFO [section]`: the information fields as a bulk string of lines.
pub fn cmd_info(info_fields: &ByteMap<Vec<u8>>) -> (r: Vec<u8>)
    ensures
        r@ == bulk_string(info_text(pairs_of(info_fields))),
{
    let mut lines: Vec<u8> = Vec::new();
    let n = info_fields.len();
    let ghost fields = pairs_of(info_fields);
    let mut i: usize = 0;
    assert(fields.subrange(0, 0) =~= Seq::<(Seq<u8>, Seq<u8>)>::empty());
    while i < n
        invariant
            i <= n,
            n == fields.len(),
            n == info_fields.keys().len(),
            n == info_fields.vals().len(),
            fields == pairs_of(info_fields),
            lines@ == info_text(fields.subrange(0, i as int)),
        decreases n - i,
    {
        let ghost so_far = lines@;
        if i > 0 {
            push_crlf(&mut lines);
        }
        push_bytes(&mut lines, info_fields.key_at(i).as_slice());
        lines.push(58);
        push_bytes(&mut lines, info_fields.value_at(i).as_slice());
        proof {
            let grown = fields.subrange(0, i + 1);
            assert(grown.drop_last() =~= fields.subrange(0, i as int));
            assert(grown.last() == fields[i as int]);
            assert(grown[0] == fields[0]);
            assert(lines@ =~= info_text(grown));
        }
        i += 1;
    }
    assert(fields.subrange(0, i as int) =~= fields);
    get_bulk_string(lines.as_slice())
}

/// The request by which a primary asks a replica how many bytes it has
/// processed.
pub open spec fn ack_probe() -> Seq<u8> {
    resp_array(seq![REPL_CONF.spec_bytes(), GETACK.spec_bytes(), seq![42u8]])
}

/// The request for an acknowledgement is thirty-seven bytes long.
pub proof fn lemma_ack_probe_length()
    ensures
        ack_probe().len() == 37,
{
    reveal_strlit("REPLCONF");
    reveal_strlit("GETACK");
    vstd::string::is_ascii_spec_bytes("REPLCONF");
    vstd::string::is_ascii_spec_bytes("GETACK");
    reveal_with_fuel(crate::utils::bulk_strings, 4);
    let parts = seq![REPL_CONF.spec_bytes(), GETACK.spec_bytes(), seq![42u8]];
    assert(parts.drop_last() =~= seq![REPL_CONF.spec_bytes(), GETACK.spec_bytes()]);
    assert(parts.drop_last().drop_last() =~= seq![REPL_CONF.spec_bytes()]);
    assert(parts.drop_last().drop_last().drop_last() =~= Seq::<Seq<u8>>::empty());
    assert(decimal(1) =~= seq![49u8]);
    assert(decimal(3) =~= seq![51u8]);
    assert(decimal(6) =~= seq![54u8]);
    assert(decimal(8) =~= seq![56u8]);
}

/// The request by which a primary asks a replica how many bytes it has
/// processed.
pub fn get_ack_probe() -> (r: Vec<u8>)
    ensures
        r@ == ack_probe(),
{
    let mut parts: Vec<Vec<u8>> = Vec::new();
    parts.push(text(REPL_CONF));
    parts.push(text(GETACK));
    let mut star: Vec<u8> = Vec::new();
    star.push(42);
    parts.push(star);
    assert(views(parts@) =~= seq![REPL_CONF.spec_bytes(), GETACK.spec_bytes(), seq![42u8]]);
    format_resp_array(&parts)
}

/// The offset that a replica acknowledges: the bytes it has counted,
/// without the request that asks for the acknowledgement.
pub open spec fn acked_offset(counted: nat) -> nat {
    if counted >= ack_probe().len() {
        (counted - ack_probe().len()) as nat
    } else {
        0
    }
}

/// The fan-out state after an acknowledgement arrived: it is counted while
/// a wait is pending.
pub open spec fn acked(num_waiting_for: usize, num_acks: usize) -> usize {
    if num_waiting_for > 0 && num_acks < usize::MAX {
        (num_acks + 1) as usize
    } else {
        num_acks
    }
}

/// Whether a `REPLCONF` announces the port on which a replica listens.
pub open spec fn announces_port(frame: Seq<Seq<u8>>) -> bool {
    frame.len() >= 3 && lower(frame[1]) == lower(LISTENING_PORT.spec_bytes())
}

/// Whether a `REPLCONF` announces the port on which a replica listens.
pub fn is_port_announcement(frame: &Vec<Vec<u8>>) -> (r: bool)
    ensures
        r == announces_port(views(frame@)),
{
    if frame.len() < 3 {
        return false;
    }
    let word = to_lower(frame[1].as_slice());
    let port = to_lower(LISTENING_PORT.as_bytes());
    crate::bytes::bytes_eq(word.as_slice(), port.as_slice())
}

/// What `REPLCONF` does.
pub open spec fn replconf_outcome(
    frame: Seq<Seq<u8>>,
    counted: nat,
    ports: Seq<Seq<u8>>,
    num_waiting_for: usize,
    num_acks: usize,
) -> (Seq<u8>, Seq<Seq<u8>>, usize) {
    if frame.len() < 2 {
        (arity_error(frame[0]), ports, num_acks)
    } else if lower(frame[1]) == lower(GETACK.spec_bytes()) {
        (
            resp_array(
                seq![REPL_CONF.spec_bytes(), ACK.spec_bytes(), decimal(acked_offset(counted))],
            ),
            ports,
            num_acks,
        )
    } else if lower(frame[1]) == lower(LISTENING_PORT.spec_bytes()) {
        if frame.len() < 3 {
            (arity_error(frame[0]), ports, num_acks)
        } else {
            (RESP_OK.spec_bytes(), ports.push(frame[2]), num_acks)
        }
    } else if lower(frame[1]) == lower(ACK.spec_bytes()) {
        (Seq::empty(), ports, acked(num_waiting_for, num_acks))
    } else {
        (RESP_OK.spec_bytes(), ports, num_acks)
    }
}

/// `REPLCONF GETACK *` is answered with the acknowledged offset,
/// `REPLCONF listening-port port` records the port of a replica,
/// `REPLCONF ACK offset` counts an acknowledgement for the pending wait and
/// gets no reply, and every other `REPLCONF` is confirmed. `counted` is the
/// byte count of the connection's decoder.
pub fn cmd_replconf(info: &mut BroadCastInfo, frame: &Vec<Vec<u8>>, counted: usize) -> (r: Vec<u8>)
    requires
        frame@.len() >= 1,
    ensures
        (r@, views(final(info).ports@), final(info).num_acks) == replconf_outcome(
            views(frame@),
            counted as nat,
            views(old(info).ports@),
            old(info).num_waiting_for,
            old(info).num_acks,
        ),
        final(info).connections == old(info).connections,
        final(info).next_id == old(info).next_id,
        final(info).num_waiting_for == old(info).num_waiting_for,
        final(info).waiting_until == old(info).waiting_until,
{
    if frame.len() < 2 {
        return get_arity_error(frame[0].as_slice());
    }
    let word = to_lower(frame[1].as_slice());
    let getack = to_lower(GETACK.as_bytes());
    let port = to_lower(LISTENING_PORT.as_bytes());
    let ack = to_lower(ACK.as_bytes());
    if crate::bytes::bytes_eq(word.as_slice(), getack.as_slice()) {
        let probe = get_ack_probe();
        let offset = if counted >= probe.len() {
            counted - probe.len()
        } else {
            0
        };
        let mut parts: Vec<Vec<u8>> = Vec::new();
        parts.push(text(REPL_CONF));
        parts.push(text(ACK));
        parts.push(crate::bytes::decimal_bytes(offset as u64));
        assert(views(parts@) =~= seq![
            REPL_CONF.spec_bytes(),
            ACK.spec_bytes(),
            decimal(acked_offset(counted as nat)),
        ]);
        format_resp_array(&parts)
    } else if crate::bytes::bytes_eq(word.as_slice(), port.as_slice()) {
        if frame.len() < 3 {
            return get_arity_error(frame[0].as_slice());
        }
        let ghost before = views(info.ports@);
        let copy = clone_bytes(&frame[2]);
        info.ports.push(copy);
        assert(views(info.ports@) =~= before.push(frame@[2]@));
        text(RESP_OK)
    } else if crate::bytes::bytes_eq(word.as_slice(), ack.as_slice()) {
        if info.num_waiting_for > 0 && info.num_acks < usize::MAX {
            info.num_acks = info.num_acks + 1;
        }
        Vec::new()
    } else {
        text(RESP_OK)
    }
}

/// The value of an information field; nothing where the field is not set.
pub open spec fn field_or_empty(info: Pairs, name: Seq<u8>) -> Seq<u8> {
    match assoc_get(info, name) {
        Some(v) => v,
        None => Seq::empty(),
    }
}

/// The line by which a primary answers `PSYNC`: the word `FULLRESYNC`, its
/// replication identifier and its offset.
pub open spec fn fullresync(info: Pairs) -> Seq<u8> {
    seq![43u8] + FULLRESYNC.spec_bytes() + seq![32u8] + field_or_empty(
        info,
        MASTER_REPL_ID.spec_bytes(),
    ) + seq![32u8] + field_or_empty(info, MASTER_REPL_OFFSET.spec_bytes()) + crlf()
}

/// Appends the value of the information field `name`.
fn push_field(out: &mut Vec<u8>, info_fields: &ByteMap<Vec<u8>>, name: &str)
    ensures
        final(out)@ == old(out)@ + field_or_empty(pairs_of(info_fields), name.spec_bytes()),
{
    assert(assoc_keys(pairs_of(info_fields)) =~= info_fields.keys());
    let ghost before = out@;
    match info_fields.find(name.as_bytes()) {
        Some(at) => {
            push_bytes(out, info_fields.value_at(at).as_slice());
        },
        None => {
            assert(out@ =~= before + Seq::<u8>::empty());
        },
    }
}

/// `PSYNC`: answers with the full resynchronisation line and takes the
/// connection `conn` into the fan-out. The snapshot follows the line.
pub fn cmd_psync(info_fields: &ByteMap<Vec<u8>>, info: &mut BroadCastInfo, conn: u64) -> (r: Vec<
    u8,
>)
    ensures
        r@ == fullresync(pairs_of(info_fields)),
        final(info).connections@ == old(info).connections@.push(conn),
        final(info).ports == old(info).ports,
        final(info).num_waiting_for == old(info).num_waiting_for,
        final(info).waiting_until == old(info).waiting_until,
        final(info).num_acks == old(info).num_acks,
{
    let mut out: Vec<u8> = Vec::new();
    out.push(43);
    push_text(&mut out, FULLRESYNC);
    out.push(32);
    push_field(&mut out, info_fields, MASTER_REPL_ID);
    out.push(32);
    push_field(&mut out, info_fields, MASTER_REPL_OFFSET);
    push_crlf(&mut out);
    let _ = info.add_connection(conn);
    assert(out@ =~= fullresync(pairs_of(info_fields)));
    out
}

/// The bytes that carry a snapshot to a replica: `$`, the length in
/// decimal, a line end and the snapshot, with no line end after it.
pub open spec fn transfer(snapshot: Seq<u8>) -> Seq<u8> {
    seq![DOLLAR] + decimal(snapshot.len()) + crlf() + snapshot
}

/// The bytes that carry a snapshot to a replica.
pub fn snapshot_transfer(snapshot: &[u8]) -> (r: Vec<u8>)
    ensures
        r@ == transfer(snapshot@),
{
    let mut out: Vec<u8> = Vec::new();
    out.push(DOLLAR);
    push_decimal(&mut out, snapshot.len() as u64);
    push_crlf(&mut out);
    push_bytes(&mut out, snapshot);
    assert(out@ =~= transfer(snapshot@));
    out
}

/// What `WAIT` asks for.
pub enum Waiting {
    /// Reply at once.
    Reply(Vec<u8>),
    /// Send the probe to the replicas, wait, then reply with the number of
    /// acknowledgements.
    Await { ms: u64, probes: Vec<(u64, Vec<u8>)> },
}

/// The number of replicas and the time that `WAIT` names.
pub open spec fn wait_arguments(frame: Seq<Seq<u8>>) -> Option<(usize, u64)> {
    match (parse_decimal(frame[1]), parse_decimal(frame[2])) {
        (Some(n), Some(ms)) => if n <= usize::MAX {
            Some((n as usize, ms))
        } else {
            None
        },
        _ => None,
    }
}

/// What `WAIT n ms` does. On a connection that has sent no write the reply
/// is the number of replicas, at once. Otherwise a wait for `n`
/// acknowledgements begins that gives up `ms` milliseconds after `now_ms`,
/// and every replica is to be sent the probe.
pub open spec fn wait_post(
    before: BroadCastInfo,
    after: BroadCastInfo,
    frame: Seq<Seq<u8>>,
    has_written: bool,
    now_ms: u64,
    r: Waiting,
) -> bool {
    if frame.len() < 3 {
        r is Reply && r->Reply_0@ == arity_error(frame[0]) && after == before
    } else {
        match wait_arguments(frame) {
            None => r is Reply && r->Reply_0@ == NOT_INT_ERROR.spec_bytes() && after == before,
            Some((n, ms)) => if has_written {
                &&& r is Await
                &&& r->ms == ms
                &&& message_views(r->probes@) == fan_out(before.connections@, ack_probe())
                &&& after == (BroadCastInfo {
                    num_waiting_for: n,
                    waiting_until: later(now_ms, ms),
                    num_acks: 0,
                    ..before
                })
            } else {
                &&& r is Reply
                &&& r->Reply_0@ == integer_reply(before.connections@.len() as int)
                &&& after == before
            },
        }
    }
}

/// `WAIT n ms`.
pub fn cmd_wait(info: &mut BroadCastInfo, frame: &Vec<Vec<u8>>, has_written: bool, now_ms: u64) -> (r:
    Waiting)
    requires
        frame@.len() >= 1,
    ensures
        wait_post(*old(info), *final(info), views(frame@), has_written, now_ms, r),
{
    if frame.len() < 3 {
        return Waiting::Reply(get_arity_error(frame[0].as_slice()));
    }
    let n = match parse_u64(frame[1].as_slice()) {
        Some(n) => n,
        None => {
            return Waiting::Reply(text(NOT_INT_ERROR));
        },
    };
    let ms = match parse_u64(frame[2].as_slice()) {
        Some(ms) => ms,
        None => {
            return Waiting::Reply(text(NOT_INT_ERROR));
        },
    };
    if n > usize::MAX as u64 {
        return Waiting::Reply(text(NOT_INT_ERROR));
    }
    if !has_written {
        return Waiting::Reply(get_redis_count(info.connections.len()));
    }
    info.num_waiting_for = n as usize;
    info.waiting_until = if ms > u64::MAX - now_ms {
        u64::MAX
    } else {
        now_ms + ms
    };
    info.num_acks = 0;
    let probe = get_ack_probe();
    let probes = info.broadcast_bytes(&probe);
    Waiting::Await { ms, probes }
}

/// Whether the pending wait has all the acknowledgements it asks for.
pub fn wait_satisfied(info: &BroadCastInfo) -> (r: bool)
    ensures
        r == (info.num_acks >= info.num_waiting_for),
{
    info.num_acks >= info.num_waiting_for
}

/// Ends the pending wait: the reply is the number of acknowledgements that
/// arrived, at most the number asked for.
pub fn finish_wait(info: &mut BroadCastInfo) -> (r: Vec<u8>)
    ensures
        r@ == integer_reply(
            if old(info).num_acks <= old(info).num_waiting_for {
                old(info).num_acks as int
            } else {
                old(info).num_waiting_for as int
            },
        ),
        final(info).num_acks == 0,
        final(info).num_waiting_for == 0,
        final(info).connections == old(info).connections,
        final(info).next_id == old(info).next_id,
        final(info).ports == old(info).ports,
        final(info).waiting_until == old(info).waiting_until,
{
    let acks = if info.num_acks <= info.num_waiting_for {
        info.num_acks
    } else {
        info.num_waiting_for
    };
    info.num_acks = 0;
    info.num_waiting_for = 0;
    get_redis_count(acks)
}

/// A step of the handshake by which a replica joins its primary.
#[derive(Debug, Clone, Copy, PartialEq, Eq)]
pub enum HandshakeStep {
    /// Greet the primary.
    Ping,
    /// Tell the primary the port on which this replica listens.
    ListeningPort,
    /// Tell the primary what this replica can do.
    Capabilities,
    /// Ask for a full resynchronisation.
    Psync,
    /// The handshake is over.
    Done,
}

/// The frame that a replica sends at a step of the handshake.
pub open spec fn handshake_frame(step: HandshakeStep, port: Seq<u8>) -> Seq<Seq<u8>> {
    match step {
        HandshakeStep::Ping => seq!["PING".spec_bytes()],
        HandshakeStep::ListeningPort => seq![
            REPL_CONF.spec_bytes(),
            LISTENING_PORT.spec_bytes(),
            port,
        ],
        HandshakeStep::Capabilities => seq![
            REPL_CONF.spec_bytes(),
            "capa".spec_bytes(),
            "psync2".spec_bytes(),
        ],
        HandshakeStep::Psync => seq![PSYNC.spec_bytes(), "?".spec_bytes(), "-1".spec_bytes()],
        HandshakeStep::Done => Seq::empty(),
    }
}

/// How long a replica waits after a message of the handshake before it
/// goes on, in milliseconds.
pub const HANDSHAKE_PAUSE_MS: u64 = 10;

impl HandshakeStep {
    /// The step that follows this one.
    pub open spec fn following(self) -> HandshakeStep {
        match self {
            HandshakeStep::Ping => HandshakeStep::ListeningPort,
            HandshakeStep::ListeningPort => HandshakeStep::Capabilities,
            HandshakeStep::Capabilities => HandshakeStep::Psync,
            HandshakeStep::Psync => HandshakeStep::Done,
            HandshakeStep::Done => HandshakeStep::Done,
        }
    }

    /// The first step.
    pub fn first() -> (r: Self)
        ensures
            r == HandshakeStep::Ping,
    {
        HandshakeStep::Ping
    }

    /// What a replica that listens on `replica_port` sends at this step,
    /// the step that follows, and how many milliseconds to wait before it.
    /// Once the handshake is over there is nothing to send and nothing to
    /// wait for.
    pub fn advance(&self, replica_port: &[u8]) -> (r: (Option<Vec<u8>>, HandshakeStep, u64))
        ensures
            r.1 == self.following(),
            match r.0 {
                Some(bytes) => *self != HandshakeStep::Done && bytes@ == resp_array(
                    handshake_frame(*self, replica_port@),
                ) && r.2 == HANDSHAKE_PAUSE_MS,
                None => *self == HandshakeStep::Done && r.2 == 0,
            },
    {
        let mut parts: Vec<Vec<u8>> = Vec::new();
        match self {
            HandshakeStep::Ping => {
                parts.push(text("PING"));
                assert(views(parts@) =~= handshake_frame(*self, replica_port@));
                (Some(format_resp_array(&parts)), HandshakeStep::ListeningPort, HANDSHAKE_PAUSE_MS)
            },
            HandshakeStep::ListeningPort => {
                parts.push(text(REPL_CONF));
                parts.push(text(LISTENING_PORT));
                let port = crate::bytes::copy_range(replica_port, 0, replica_port.len());
                assert(port@ =~= replica_port@);
                parts.push(port);
                assert(views(parts@) =~= handshake_frame(*self, replica_port@));
                (Some(format_resp_array(&parts)), HandshakeStep::Capabilities, HANDSHAKE_PAUSE_MS)
            },
            HandshakeStep::Capabilities => {
                parts.push(text(REPL_CONF));
                parts.push(text("capa"));
                parts.push(text("psync2"));
                assert(views(parts@) =~= handshake_frame(*self, replica_port@));
                (Some(format_resp_array(&parts)), HandshakeStep::Psync, HANDSHAKE_PAUSE_MS)
            },
            HandshakeStep::Psync => {
                parts.push(text(PSYNC));
                parts.push(text("?"));
                parts.push(text("-1"));
                assert(views(parts@) =~= handshake_frame(*self, replica_port@));
                (Some(format_resp_array(&parts)), HandshakeStep::Done, HANDSHAKE_PAUSE_MS)
            },
            HandshakeStep::Done => (None, HandshakeStep::Done, 0),
        }
    }
}

/// The handshake goes through its four messages in this order: the
/// greeting, the port, the capabilities, and the request for a full
/// resynchronisation; then it is over. The greeting is the frame of the one
/// word `PING`.
pub proof fn lemma_handshake_order(port: Seq<u8>)
    ensures
        HandshakeStep::Ping.following() == HandshakeStep::ListeningPort,
        HandshakeStep::ListeningPort.following() == HandshakeStep::Capabilities,
        HandshakeStep::Capabilities.following() == HandshakeStep::Psync,
        HandshakeStep::Psync.following() == HandshakeStep::Done,
        HandshakeStep::Done.following() == HandshakeStep::Done,
        resp_array(handshake_frame(HandshakeStep::Ping, port)) == "*1\r\n$4\r\nPING\r\n".spec_bytes(),
        handshake_frame(HandshakeStep::ListeningPort, port)[2] == port,
{
    reveal_strlit("PING");
    reveal_strlit("*1\r\n$4\r\nPING\r\n");
    vstd::string::is_ascii_spec_bytes("PING");
    vstd::string::is_ascii_spec_bytes("*1\r\n$4\r\nPING\r\n");
    reveal_with_fuel(crate::utils::bulk_strings, 2);
    let frame = handshake_frame(HandshakeStep::Ping, port);
    assert(frame.drop_last() =~= Seq::<Seq<u8>>::empty());
    assert(decimal(1) =~= seq![49u8]);
    assert(decimal(4) =~= seq![52u8]);
    assert(resp_array(frame) =~= "*1\r\n$4\r\nPING\r\n".spec_bytes());
}

} // verus!
