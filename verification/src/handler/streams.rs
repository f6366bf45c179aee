//! The commands on streams.

use vstd::prelude::*;
use vstd::slice::slice_subrange;
use vstd::string::StringSliceAdditionalSpecFns;
use crate::byte_map::{has_key, position, ByteMap};
use crate::bytes::{clone_bytes, is_text, lower, parse_decimal, parse_u64, text, to_lower, views};
use crate::constants::{NONE_TYPE, NOT_INT_ERROR, RESP_NULL, STREAM, STRING};
use crate::entry_stream::{add_outcome, after, blocked_read, entry_views, min_id,
    range_reply, read_start, xread_reply, EntryModel, Fields, RedisEntry, RedisEntryStream,
    StreamModel};
use crate::entry_utils::{found_views, get_all_stream_names, get_xread_resp_array, pair_views,
    stream_pairs};
use crate::handler::replies::{arity_error, get_arity_error};
use crate::handler::strings::{evicted, live_value, observe};
use crate::types::{Entries, RedisDatabase};
use crate::utils::message_views;

verus! {

/// The state of the stream under `key`; of an empty stream where there is
/// none.
pub open spec fn stream_or_empty(streams: &ByteMap<RedisEntryStream>, key: Seq<u8>) -> StreamModel {
    match streams.value_of(key) {
        Some(stream) => stream@,
        None => StreamModel {
            entries: Seq::empty(),
            last_id: min_id(),
            sequences: Map::empty(),
            first_sequence_id: None,
            last_sequence_id: None,
            waiting_streams: Seq::empty(),
        },
    }
}

/// The fields and values that the arguments spell: each field followed by
/// its value.
pub open spec fn field_pairs(args: Seq<Seq<u8>>) -> Fields {
    Seq::new(args.len() / 2, |i: int| (args[2 * i], args[2 * i + 1]))
}

/// Whether a frame has the form of `XADD`: a stream, an identifier, and
/// fields with a value each, at least one.
pub open spec fn xadd_form(frame: Seq<Seq<u8>>) -> bool {
    frame.len() >= 5 && (frame.len() - 3) % 2 == 0
}

/// What `XADD stream id (field value)+` does: an entry is added to the
/// stream, which is made if it is not there, unless the identifier is
/// refused.
pub open spec fn xadd_post(
    before: &ByteMap<RedisEntryStream>,
    after: &ByteMap<RedisEntryStream>,
    frame: Seq<Seq<u8>>,
    now_ms: u64,
    reply: Seq<u8>,
    messages: Seq<(u64, Seq<u8>)>,
) -> bool {
    if !xadd_form(frame) {
        reply == arity_error(frame[0]) && messages.len() == 0 && *after == *before
    } else {
        let key = frame[1];
        let outcome = add_outcome(
            stream_or_empty(before, key),
            key,
            frame[2],
            field_pairs(frame.skip(3)),
            now_ms,
        );
        &&& after.differs_at(before, key)
        &&& after.value_of(key) is Some
        &&& after.value_of(key)->0@ == outcome.0
        &&& reply == outcome.1
        &&& messages == outcome.2
    }
}

/// `XADD stream id (field value)+`. Returns the reply and what is to be
/// sent to which waiting connection.
pub fn cmd_xadd(streams: &mut ByteMap<RedisEntryStream>, frame: &Vec<Vec<u8>>, now_ms: u64) -> (r: (
    Vec<u8>,
    Vec<(u64, Vec<u8>)>,
))
    requires
        frame@.len() >= 1,
    ensures
        xadd_post(
            old(streams),
            final(streams),
            views(frame@),
            now_ms,
            r.0@,
            message_views(r.1@),
        ),
{
    if frame.len() < 5 || (frame.len() - 3) % 2 != 0 {
        let none: Vec<(u64, Vec<u8>)> = Vec::new();
        assert(message_views(none@).len() == 0);
        return (get_arity_error(frame[0].as_slice()), none);
    }
    let ghost args = views(frame@).skip(3);
    let mut fields: Vec<(Vec<u8>, Vec<u8>)> = Vec::new();
    let mut i: usize = 3;
    while i < frame.len()
        invariant
            3 <= i <= frame.len(),
            (i - 3) % 2 == 0,
            (frame.len() - 3) % 2 == 0,
            args == views(frame@).skip(3),
            fields@.len() == (i - 3) / 2,
            forall|j: int|
                0 <= j < fields@.len() ==> (#[trigger] fields@[j]).0@ == args[2 * j]
                    && fields@[j].1@ == args[2 * j + 1],
        decreases frame.len() - i,
    {
        fields.push((clone_bytes(&frame[i]), clone_bytes(&frame[i + 1])));
        i += 2;
    }
    assert(crate::entry_stream::field_views(fields@) =~= field_pairs(args));
    let key = &frame[1];
    let at = streams.index_or_insert(key.as_slice(), RedisEntryStream::new());
    let stream = streams.value_at_mut(at);
    stream.handle_add(key.as_slice(), frame[2].as_slice(), fields, now_ms)
}

/// `XRANGE stream start end`: the entries with identifiers from `start` to
/// `end`, both included. A stream that is not there gives the null bulk
/// string.
pub fn cmd_xrange(streams: &ByteMap<RedisEntryStream>, frame: &Vec<Vec<u8>>) -> (r: Vec<u8>)
    requires
        frame@.len() >= 1,
    ensures
        r@ == if frame@.len() < 4 {
            arity_error(frame@[0]@)
        } else {
            range_reply(stream_or_empty(streams, frame@[1]@).entries, frame@[2]@, frame@[3]@)
        },
{
    if frame.len() < 4 {
        return get_arity_error(frame[0].as_slice());
    }
    match streams.find(frame[1].as_slice()) {
        Some(at) => streams.value_at(at).get_from_range(frame[2].as_slice(), frame[3].as_slice()),
        None => text(RESP_NULL),
    }
}

/// What a read without blocking finds in the stream `name` after `start`:
/// nothing in a stream that is not there.
pub open spec fn read_one(streams: &ByteMap<RedisEntryStream>, name: Seq<u8>, start: Seq<u8>) -> Seq<
    EntryModel,
> {
    match streams.value_of(name) {
        Some(stream) => match read_start(start, stream@.last_id) {
            Some(from) => after(stream@.entries, from),
            None => Seq::empty(),
        },
        None => Seq::empty(),
    }
}

/// What a read after a block finds in the stream `name` after `start`:
/// the entries with identifiers larger than `start`; for `$`, the entries
/// that were added while the block lasted. Nothing in a stream that is not
/// there, and nothing for a malformed start.
pub open spec fn read_one_blocked(
    streams: &ByteMap<RedisEntryStream>,
    name: Seq<u8>,
    start: Seq<u8>,
    started: u64,
    ms: u64,
) -> Seq<EntryModel> {
    match streams.value_of(name) {
        Some(stream) => match blocked_read(stream@.entries, start, started, ms) {
            Some(found) => found,
            None => Seq::empty(),
        },
        None => Seq::empty(),
    }
}

/// What a read finds, stream by stream, for the given names and starts;
/// a stream in which it finds nothing is left out. `blocked` holds the start
/// and the length of the block after which the read is made, if any.
pub open spec fn read_found(
    streams: &ByteMap<RedisEntryStream>,
    pairs: Seq<(Seq<u8>, Seq<u8>)>,
    blocked: Option<(u64, u64)>,
) -> Seq<(Seq<u8>, Seq<EntryModel>)>
    decreases pairs.len(),
{
    if pairs.len() == 0 {
        Seq::empty()
    } else {
        let rest = read_found(streams, pairs.drop_last(), blocked);
        let (name, start) = pairs.last();
        let found = match blocked {
            Some((started, ms)) => read_one_blocked(streams, name, start, started, ms),
            None => read_one(streams, name, start),
        };
        if found.len() > 0 {
            rest.push((name, found))
        } else {
            rest
        }
    }
}

/// The reply to a read over the given streams.
pub fn read_streams(
    streams: &ByteMap<RedisEntryStream>,
    pairs: &Vec<(Vec<u8>, Vec<u8>)>,
    blocked: Option<(u64, u64)>,
) -> (r: Vec<u8>)
    ensures
        r@ == xread_reply(read_found(streams, pair_views(pairs@), blocked)),
{
    let mut found: Vec<(Vec<u8>, Vec<RedisEntry>)> = Vec::new();
    let ghost all = pair_views(pairs@);
    let mut i: usize = 0;
    assert(all.subrange(0, 0) =~= Seq::<(Seq<u8>, Seq<u8>)>::empty());
    assert(found_views(found@) =~= Seq::<(Seq<u8>, Seq<EntryModel>)>::empty());
    while i < pairs.len()
        invariant
            i <= pairs.len(),
            all == pair_views(pairs@),
            found_views(found@) == read_found(streams, all.subrange(0, i as int), blocked),
        decreases pairs.len() - i,
    {
        let name = &pairs[i].0;
        let start = &pairs[i].1;
        proof {
            let grown = all.subrange(0, i + 1);
            assert(grown.drop_last() =~= all.subrange(0, i as int));
            assert(grown.last() == (name@, start@));
        }
        match streams.find(name.as_slice()) {
            Some(at) => {
                let stream = streams.value_at(at);
                let part = match blocked {
                    Some((started, ms)) => stream.block_xread(
                        name.as_slice(),
                        started,
                        ms,
                        start.as_slice(),
                    ),
                    None => stream.xread_range(name.as_slice(), start.as_slice()),
                };
                match part {
                    Some(section) => {
                        proof {
                            assert(found_views(found@.push(section)) =~= found_views(found@).push(
                                (section.0@, entry_views(section.1@)),
                            ));
                        }
                        found.push(section);
                    },
                    None => {},
                }
            },
            None => {},
        }
        i += 1;
    }
    assert(all.subrange(0, i as int) =~= all);
    get_xread_resp_array(&found)
}

/// The reply after a read blocked for `ms` milliseconds from `started`:
/// for each of the given streams the entries after the given identifier,
/// and, where the identifier is `$`, the entries that were added in that
/// time.
pub fn finish_block_read(
    streams: &ByteMap<RedisEntryStream>,
    pairs: &Vec<(Vec<u8>, Vec<u8>)>,
    started: u64,
    ms: u64,
) -> (r: Vec<u8>)
    ensures
        r@ == xread_reply(read_found(streams, pair_views(pairs@), Some((started, ms)))),
{
    read_streams(streams, pairs, Some((started, ms)))
}

/// What `XREAD` asks for.
pub enum Reading {
    /// Reply at once.
    Reply(Vec<u8>),
    /// The connection waits on the streams until an entry is added.
    Waiting,
    /// Wait, then read what was added meanwhile.
    Block { ms: u64, streams: Vec<(Vec<u8>, Vec<u8>)> },
}

/// The streams as names with their states.
pub open spec fn stream_models(streams: &ByteMap<RedisEntryStream>) -> Seq<(Seq<u8>, StreamModel)> {
    Seq::new(streams.keys().len(), |i: int| (streams.keys()[i], streams.vals()[i]@))
}

/// The streams after the connection `conn` was registered as waiting on
/// each of the named streams; a stream that is not there is made.
pub open spec fn with_waiter(
    models: Seq<(Seq<u8>, StreamModel)>,
    pairs: Seq<(Seq<u8>, Seq<u8>)>,
    conn: u64,
) -> Seq<(Seq<u8>, StreamModel)>
    decreases pairs.len(),
{
    if pairs.len() == 0 {
        models
    } else {
        let so_far = with_waiter(models, pairs.drop_last(), conn);
        let name = pairs.last().0;
        let before = match crate::byte_map::assoc_get(so_far, name) {
            Some(m) => m,
            None => StreamModel {
                entries: Seq::empty(),
                last_id: min_id(),
                sequences: Map::empty(),
                first_sequence_id: None,
                last_sequence_id: None,
                waiting_streams: Seq::empty(),
            },
        };
        crate::byte_map::assoc_put(
            so_far,
            name,
            StreamModel {
                waiting_streams: if before.waiting_streams.contains(conn) {
                    before.waiting_streams
                } else {
                    before.waiting_streams.push(conn)
                },
                ..before
            },
        )
    }
}

/// Whether the second element of a frame is the word `BLOCK`, in any case.
pub open spec fn asks_to_block(frame: Seq<Seq<u8>>) -> bool {
    frame.len() >= 2 && lower(frame[1]) == "block".spec_bytes()
}

/// What `XREAD [BLOCK ms] STREAMS name+ id+` does. Without `BLOCK` the
/// reply lists, for each stream, the entries after the given identifier.
/// With a block of zero the connection `conn` is registered as waiting on
/// every listed stream. With another block the caller is asked to wait and
/// then to read.
pub open spec fn xread_post(
    before: &ByteMap<RedisEntryStream>,
    after: &ByteMap<RedisEntryStream>,
    frame: Seq<Seq<u8>>,
    conn: u64,
    r: Reading,
) -> bool {
    if !asks_to_block(frame) {
        if frame.len() < 4 {
            r is Reply && r->Reply_0@ == arity_error(frame[0]) && *after == *before
        } else {
            r is Reply && r->Reply_0@ == xread_reply(
                read_found(before, stream_pairs(frame.skip(2)), None),
            ) && *after == *before
        }
    } else if frame.len() < 6 {
        r is Reply && r->Reply_0@ == arity_error(frame[0]) && *after == *before
    } else {
        match parse_decimal(frame[2]) {
            None => r is Reply && r->Reply_0@ == NOT_INT_ERROR.spec_bytes() && *after == *before,
            Some(ms) => if ms == 0 {
                r is Waiting && stream_models(after) == with_waiter(
                    stream_models(before),
                    stream_pairs(frame.skip(4)),
                    conn,
                )
            } else {
                r is Block && r->ms == ms && pair_views(r->streams@) == stream_pairs(
                    frame.skip(4),
                ) && *after == *before
            },
        }
    }
}

/// `XREAD [BLOCK ms] STREAMS name+ id+`.
pub fn cmd_xread(streams: &mut ByteMap<RedisEntryStream>, frame: &Vec<Vec<u8>>, conn: u64) -> (r:
    Reading)
    requires
        frame@.len() >= 1,
    ensures
        xread_post(old(streams), final(streams), views(frame@), conn, r),
{
    let blocking = if frame.len() >= 2 {
        let word = to_lower(frame[1].as_slice());
        is_text(word.as_slice(), "block")
    } else {
        false
    };
    if !blocking {
        if frame.len() < 4 {
            return Reading::Reply(get_arity_error(frame[0].as_slice()));
        }
        let names = slice_subrange(frame.as_slice(), 2, frame.len());
        assert(views(names@) =~= views(frame@).skip(2));
        let pairs = get_all_stream_names(names);
        return Reading::Reply(read_streams(streams, &pairs, None));
    }
    if frame.len() < 6 {
        return Reading::Reply(get_arity_error(frame[0].as_slice()));
    }
    let ms = match parse_u64(frame[2].as_slice()) {
        Some(ms) => ms,
        None => {
            return Reading::Reply(text(NOT_INT_ERROR));
        },
    };
    let names = slice_subrange(frame.as_slice(), 4, frame.len());
    assert(views(names@) =~= views(frame@).skip(4));
    let pairs = get_all_stream_names(names);
    if ms > 0 {
        return Reading::Block { ms, streams: pairs };
    }
    let ghost all = pair_views(pairs@);
    let ghost start = stream_models(streams);
    let mut i: usize = 0;
    assert(all.subrange(0, 0) =~= Seq::<(Seq<u8>, Seq<u8>)>::empty());
    while i < pairs.len()
        invariant
            i <= pairs.len(),
            all == pair_views(pairs@),
            stream_models(streams) == with_waiter(start, all.subrange(0, i as int), conn),
        decreases pairs.len() - i,
    {
        let name = &pairs[i].0;
        let ghost so_far = stream_models(streams);
        proof {
            let grown = all.subrange(0, i + 1);
            assert(grown.drop_last() =~= all.subrange(0, i as int));
            assert(grown.last().0 == name@);
            assert(crate::byte_map::assoc_keys(so_far) =~= streams.keys());
        }
        let ghost held = *streams;
        let at = streams.index_or_insert(name.as_slice(), RedisEntryStream::new());
        let stream = streams.value_at_mut(at);
        stream.add_waiter(conn);
        proof {
            let model = streams.vals()[at as int]@;
            match position(held.keys(), name@) {
                Some(k) => {
                    assert(has_key(held.keys(), name@));
                    assert(held.keys()[k] == name@);
                    assert(stream_models(streams) =~= so_far.update(k, (name@, model)));
                },
                None => {
                    assert(stream_models(streams) =~= so_far.push((name@, model)));
                },
            }
        }
        i += 1;
    }
    assert(all.subrange(0, i as int) =~= all);
    Reading::Waiting
}

/// The reply to `TYPE key`: `string` for a key that a reader sees in the
/// string store, `stream` for a stream, and `none` otherwise.
pub open spec fn type_reply(db: Entries, streams: &ByteMap<RedisEntryStream>, key: Seq<u8>, now_ms: u64) -> Seq<
    u8,
> {
    if live_value(db, key, now_ms) is Some {
        STRING.spec_bytes()
    } else if streams.value_of(key) is Some {
        STREAM.spec_bytes()
    } else {
        NONE_TYPE.spec_bytes()
    }
}

/// What `TYPE key` does: the reply names the kind of the key, and the
/// string store is the one after the first access that observes the key's
/// expiry.
pub open spec fn type_post(
    before: Entries,
    after: Entries,
    streams: &ByteMap<RedisEntryStream>,
    frame: Seq<Seq<u8>>,
    now_ms: u64,
    r: Seq<u8>,
) -> bool {
    if frame.len() < 2 {
        r == arity_error(frame[0]) && after == before
    } else {
        r == type_reply(before, streams, frame[1], now_ms) && after == evicted(
            before,
            frame[1],
            now_ms,
        )
    }
}

/// `TYPE key`.
pub fn cmd_type(
    db: &mut RedisDatabase,
    streams: &ByteMap<RedisEntryStream>,
    frame: &Vec<Vec<u8>>,
    now_ms: u64,
) -> (r: Vec<u8>)
    requires
        frame@.len() >= 1,
    ensures
        type_post(old(db)@, final(db)@, streams, views(frame@), now_ms, r@),
{
    if frame.len() < 2 {
        return get_arity_error(frame[0].as_slice());
    }
    if observe(db, frame[1].as_slice(), now_ms).is_some() {
        text(STRING)
    } else if streams.find(frame[1].as_slice()).is_some() {
        text(STREAM)
    } else {
        text(NONE_TYPE)
    }
}

} // verus!
