//! The commands on channels.

use vstd::prelude::*;
use vstd::string::StringSliceAdditionalSpecFns;
use crate::broadcast_info::fan_out;
use crate::byte_map::ByteMap;
use crate::bytes::{clone_bytes, text, views};
use crate::handler::replies::{arity_error, get_arity_error};
use crate::redis_connection::RedisConnection;
use crate::redis_subscriber::{first_index, Channel};
use crate::utils::{array_header, bulk_string, format_resp_array, get_redis_count, integer_reply,
    message_views, push_array_header, push_bulk_string, resp_array};

verus! {

/// The connections that are subscribed to the channel `name`; none where
/// there is no such channel.
pub open spec fn subscribers_of(channels: &ByteMap<Channel>, name: Seq<u8>) -> Seq<u64> {
    match channels.value_of(name) {
        Some(chan) => chan.subscribers@,
        None => Seq::empty(),
    }
}

/// The reply that confirms a change of subscription: the kind of change,
/// the channel, and the number of channels to which the connection is then
/// subscribed.
pub open spec fn subscription_reply(kind: Seq<u8>, channel: Seq<u8>, count: nat) -> Seq<u8> {
    array_header(3) + bulk_string(kind) + bulk_string(channel) + integer_reply(count as int)
}

/// The reply that confirms a change of subscription.
fn get_subscription_reply(kind: &str, channel: &[u8], count: usize) -> (r: Vec<u8>)
    ensures
        r@ == subscription_reply(kind.spec_bytes(), channel@, count as nat),
{
    let mut out: Vec<u8> = Vec::new();
    push_array_header(&mut out, 3);
    push_bulk_string(&mut out, kind.as_bytes());
    push_bulk_string(&mut out, channel);
    let number = get_redis_count(count);
    crate::bytes::push_bytes(&mut out, number.as_slice());
    out
}

/// A count raised by one, up to the largest.
pub open spec fn one_more(n: usize) -> usize {
    if n == usize::MAX {
        n
    } else {
        (n + 1) as usize
    }
}

/// A count lowered by one, down to zero.
pub open spec fn one_less(n: usize) -> usize {
    if n == 0 {
        n
    } else {
        (n - 1) as usize
    }
}

/// What `SUBSCRIBE channel` does: the connection is subscribed to the
/// channel, which is made if it is not there, and is put into subscribe
/// mode. A connection that is subscribed to the channel already gets no
/// reply.
pub open spec fn subscribe_post(
    before: &ByteMap<Channel>,
    after: &ByteMap<Channel>,
    conn: RedisConnection,
    conn_after: RedisConnection,
    frame: Seq<Seq<u8>>,
    r: Seq<u8>,
) -> bool {
    if frame.len() < 2 {
        r == arity_error(frame[0]) && *after == *before && conn_after == conn
    } else {
        let name = frame[1];
        let subscribed = subscribers_of(before, name);
        &&& after.differs_at(before, name)
        &&& after.value_of(name) is Some
        &&& if subscribed.contains(conn.id) {
            &&& r.len() == 0
            &&& after.value_of(name)->0.subscribers@ == subscribed
            &&& conn_after == conn
        } else {
            &&& r == subscription_reply(
                "subscribe".spec_bytes(),
                name,
                one_more(conn.num_channels) as nat,
            )
            &&& after.value_of(name)->0.subscribers@ == subscribed.push(conn.id)
            &&& conn_after == (RedisConnection {
                in_sub_mode: true,
                num_channels: one_more(conn.num_channels),
                ..conn
            })
        }
    }
}

/// `SUBSCRIBE channel`.
pub fn cmd_subscribe(
    channels: &mut ByteMap<Channel>,
    conn: &mut RedisConnection,
    frame: &Vec<Vec<u8>>,
) -> (r: Vec<u8>)
    requires
        frame@.len() >= 1,
    ensures
        subscribe_post(old(channels), final(channels), *old(conn), *final(conn), views(frame@), r@),
{
    if frame.len() < 2 {
        return get_arity_error(frame[0].as_slice());
    }
    let name = &frame[1];
    let ghost subscribed = subscribers_of(channels, name@);
    let at = channels.index_or_insert(name.as_slice(), Channel::new(name));
    let chan = channels.value_at_mut(at);
    assert(chan.subscribers@ =~= subscribed);
    if chan.position_of(conn.id).is_some() {
        return Vec::new();
    }
    if conn.num_channels < usize::MAX {
        conn.num_channels = conn.num_channels + 1;
    }
    chan.subscribers.push(conn.id);
    conn.in_sub_mode = true;
    get_subscription_reply("subscribe", name.as_slice(), conn.num_channels)
}

/// The message that subscribers of `channel` are sent when `payload` is
/// published.
pub open spec fn published(channel: Seq<u8>, payload: Seq<u8>) -> Seq<u8> {
    resp_array(seq!["message".spec_bytes(), channel, payload])
}

/// What `PUBLISH channel message` does: the reply is the number of
/// subscribers of the channel, and each of them is sent the message.
pub open spec fn publish_post(
    channels: &ByteMap<Channel>,
    frame: Seq<Seq<u8>>,
    reply: Seq<u8>,
    messages: Seq<(u64, Seq<u8>)>,
) -> bool {
    if frame.len() < 3 {
        reply == arity_error(frame[0]) && messages.len() == 0
    } else {
        reply == integer_reply(subscribers_of(channels, frame[1]).len() as int) && messages
            == fan_out(subscribers_of(channels, frame[1]), published(frame[1], frame[2]))
    }
}

/// `PUBLISH channel message`. Returns the reply and what is to be sent to
/// which connection.
pub fn cmd_publish(channels: &ByteMap<Channel>, frame: &Vec<Vec<u8>>) -> (r: (
    Vec<u8>,
    Vec<(u64, Vec<u8>)>,
))
    requires
        frame@.len() >= 1,
    ensures
        publish_post(channels, views(frame@), r.0@, message_views(r.1@)),
{
    let mut out: Vec<(u64, Vec<u8>)> = Vec::new();
    if frame.len() < 3 {
        assert(message_views(out@).len() == 0);
        return (get_arity_error(frame[0].as_slice()), out);
    }
    match channels.find(frame[1].as_slice()) {
        None => {
            assert(message_views(out@) =~= fan_out(
                Seq::<u64>::empty(),
                published(frame@[1]@, frame@[2]@),
            ));
            (get_redis_count(0), out)
        },
        Some(at) => {
            let chan = channels.value_at(at);
            let mut parts: Vec<Vec<u8>> = Vec::new();
            parts.push(text("message"));
            parts.push(clone_bytes(&frame[1]));
            parts.push(clone_bytes(&frame[2]));
            assert(views(parts@) =~= seq!["message".spec_bytes(), frame@[1]@, frame@[2]@]);
            let message = format_resp_array(&parts);
            let mut i: usize = 0;
            while i < chan.subscribers.len()
                invariant
                    i <= chan.subscribers.len(),
                    out.len() == i,
                    forall|j: int|
                        0 <= j < i ==> (#[trigger] out@[j]).0 == chan.subscribers@[j]
                            && out@[j].1@ == message@,
                decreases chan.subscribers.len() - i,
            {
                let copy = clone_bytes(&message);
                out.push((chan.subscribers[i], copy));
                i += 1;
            }
            assert(message_views(out@) =~= fan_out(chan.subscribers@, message@));
            (get_redis_count(chan.subscribers.len()), out)
        },
    }
}

/// What `UNSUBSCRIBE channel` does: the connection's subscription to the
/// channel ends. The connection stays in subscribe mode for as long as it is
/// subscribed to a channel. A connection that is not subscribed to the
/// channel gets no reply.
pub open spec fn unsubscribe_post(
    before: &ByteMap<Channel>,
    after: &ByteMap<Channel>,
    conn: RedisConnection,
    conn_after: RedisConnection,
    frame: Seq<Seq<u8>>,
    r: Seq<u8>,
) -> bool {
    if frame.len() < 2 {
        r == arity_error(frame[0]) && *after == *before && conn_after == conn
    } else {
        let name = frame[1];
        let subscribed = subscribers_of(before, name);
        if subscribed.contains(conn.id) {
            &&& r == subscription_reply(
                "unsubscribe".spec_bytes(),
                name,
                one_less(conn.num_channels) as nat,
            )
            &&& after.differs_at(before, name)
            &&& after.value_of(name) is Some
            &&& after.value_of(name)->0.subscribers@ == subscribed.remove(
                first_index(subscribed, conn.id, 0),
            )
            &&& conn_after == (RedisConnection {
                in_sub_mode: one_less(conn.num_channels) > 0,
                num_channels: one_less(conn.num_channels),
                ..conn
            })
        } else {
            &&& r.len() == 0
            &&& *after == *before
            &&& conn_after == conn
        }
    }
}

/// `UNSUBSCRIBE channel`.
pub fn cmd_unsubscribe(
    channels: &mut ByteMap<Channel>,
    conn: &mut RedisConnection,
    frame: &Vec<Vec<u8>>,
) -> (r: Vec<u8>)
    requires
        frame@.len() >= 1,
    ensures
        unsubscribe_post(
            old(channels),
            final(channels),
            *old(conn),
            *final(conn),
            views(frame@),
            r@,
        ),
{
    if frame.len() < 2 {
        return get_arity_error(frame[0].as_slice());
    }
    let name = &frame[1];
    let at = match channels.find(name.as_slice()) {
        Some(at) => at,
        None => {
            assert(!Seq::<u64>::empty().contains(conn.id));
            return Vec::new();
        },
    };
    let found = channels.value_at(at).position_of(conn.id);
    let ghost before = channels.vals()[at as int].subscribers@;
    match found {
        None => Vec::new(),
        Some(i) => {
            let chan = channels.value_at_mut(at);
            let _ = chan.subscribers.remove(i);
            if conn.num_channels > 0 {
                conn.num_channels = conn.num_channels - 1;
            }
            conn.in_sub_mode = conn.num_channels > 0;
            get_subscription_reply("unsubscribe", name.as_slice(), conn.num_channels)
        },
    }
}

} // verus!
