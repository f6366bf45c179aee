//! The commands on lists.

use vstd::prelude::*;
use vstd::string::StringSliceAdditionalSpecFns;
use crate::byte_map::ByteMap;
use crate::bytes::{clone_bytes, find_byte, index_of, is_digit, parse_decimal, parse_i64,
    parse_signed, parse_u64, text, views};
use crate::constants::{NOT_INT_ERROR, RESP_NULL};
use crate::handler::replies::{arity_error, get_arity_error};
use crate::redis_list::{handed_out, least, ListModel, RedisList};
use crate::redis_sorted_set::{range_reply, resolve_range};
use crate::utils::{bulk_string, format_resp_array, get_bulk_string, get_redis_count,
    integer_reply, message_views, resp_array};

verus! {

/// The list under `key`; an empty list of that name where there is none.
pub open spec fn list_or_empty(lists: &ByteMap<RedisList>, key: Seq<u8>) -> ListModel {
    match lists.value_of(key) {
        Some(list) => list@,
        None => ListModel { name_key: key, values: Seq::empty(), blocking_pop_streams: Seq::empty() },
    }
}

/// The values `items` in reverse order.
pub open spec fn reversed(items: Seq<Seq<u8>>) -> Seq<Seq<u8>> {
    Seq::new(items.len(), |i: int| items[items.len() - 1 - i])
}

/// The values of a list after `added` were pushed: at the end in their
/// order, or at the head one by one, so that the last of them comes first.
pub open spec fn pushed(values: Seq<Seq<u8>>, added: Seq<Seq<u8>>, at_head: bool) -> Seq<Seq<u8>> {
    if at_head {
        reversed(added) + values
    } else {
        values + added
    }
}

/// What `RPUSH list value+` and `LPUSH list value+` do: the values are
/// pushed onto the list, which is made if it is not there; the reply is the
/// length that the list then has; and values are handed to the connections
/// that wait on the list, which leave the list together with their waiters.
pub open spec fn push_post(
    before: &ByteMap<RedisList>,
    after: &ByteMap<RedisList>,
    frame: Seq<Seq<u8>>,
    at_head: bool,
    reply: Seq<u8>,
    messages: Seq<(u64, Seq<u8>)>,
) -> bool {
    if frame.len() < 3 {
        reply == arity_error(frame[0]) && messages.len() == 0 && *after == *before
    } else {
        let key = frame[1];
        let list = list_or_empty(before, key);
        let grown = pushed(list.values, frame.skip(2), at_head);
        let given = least(grown.len() as int, list.blocking_pop_streams.len() as int);
        &&& reply == integer_reply(grown.len() as int)
        &&& messages == handed_out(list.name_key, grown, list.blocking_pop_streams)
        &&& after.differs_at(before, key)
        &&& after.value_of(key) is Some
        &&& after.value_of(key)->0@ == (ListModel {
            name_key: list.name_key,
            values: grown.skip(given),
            blocking_pop_streams: list.blocking_pop_streams.skip(given),
        })
    }
}

/// `RPUSH list value+` and `LPUSH list value+`. Returns the reply and what
/// is to be sent to which waiting connection.
pub fn cmd_push(lists: &mut ByteMap<RedisList>, frame: &Vec<Vec<u8>>, at_head: bool) -> (r: (
    Vec<u8>,
    Vec<(u64, Vec<u8>)>,
))
    requires
        frame@.len() >= 1,
    ensures
        push_post(old(lists), final(lists), views(frame@), at_head, r.0@, message_views(r.1@)),
{
    if frame.len() < 3 {
        let none: Vec<(u64, Vec<u8>)> = Vec::new();
        assert(message_views(none@).len() == 0);
        return (get_arity_error(frame[0].as_slice()), none);
    }
    let key = &frame[1];
    let ghost before = list_or_empty(lists, key@);
    let ghost added = views(frame@).skip(2);
    let at = lists.index_or_insert(key.as_slice(), RedisList::new(clone_bytes(key)));
    let list = lists.value_at_mut(at);
    assert(list@.values =~= before.values);
    assert(list@.blocking_pop_streams =~= before.blocking_pop_streams);
    assert(list@ == before);
    let mut i: usize = 2;
    assert(added.subrange(0, 0) =~= Seq::<Seq<u8>>::empty());
    assert(reversed(Seq::<Seq<u8>>::empty()) + before.values =~= before.values);
    assert(before.values + Seq::<Seq<u8>>::empty() =~= before.values);
    while i < frame.len()
        invariant
            2 <= i <= frame.len(),
            added == views(frame@).skip(2),
            list.name_key@ == before.name_key,
            list.blocking_pop_streams@ == before.blocking_pop_streams,
            views(list.values@) == pushed(before.values, added.subrange(0, i - 2), at_head),
        decreases frame.len() - i,
    {
        let value = clone_bytes(&frame[i]);
        let ghost held = views(list.values@);
        if at_head {
            list.values.insert(0, value);
            assert(views(list.values@) =~= seq![value@] + held);
            assert(reversed(added.subrange(0, i - 1)) =~= seq![value@] + reversed(
                added.subrange(0, i - 2),
            ));
            assert(views(list.values@) =~= pushed(
                before.values,
                added.subrange(0, i - 1),
                at_head,
            ));
        } else {
            list.values.push(value);
            assert(views(list.values@) =~= held.push(value@));
            assert(added.subrange(0, i - 1) =~= added.subrange(0, i - 2).push(value@));
            assert(views(list.values@) =~= pushed(
                before.values,
                added.subrange(0, i - 1),
                at_head,
            ));
        }
        i += 1;
    }
    assert(added.subrange(0, i - 2) =~= added);
    let reply = get_redis_count(list.values.len());
    let messages = list.check_waiting_streams();
    assert(message_views(messages@).len() == messages@.len());
    (reply, messages)
}

/// `LRANGE list start end`: the values with indexes from `start` to `end`,
/// both included; a negative index counts from the end. A list that is not
/// there gives the empty array, an index that is no integer an error.
pub fn cmd_lrange(lists: &ByteMap<RedisList>, frame: &Vec<Vec<u8>>) -> (r: Vec<u8>)
    requires
        frame@.len() >= 1,
    ensures
        r@ == lrange_reply(lists, views(frame@)),
{
    if frame.len() < 4 {
        return get_arity_error(frame[0].as_slice());
    }
    let start = match parse_i64(frame[2].as_slice()) {
        Some(n) => n,
        None => {
            return text(NOT_INT_ERROR);
        },
    };
    let end = match parse_i64(frame[3].as_slice()) {
        Some(n) => n,
        None => {
            return text(NOT_INT_ERROR);
        },
    };
    match lists.find(frame[1].as_slice()) {
        None => format_resp_array(&Vec::new()),
        Some(at) => {
            let list = lists.value_at(at);
            let mut picked: Vec<Vec<u8>> = Vec::new();
            let ghost all = views(list.values@);
            match resolve_range(list.values.len(), start, end) {
                None => {
                    assert(views(picked@) =~= Seq::<Seq<u8>>::empty());
                },
                Some((from, to)) => {
                    let mut i: usize = from;
                    assert(all.subrange(from as int, from as int) =~= views(picked@));
                    while i <= to
                        invariant
                            from <= i <= to + 1,
                            to < list.values.len(),
                            all == views(list.values@),
                            views(picked@) == all.subrange(from as int, i as int),
                        decreases to + 1 - i,
                    {
                        let copy = clone_bytes(&list.values[i]);
                        proof {
                            assert(views(picked@.push(copy)) =~= views(picked@).push(copy@));
                            assert(all.subrange(from as int, i as int).push(all[i as int])
                                =~= all.subrange(from as int, i + 1));
                        }
                        picked.push(copy);
                        i += 1;
                    }
                },
            }
            format_resp_array(&picked)
        },
    }
}

/// The reply to `LRANGE`.
pub open spec fn lrange_reply(lists: &ByteMap<RedisList>, frame: Seq<Seq<u8>>) -> Seq<u8> {
    if frame.len() < 4 {
        arity_error(frame[0])
    } else {
        match (parse_signed(frame[2]), parse_signed(frame[3])) {
            (Some(start), Some(end)) => match lists.value_of(frame[1]) {
                Some(list) => range_reply(list@.values, start as int, end as int),
                None => resp_array(Seq::empty()),
            },
            _ => NOT_INT_ERROR.spec_bytes(),
        }
    }
}

/// `LLEN list`: the number of values; zero for a list that is not there.
pub fn cmd_llen(lists: &ByteMap<RedisList>, frame: &Vec<Vec<u8>>) -> (r: Vec<u8>)
    requires
        frame@.len() >= 1,
    ensures
        r@ == if frame@.len() < 2 {
            arity_error(frame@[0]@)
        } else {
            integer_reply(list_or_empty(lists, frame@[1]@).values.len() as int)
        },
{
    if frame.len() < 2 {
        return get_arity_error(frame[0].as_slice());
    }
    match lists.find(frame[1].as_slice()) {
        Some(at) => get_redis_count(lists.value_at(at).values.len()),
        None => get_redis_count(0),
    }
}

/// How many values `LPOP` is asked to take: one where the frame gives no
/// count.
pub open spec fn pop_count(frame: Seq<Seq<u8>>) -> Option<u64> {
    if frame.len() > 2 {
        parse_decimal(frame[2])
    } else {
        Some(1)
    }
}

/// The reply of `LPOP` for a list with the given values: for a count of
/// one the head as a bulk string, or the null bulk string for an empty list;
/// for another count an array of as many values from the head as are there.
pub open spec fn lpop_reply(values: Seq<Seq<u8>>, count: u64) -> Seq<u8> {
    if count == 1 {
        if values.len() == 0 {
            RESP_NULL.spec_bytes()
        } else {
            bulk_string(values[0])
        }
    } else {
        resp_array(values.subrange(0, least(count as int, values.len() as int)))
    }
}

/// What `LPOP list [count]` does: values are taken from the head. A list
/// that is not there gives the null bulk string, a count that is no number
/// an error.
pub open spec fn lpop_post(
    before: &ByteMap<RedisList>,
    after: &ByteMap<RedisList>,
    frame: Seq<Seq<u8>>,
    r: Seq<u8>,
) -> bool {
    if frame.len() < 2 {
        r == arity_error(frame[0]) && *after == *before
    } else {
        match (before.value_of(frame[1]), pop_count(frame)) {
            (None, _) => r == RESP_NULL.spec_bytes() && *after == *before,
            (Some(list), None) => r == NOT_INT_ERROR.spec_bytes() && *after == *before,
            (Some(list), Some(count)) => {
                &&& r == lpop_reply(list@.values, count)
                &&& after.differs_at(before, frame[1])
                &&& after.value_of(frame[1]) is Some
                &&& after.value_of(frame[1])->0@ == (ListModel {
                    values: list@.values.skip(least(count as int, list@.values.len() as int)),
                    ..list@
                })
            },
        }
    }
}

/// `LPOP list [count]`.
pub fn cmd_lpop(lists: &mut ByteMap<RedisList>, frame: &Vec<Vec<u8>>) -> (r: Vec<u8>)
    requires
        frame@.len() >= 1,
    ensures
        lpop_post(old(lists), final(lists), views(frame@), r@),
{
    if frame.len() < 2 {
        return get_arity_error(frame[0].as_slice());
    }
    let at = match lists.find(frame[1].as_slice()) {
        Some(at) => at,
        None => {
            return text(RESP_NULL);
        },
    };
    let count: u64 = if frame.len() > 2 {
        match parse_u64(frame[2].as_slice()) {
            Some(n) => n,
            None => {
                return text(NOT_INT_ERROR);
            },
        }
    } else {
        1
    };
    let ghost before = lists.vals()[at as int]@;
    let list = lists.value_at_mut(at);
    assert(before.values.skip(0) =~= before.values);
    if count == 1 {
        if list.values.len() == 0 {
            return text(RESP_NULL);
        }
        let head = list.values.remove(0);
        assert(views(list.values@) =~= before.values.skip(1));
        return get_bulk_string(head.as_slice());
    }
    let mut taken: Vec<Vec<u8>> = Vec::new();
    assert(views(taken@) =~= before.values.subrange(0, 0));
    while (taken.len() as u64) < count && list.values.len() > 0
        invariant
            list.name_key@ == before.name_key,
            list.blocking_pop_streams@ == before.blocking_pop_streams,
            taken@.len() <= count,
            taken@.len() <= before.values.len(),
            views(taken@) == before.values.subrange(0, taken@.len() as int),
            views(list.values@) == before.values.skip(taken@.len() as int),
        decreases list.values.len(),
    {
        let ghost k = taken@.len() as int;
        let ghost held = views(list.values@);
        let head = list.values.remove(0);
        assert(views(list.values@) =~= held.skip(1));
        assert(before.values.skip(k).skip(1) =~= before.values.skip(k + 1));
        assert(head@ == held[0]);
        assert(held[0] == before.values[k]);
        assert(views(taken@.push(head)) =~= views(taken@).push(head@));
        assert(before.values.subrange(0, k).push(before.values[k]) =~= before.values.subrange(
            0,
            k + 1,
        ));
        taken.push(head);
    }
    format_resp_array(&taken)
}

/// ASCII `.`.
pub const DOT: u8 = 46;

/// The value of the digit at index `i` of `digits`; zero past the end.
pub open spec fn digit_at(digits: Seq<u8>, i: int) -> int {
    if 0 <= i < digits.len() {
        digits[i] - 48
    } else {
        0
    }
}

/// Whether every byte of `s` is a decimal digit.
pub open spec fn all_digits(s: Seq<u8>) -> bool {
    forall|i: int| 0 <= i < s.len() ==> is_digit(#[trigger] s[i])
}

/// The milliseconds that a time in seconds denotes: the text is a decimal
/// number with an optional fraction, of which the first three digits count.
/// `None` for any other text and for a time too large to hold.
pub open spec fn seconds_to_ms(s: Seq<u8>) -> Option<u64> {
    let dot = find_byte(s, DOT, 0);
    let fraction = if dot < s.len() {
        s.subrange(dot + 1, s.len() as int)
    } else {
        Seq::<u8>::empty()
    };
    match parse_decimal(s.subrange(0, dot)) {
        Some(whole) => if all_digits(fraction) && whole * 1000 + 999 <= u64::MAX {
            Some(
                (whole * 1000 + digit_at(fraction, 0) * 100 + digit_at(fraction, 1) * 10
                    + digit_at(fraction, 2)) as u64,
            )
        } else {
            None
        },
        None => None,
    }
}

/// The milliseconds that a time in seconds denotes.
pub fn read_seconds(s: &[u8]) -> (r: Option<u64>)
    ensures
        r == seconds_to_ms(s@),
{
    let dot = index_of(s, DOT, 0);
    let whole = match parse_u64(vstd::slice::slice_subrange(s, 0, dot)) {
        Some(n) => n,
        None => {
            return None;
        },
    };
    let ghost fraction = if dot < s.len() {
        s@.subrange(dot + 1, s.len() as int)
    } else {
        Seq::<u8>::empty()
    };
    let start = if dot < s.len() {
        dot + 1
    } else {
        s.len()
    };
    let mut i: usize = start;
    while i < s.len()
        invariant
            start <= i <= s.len(),
            dot == find_byte(s@, DOT, 0),
            parse_decimal(s@.subrange(0, dot as int)) == Some(whole),
            fraction == if dot < s.len() {
                s@.subrange(dot + 1, s.len() as int)
            } else {
                Seq::<u8>::empty()
            },
            fraction =~= s@.subrange(start as int, s.len() as int),
            forall|j: int| 0 <= j < i - start ==> is_digit(#[trigger] fraction[j]),
        decreases s.len() - i,
    {
        if s[i] < 48 || s[i] > 57 {
            assert(fraction[i - start] == s@[i as int]);
            assert(!is_digit(fraction[i - start]));
            assert(!all_digits(fraction));
            return None;
        }
        i += 1;
    }
    if whole > (u64::MAX - 999) / 1000 {
        assert(whole * 1000 + 999 > u64::MAX);
        return None;
    }
    assert(whole * 1000 + 999 <= u64::MAX);
    let d0: u64 = if start < s.len() {
        (s[start] - 48) as u64
    } else {
        0
    };
    let d1: u64 = if start < s.len() && start + 1 < s.len() {
        (s[start + 1] - 48) as u64
    } else {
        0
    };
    let d2: u64 = if start < s.len() && start + 1 < s.len() && start + 2 < s.len() {
        (s[start + 2] - 48) as u64
    } else {
        0
    };
    proof {
        if start < s.len() {
            assert(is_digit(fraction[0]));
        }
        if start + 1 < s.len() {
            assert(is_digit(fraction[1]));
        }
        if start + 2 < s.len() {
            assert(is_digit(fraction[2]));
        }
    }
    Some(whole * 1000 + d0 * 100 + d1 * 10 + d2)
}

/// The time between two looks at a list for a connection that waits with a
/// time limit, in milliseconds.
pub const POLL_INTERVAL_MS: u64 = 50;

/// What `BLPOP` does for a time to wait.
pub enum Blocking {
    /// Reply at once.
    Reply(Vec<u8>),
    /// The connection waits on the list until a value is pushed.
    Waiting,
    /// Look at the list again and again until the given time.
    Poll { until_ms: u64 },
}

/// A time that lies `ms` milliseconds after `now_ms`, at the latest the
/// largest time.
pub open spec fn later(now_ms: u64, ms: u64) -> u64 {
    if now_ms + ms > u64::MAX {
        u64::MAX
    } else {
        (now_ms + ms) as u64
    }
}

/// What `BLPOP list seconds` does: with a time of zero, it takes the head
/// of a list that has values and replies with the list's name and the value,
/// or registers the connection `conn` as waiting on an empty list; with
/// another time, it asks for polling until that time has passed. The list is
/// made if it is not there.
pub open spec fn blpop_post(
    before: &ByteMap<RedisList>,
    after: &ByteMap<RedisList>,
    frame: Seq<Seq<u8>>,
    conn: u64,
    now_ms: u64,
    r: Blocking,
) -> bool {
    if frame.len() < 3 {
        r is Reply && r->Reply_0@ == arity_error(frame[0]) && *after == *before
    } else {
        match seconds_to_ms(frame[2]) {
            None => r is Reply && r->Reply_0@ == NOT_INT_ERROR.spec_bytes() && *after == *before,
            Some(ms) => {
                let key = frame[1];
                let list = list_or_empty(before, key);
                &&& after.differs_at(before, key)
                &&& after.value_of(key) is Some
                &&& if ms > 0 {
                    &&& r is Poll
                    &&& r->until_ms == later(now_ms, ms)
                    &&& after.value_of(key)->0@ == list
                } else if list.values.len() > 0 {
                    &&& r is Reply
                    &&& r->Reply_0@ == resp_array(seq![key, list.values[0]])
                    &&& after.value_of(key)->0@ == (ListModel {
                        values: list.values.skip(1),
                        ..list
                    })
                } else {
                    &&& r is Waiting
                    &&& after.value_of(key)->0@ == (ListModel {
                        blocking_pop_streams: list.blocking_pop_streams.push(conn),
                        ..list
                    })
                }
            },
        }
    }
}

/// `BLPOP list seconds`.
pub fn cmd_blpop(lists: &mut ByteMap<RedisList>, frame: &Vec<Vec<u8>>, conn: u64, now_ms: u64) -> (r:
    Blocking)
    requires
        frame@.len() >= 1,
    ensures
        blpop_post(old(lists), final(lists), views(frame@), conn, now_ms, r),
{
    if frame.len() < 3 {
        return Blocking::Reply(get_arity_error(frame[0].as_slice()));
    }
    let ms = match read_seconds(frame[2].as_slice()) {
        Some(ms) => ms,
        None => {
            return Blocking::Reply(text(NOT_INT_ERROR));
        },
    };
    let key = &frame[1];
    let ghost before = list_or_empty(lists, key@);
    let at = lists.index_or_insert(key.as_slice(), RedisList::new(clone_bytes(key)));
    let list = lists.value_at_mut(at);
    assert(list@.values =~= before.values);
    assert(list@.blocking_pop_streams =~= before.blocking_pop_streams);
    assert(list@ == before);
    if ms > 0 {
        let until_ms = if ms > u64::MAX - now_ms {
            u64::MAX
        } else {
            now_ms + ms
        };
        Blocking::Poll { until_ms }
    } else if list.values.len() > 0 {
        let head = list.values.remove(0);
        assert(views(list.values@) =~= before.values.skip(1));
        let mut pair: Vec<Vec<u8>> = Vec::new();
        pair.push(clone_bytes(key));
        pair.push(head);
        assert(views(pair@) =~= seq![key@, before.values[0]]);
        Blocking::Reply(format_resp_array(&pair))
    } else {
        list.blocking_pop_streams.push(conn);
        Blocking::Waiting
    }
}

/// One look at the list `key` for a connection that polls until
/// `until_ms`: once that time has passed the reply is the null bulk string;
/// before, the reply is the list's name and its head, which is taken, and
/// there is none yet for a list without values.
pub fn poll_blpop(lists: &mut ByteMap<RedisList>, key: &[u8], now_ms: u64, until_ms: u64) -> (r:
    Option<Vec<u8>>)
    ensures
        now_ms > until_ms ==> r is Some && r->0@ == RESP_NULL.spec_bytes() && *final(lists)
            == *old(lists),
        now_ms <= until_ms ==> match old(lists).value_of(key@) {
            Some(list) => if list@.values.len() > 0 {
                &&& r is Some
                &&& r->0@ == resp_array(seq![key@, list@.values[0]])
                &&& final(lists).differs_at(old(lists), key@)
                &&& final(lists).value_of(key@) is Some
                &&& final(lists).value_of(key@)->0@ == (ListModel {
                    values: list@.values.skip(1),
                    ..list@
                })
            } else {
                r is None && *final(lists) == *old(lists)
            },
            None => r is None && *final(lists) == *old(lists),
        },
{
    if now_ms > until_ms {
        return Some(text(RESP_NULL));
    }
    let at = match lists.find(key) {
        Some(at) => at,
        None => {
            return None;
        },
    };
    if lists.value_at(at).values.len() == 0 {
        return None;
    }
    let ghost before = lists.vals()[at as int]@;
    let list = lists.value_at_mut(at);
    let head = list.values.remove(0);
    assert(views(list.values@) =~= before.values.skip(1));
    assert(head@ == before.values[0]);
    let mut pair: Vec<Vec<u8>> = Vec::new();
    let name = crate::bytes::copy_range(key, 0, key.len());
    assert(name@ =~= key@);
    pair.push(name);
    pair.push(head);
    assert(views(pair@) =~= seq![key@, before.values[0]]);
    Some(format_resp_array(&pair))
}

} // verus!
