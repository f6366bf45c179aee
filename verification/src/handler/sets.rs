//! The commands on sorted sets.

use vstd::prelude::*;
use vstd::string::StringSliceAdditionalSpecFns;
use crate::byte_map::ByteMap;
use crate::bytes::{parse_i64, parse_signed, text, views};
use crate::constants::{NOT_INT_ERROR, RESP_NULL};
use crate::handler::replies::{arity_error, get_arity_error, NOT_FLOAT_ERROR};
use crate::redis_sorted_set::{names, range_reply, rank_of, with, without, RedisSortedSet,
    ScoreModel};
use crate::utils::{format_resp_array, get_redis_count, integer_reply};

verus! {

/// The members of the set under `key`, in order; none where there is no
/// such set.
pub open spec fn members_or_none(sets: &ByteMap<RedisSortedSet>, key: Seq<u8>) -> Seq<ScoreModel> {
    match sets.value_of(key) {
        Some(set) => set@.collection,
        None => Seq::empty(),
    }
}

/// What `ZADD set score member` does: the member gets the score, in the
/// set under the given name, which is made if it is not there. `score` is
/// the integer that stands for the score in the order of scores, or `None`
/// where the score of the frame is no number. The reply is `1` for a new
/// member and `0` for one that the set held already.
pub open spec fn zadd_post(
    before: &ByteMap<RedisSortedSet>,
    after: &ByteMap<RedisSortedSet>,
    frame: Seq<Seq<u8>>,
    score: Option<u64>,
    r: Seq<u8>,
) -> bool {
    if frame.len() < 4 {
        r == arity_error(frame[0]) && *after == *before
    } else if score is None {
        r == NOT_FLOAT_ERROR.spec_bytes() && *after == *before
    } else {
        let members = members_or_none(before, frame[1]);
        let member = frame[3];
        &&& r == integer_reply(
            if rank_of(members, member) is None {
                1int
            } else {
                0int
            },
        )
        &&& after.differs_at(before, frame[1])
        &&& after.value_of(frame[1]) is Some
        &&& after.value_of(frame[1])->0@.collection == with(
            without(members, member),
            ScoreModel { score: score->0, name: member },
        )
        &&& after.value_of(frame[1])->0@.wf()
    }
}

/// `ZADD set score member`.
pub fn cmd_zadd(sets: &mut ByteMap<RedisSortedSet>, frame: &Vec<Vec<u8>>, score: Option<u64>) -> (r:
    Vec<u8>)
    requires
        frame@.len() >= 1,
    ensures
        zadd_post(old(sets), final(sets), views(frame@), score, r@),
{
    if frame.len() < 4 {
        return get_arity_error(frame[0].as_slice());
    }
    let score = match score {
        Some(s) => s,
        None => {
            return text(NOT_FLOAT_ERROR);
        },
    };
    let at = sets.index_or_insert(frame[1].as_slice(), RedisSortedSet::new());
    let set = sets.value_at_mut(at);
    if set.insert(score, frame[3].as_slice()) {
        get_redis_count(1)
    } else {
        get_redis_count(0)
    }
}

/// The reply to `ZRANK`: the rank of the member, or the null bulk string
/// where the set is not there or does not hold the member.
pub open spec fn zrank_reply(sets: &ByteMap<RedisSortedSet>, frame: Seq<Seq<u8>>) -> Seq<u8> {
    if frame.len() < 3 {
        arity_error(frame[0])
    } else {
        match rank_of(members_or_none(sets, frame[1]), frame[2]) {
            Some(i) => integer_reply(i),
            None => RESP_NULL.spec_bytes(),
        }
    }
}

/// `ZRANK set member`.
pub fn cmd_zrank(sets: &ByteMap<RedisSortedSet>, frame: &Vec<Vec<u8>>) -> (r: Vec<u8>)
    requires
        frame@.len() >= 1,
    ensures
        r@ == zrank_reply(sets, views(frame@)),
{
    if frame.len() < 3 {
        return get_arity_error(frame[0].as_slice());
    }
    match sets.find(frame[1].as_slice()) {
        Some(at) => match sets.value_at(at).rank(frame[2].as_slice()) {
            Some(rank) => get_redis_count(rank),
            None => text(RESP_NULL),
        },
        None => text(RESP_NULL),
    }
}

/// The reply to `ZRANGE`: the names of the members with ranks from `start`
/// to `end`, both included; the empty array for a set that is not there; an
/// error for a rank that is no integer.
pub open spec fn zrange_reply(sets: &ByteMap<RedisSortedSet>, frame: Seq<Seq<u8>>) -> Seq<u8> {
    if frame.len() < 4 {
        arity_error(frame[0])
    } else {
        match (parse_signed(frame[2]), parse_signed(frame[3])) {
            (Some(start), Some(end)) => range_reply(
                names(members_or_none(sets, frame[1])),
                start as int,
                end as int,
            ),
            _ => NOT_INT_ERROR.spec_bytes(),
        }
    }
}

/// `ZRANGE set start end`.
pub fn cmd_zrange(sets: &ByteMap<RedisSortedSet>, frame: &Vec<Vec<u8>>) -> (r: Vec<u8>)
    requires
        frame@.len() >= 1,
    ensures
        r@ == zrange_reply(sets, views(frame@)),
{
    if frame.len() < 4 {
        return get_arity_error(frame[0].as_slice());
    }
    let start = match parse_i64(frame[2].as_slice()) {
        Some(n) => n,
        None => {
            return text(NOT_INT_ERROR);
        },
    };
    let end = match parse_i64(frame[3].as_slice()) {
        Some(n) => n,
        None => {
            return text(NOT_INT_ERROR);
        },
    };
    match sets.find(frame[1].as_slice()) {
        Some(at) => sets.value_at(at).range_resp_array(start, end),
        None => {
            assert(names(Seq::<ScoreModel>::empty()) =~= Seq::<Seq<u8>>::empty());
            format_resp_array(&Vec::new())
        },
    }
}

/// `ZCARD set`: the number of members; zero for a set that is not there.
pub fn cmd_zcard(sets: &ByteMap<RedisSortedSet>, frame: &Vec<Vec<u8>>) -> (r: Vec<u8>)
    requires
        frame@.len() >= 1,
    ensures
        r@ == if frame@.len() < 2 {
            arity_error(frame@[0]@)
        } else {
            integer_reply(members_or_none(sets, frame@[1]@).len() as int)
        },
{
    if frame.len() < 2 {
        return get_arity_error(frame[0].as_slice());
    }
    match sets.find(frame[1].as_slice()) {
        Some(at) => get_redis_count(sets.value_at(at).len()),
        None => get_redis_count(0),
    }
}

} // verus!
