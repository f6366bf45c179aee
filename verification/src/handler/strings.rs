//! The commands on the string store.

use vstd::prelude::*;
use vstd::string::StringSliceAdditionalSpecFns;
use crate::byte_map::{assoc_get, assoc_keys, assoc_put, assoc_remove, has_key, position};
use crate::bytes::{clone_bytes, decimal, parse_i64, parse_signed, push_signed_decimal,
    signed_decimal, text, views};
use crate::constants::{NOT_INT_ERROR, RESP_NULL, RESP_OK};

use crate::handler::command_handlers::{deadline, handle_set, read_deadline, ExpiryFault};
use crate::handler::replies::{arity_error, get_arity_error, SYNTAX_ERROR};
use crate::types::{Entries, RedisDatabase, RedisValue, ValueModel};
use crate::utils::{bulk_string, get_bulk_string, get_redis_count, get_redis_int, integer_reply};

verus! {

/// The store after the first access that observes the expiry of `key`: an
/// entry whose deadline has passed is gone.
pub open spec fn evicted(db: Entries, key: Seq<u8>, now_ms: u64) -> Entries {
    match assoc_get(db, key) {
        Some(v) => if v.live_at(now_ms as nat) {
            db
        } else {
            assoc_remove(db, key)
        },
        None => db,
    }
}

/// The value that a reader of `key` sees at `now_ms`: the value bound to
/// the key, unless its deadline has passed.
pub open spec fn live_value(db: Entries, key: Seq<u8>, now_ms: u64) -> Option<ValueModel> {
    match assoc_get(db, key) {
        Some(v) => if v.live_at(now_ms as nat) {
            Some(v)
        } else {
            None
        },
        None => None,
    }
}

/// The reply to a read of `key`: the value as a bulk string, or the null
/// bulk string where the reader sees none.
pub open spec fn get_reply(db: Entries, key: Seq<u8>, now_ms: u64) -> Seq<u8> {
    match live_value(db, key, now_ms) {
        Some(v) => bulk_string(v.value),
        None => RESP_NULL.spec_bytes(),
    }
}

/// A value that a read reports has no deadline or one that lies ahead.
pub proof fn lemma_reported_value_is_live(db: Entries, key: Seq<u8>, now_ms: u64)
    ensures
        match live_value(db, key, now_ms) {
            Some(v) => assoc_get(db, key) == Some(v) && match v.expires_at {
                Some(e) => e.deadline_ms() > now_ms,
                None => true,
            },
            None => true,
        },
{
}

/// Removes `key` from `db` if its deadline has passed at `now_ms`. Returns
/// a copy of the value that a reader sees.
pub fn observe(db: &mut RedisDatabase, key: &[u8], now_ms: u64) -> (r: Option<RedisValue>)
    ensures
        final(db)@ == evicted(old(db)@, key@, now_ms),
        match r {
            Some(v) => live_value(old(db)@, key@, now_ms) == Some(v@),
            None => live_value(old(db)@, key@, now_ms) is None,
        },
{
    let seen: Option<RedisValue> = match db.get(key) {
        Some(v) => {
            let expired = match v.expires_at {
                Some(e) => e.is_expired(now_ms),
                None => false,
            };
            if expired {
                None
            } else {
                Some(RedisValue { value: clone_bytes(&v.value), expires_at: v.expires_at })
            }
        },
        None => {
            return None;
        },
    };
    if seen.is_none() {
        db.remove(key);
    }
    seen
}

/// What `GET key` does: the reply is the value that a reader sees, and
/// the store is the one after the first access that observes the key's
/// expiry. Fewer than two elements give the null bulk string.
pub open spec fn get_post(
    before: Entries,
    after: Entries,
    frame: Seq<Seq<u8>>,
    now_ms: u64,
    r: Seq<u8>,
) -> bool {
    if frame.len() < 2 {
        r == RESP_NULL.spec_bytes() && after == before
    } else {
        r == get_reply(before, frame[1], now_ms) && after == evicted(before, frame[1], now_ms)
    }
}

/// `GET key`.
pub fn cmd_get(db: &mut RedisDatabase, frame: &Vec<Vec<u8>>, now_ms: u64) -> (r: Vec<u8>)
    requires
        frame@.len() >= 1,
    ensures
        get_post(old(db)@, final(db)@, views(frame@), now_ms, r@),
{
    if frame.len() < 2 {
        return text(RESP_NULL);
    }
    match observe(db, frame[1].as_slice(), now_ms) {
        Some(v) => get_bulk_string(v.value.as_slice()),
        None => text(RESP_NULL),
    }
}

/// The store after the keys `keys[from..]` were removed.
pub open spec fn without_keys(db: Entries, keys: Seq<Seq<u8>>, from: int) -> Entries
    decreases keys.len() - from,
{
    if from < 0 || from >= keys.len() {
        db
    } else {
        without_keys(assoc_remove(db, keys[from]), keys, from + 1)
    }
}

/// How many of the keys `keys[from..]` are removed, each counted when its
/// turn comes.
pub open spec fn removed_count(db: Entries, keys: Seq<Seq<u8>>, from: int) -> nat
    decreases keys.len() - from,
{
    if from < 0 || from >= keys.len() {
        0
    } else {
        removed_count(assoc_remove(db, keys[from]), keys, from + 1) + if assoc_get(
            db,
            keys[from],
        ) is Some {
            1nat
        } else {
            0nat
        }
    }
}

/// What `DEL key+` does: the keys are removed, and the reply is the
/// number of keys that were bound.
pub open spec fn del_post(before: Entries, after: Entries, frame: Seq<Seq<u8>>, r: Seq<u8>) -> bool {
    if frame.len() < 2 {
        r == arity_error(frame[0]) && after == before
    } else {
        r == integer_reply(removed_count(before, frame, 1) as int) && after == without_keys(
            before,
            frame,
            1,
        )
    }
}

/// `DEL key+`.
pub fn cmd_del(db: &mut RedisDatabase, frame: &Vec<Vec<u8>>) -> (r: Vec<u8>)
    requires
        frame@.len() >= 1,
    ensures
        del_post(old(db)@, final(db)@, views(frame@), r@),
{
    if frame.len() < 2 {
        return get_arity_error(frame[0].as_slice());
    }
    let mut count: usize = 0;
    let mut i: usize = 1;
    let ghost keys = views(frame@);
    while i < frame.len()
        invariant
            1 <= i <= frame.len(),
            keys == views(frame@),
            count <= i,
            without_keys(old(db)@, keys, 1) == without_keys(db@, keys, i as int),
            removed_count(old(db)@, keys, 1) == removed_count(db@, keys, i as int) + count,
        decreases frame.len() - i,
    {
        if db.remove(frame[i].as_slice()) {
            count += 1;
        }
        i += 1;
    }
    get_redis_count(count)
}

/// What `INCR key` does to the store and replies at `now_ms`: a key that a
/// reader does not see becomes `1`; a value that is the decimal text of a
/// 32-bit integer below the largest is raised by one and keeps its deadline;
/// any other value stays, and the reply is an error.
pub open spec fn incr_outcome(db: Entries, key: Seq<u8>, now_ms: u64) -> (Entries, Seq<u8>) {
    let base = evicted(db, key, now_ms);
    match assoc_get(base, key) {
        None => (
            assoc_put(base, key, ValueModel { value: decimal(1), expires_at: None }),
            integer_reply(1),
        ),
        Some(v) => match parse_signed(v.value) {
            Some(n) => if -0x8000_0000 <= n < 0x7FFF_FFFF {
                (
                    assoc_put(
                        base,
                        key,
                        ValueModel { value: signed_decimal(n + 1), expires_at: v.expires_at },
                    ),
                    integer_reply(n + 1),
                )
            } else {
                (base, NOT_INT_ERROR.spec_bytes())
            },
            None => (base, NOT_INT_ERROR.spec_bytes()),
        },
    }
}

/// What `INCR key` does.
pub open spec fn incr_post(
    before: Entries,
    after: Entries,
    frame: Seq<Seq<u8>>,
    now_ms: u64,
    r: Seq<u8>,
) -> bool {
    if frame.len() < 2 {
        r == arity_error(frame[0]) && after == before
    } else {
        (after, r) == incr_outcome(before, frame[1], now_ms)
    }
}

/// `INCR key`.
pub fn cmd_incr(db: &mut RedisDatabase, frame: &Vec<Vec<u8>>, now_ms: u64) -> (r: Vec<u8>)
    requires
        frame@.len() >= 1,
    ensures
        incr_post(old(db)@, final(db)@, views(frame@), now_ms, r@),
{
    if frame.len() < 2 {
        return get_arity_error(frame[0].as_slice());
    }
    let key = &frame[1];
    let ghost base = evicted(db@, key@, now_ms);
    let _ = db.len();
    assert(assoc_keys(db@) =~= db.data.keys());
    match observe(db, key.as_slice(), now_ms) {
        None => {
            assert(assoc_get(base, key@) is None) by {
                lemma_removed_is_gone(old(db)@, key@);
            }
            let mut one: Vec<u8> = Vec::new();
            one.push(49);
            assert(one@ =~= decimal(1));
            db.insert(clone_bytes(key), RedisValue { value: one, expires_at: None });
            get_redis_int(1)
        },
        Some(v) => {
            match parse_i64(v.value.as_slice()) {
                Some(n) => {
                    if n >= -0x8000_0000 && n < 0x7FFF_FFFF {
                        let mut shown: Vec<u8> = Vec::new();
                        push_signed_decimal(&mut shown, n + 1);
                        assert(shown@ =~= signed_decimal(n + 1));
                        db.insert(
                            clone_bytes(key),
                            RedisValue { value: shown, expires_at: v.expires_at },
                        );
                        get_redis_int((n + 1) as i32)
                    } else {
                        text(NOT_INT_ERROR)
                    }
                },
                None => text(NOT_INT_ERROR),
            }
        },
    }
}

/// A key that was removed is bound to nothing.
pub proof fn lemma_removed_is_gone(db: Entries, key: Seq<u8>)
    requires
        crate::byte_map::distinct(assoc_keys(db)),
    ensures
        assoc_get(assoc_remove(db, key), key) is None,
{
    let keys = assoc_keys(db);
    match position(keys, key) {
        Some(i) => {
            let fewer = assoc_keys(db.remove(i));
            assert(fewer =~= keys.remove(i));
            if has_key(fewer, key) {
                let j = choose|j: int| 0 <= j < fewer.len() && fewer[j] == key;
                let j0 = if j < i {
                    j
                } else {
                    j + 1
                };
                assert(keys[j0] == key);
                assert(has_key(keys, key));
                assert(keys[i] == key);
                if j0 < i {
                    assert(keys[j0] != keys[i]);
                } else {
                    assert(keys[i] != keys[j0]);
                }
            }
        },
        None => {},
    }
}

/// The reply to `SET` and what it does to the store at `now_ms`: fewer
/// than three elements give the null bulk string; a time to live is read
/// from the fourth and fifth element where the frame has more than four;
/// a time to live that cannot be read gives an error and leaves the store
/// alone. `quiet` says that the command came from this replica's primary,
/// which gets no reply.
pub open spec fn set_outcome(db: Entries, frame: Seq<Seq<u8>>, now_ms: u64, quiet: bool) -> (
    Entries,
    Seq<u8>,
) {
    if frame.len() < 3 {
        (db, RESP_NULL.spec_bytes())
    } else {
        match deadline(
            if frame.len() > 4 {
                Some((frame[3], frame[4]))
            } else {
                None
            },
            now_ms,
        ) {
            Ok(expires_at) => (
                assoc_put(db, frame[1], ValueModel { value: frame[2], expires_at }),
                if quiet {
                    Seq::empty()
                } else {
                    RESP_OK.spec_bytes()
                },
            ),
            Err(ExpiryFault::UnknownOption) => (db, SYNTAX_ERROR.spec_bytes()),
            Err(ExpiryFault::InvalidTime) => (db, NOT_INT_ERROR.spec_bytes()),
        }
    }
}

/// `SET key value [EX seconds|PX ms]`, without the fan-out to replicas.
pub fn cmd_set(db: &mut RedisDatabase, frame: &Vec<Vec<u8>>, now_ms: u64, quiet: bool) -> (r: Vec<
    u8,
>)
    ensures
        (final(db)@, r@) == set_outcome(old(db)@, views(frame@), now_ms, quiet),
{
    if frame.len() < 3 {
        return text(RESP_NULL);
    }
    let expiry_info: Option<(&[u8], &[u8])> = if frame.len() > 4 {
        Some((frame[3].as_slice(), frame[4].as_slice()))
    } else {
        None
    };
    match handle_set(clone_bytes(&frame[1]), clone_bytes(&frame[2]), db, expiry_info, now_ms) {
        Ok(_) => {
            if quiet {
                Vec::new()
            } else {
                text(RESP_OK)
            }
        },
        Err(_) => match read_deadline(expiry_info, now_ms) {
            Err(ExpiryFault::UnknownOption) => text(SYNTAX_ERROR),
            _ => text(NOT_INT_ERROR),
        },
    }
}

/// A write without a time to live binds its key to its value, with no
/// deadline, whatever the store held before and whoever sent it.
pub proof fn lemma_write_binds(db: Entries, frame: Seq<Seq<u8>>, now_ms: u64, quiet: bool)
    requires
        frame.len() == 3,
        crate::byte_map::distinct(assoc_keys(db)),
    ensures
        assoc_get(set_outcome(db, frame, now_ms, quiet).0, frame[1]) == Some(
            ValueModel { value: frame[2], expires_at: None },
        ),
{
    crate::byte_map::lemma_assoc_put_distinct(
        db,
        frame[1],
        ValueModel { value: frame[2], expires_at: None },
    );
}

/// What a primary sends to its replicas for a write is read by the replica
/// as the frame of that write, and executing that frame binds the key to the
/// value in the replica's store.
pub proof fn lemma_fanned_out_write_binds(
    replica: Entries,
    frame: Seq<Seq<u8>>,
    now_ms: u64,
    offset: nat,
)
    requires
        frame.len() == 3,
        forall|i: int| 0 <= i < frame.len() ==> (#[trigger] frame[i]).len() <= u64::MAX,
        crate::byte_map::distinct(assoc_keys(replica)),
    ensures
        crate::resp_parser::parse_all(crate::utils::resp_array(frame), 0, offset, Seq::empty())
            == (crate::resp_parser::Parsed {
            frames: seq![frame],
            position: crate::utils::resp_array(frame).len() as int,
            offset,
        }),
        assoc_get(set_outcome(replica, frame, now_ms, true).0, frame[1]) == Some(
            ValueModel { value: frame[2], expires_at: None },
        ),
{
    crate::resp_parser::lemma_parse_encoded_frame(frame, offset);
    lemma_write_binds(replica, frame, now_ms, true);
}

} // verus!
