//! The write of a string with an optional time to live.

use vstd::prelude::*;
use vstd::string::StringSliceAdditionalSpecFns;
use crate::byte_map::assoc_put;
use crate::bytes::{is_text, lower, parse_decimal, parse_u64, to_lower};
use crate::error::RdbError;
use crate::types::{Expiration, RedisDatabase, RedisValue, ValueModel};

verus! {

/// What is wrong with the time to live of a write.
pub const WRONG_SET_ARGUMENTS: &'static str = "WRONG SET ARGUMENTS";

/// What is wrong with a time that is no number or too large.
pub const INVALID_EXPIRE_TIME: &'static str = "INVALID EXPIRE TIME";

/// Why a time to live cannot be used.
pub enum ExpiryFault {
    /// The option is neither `PX` nor `EX`.
    UnknownOption,
    /// The time is no number, or the deadline is too large to hold.
    InvalidTime,
}

/// The deadline that a time to live sets at `now_ms` milliseconds since
/// the epoch: `PX` counts in milliseconds from now, `EX` in seconds from
/// the current second; both options are read without regard to case.
pub open spec fn deadline(expiry_info: Option<(Seq<u8>, Seq<u8>)>, now_ms: u64) -> Result<
    Option<Expiration>,
    ExpiryFault,
> {
    match expiry_info {
        None => Ok(None),
        Some((option, time)) => if lower(option) == "px".spec_bytes() {
            match parse_decimal(time) {
                Some(delta) if now_ms + delta <= u64::MAX => Ok(
                    Some(Expiration::Milliseconds((now_ms + delta) as u64)),
                ),
                _ => Err(ExpiryFault::InvalidTime),
            }
        } else if lower(option) == "ex".spec_bytes() {
            match parse_decimal(time) {
                Some(delta) if now_ms / 1000 + delta <= u32::MAX => Ok(
                    Some(Expiration::Seconds((now_ms / 1000 + delta) as u32)),
                ),
                _ => Err(ExpiryFault::InvalidTime),
            }
        } else {
            Err(ExpiryFault::UnknownOption)
        },
    }
}

/// The deadline that a time to live sets.
pub fn read_deadline(expiry_info: Option<(&[u8], &[u8])>, now_ms: u64) -> (r: Result<
    Option<Expiration>,
    ExpiryFault,
>)
    ensures
        r == deadline(
            match expiry_info {
                Some((option, time)) => Some((option@, time@)),
                None => None,
            },
            now_ms,
        ),
{
    match expiry_info {
        None => Ok(None),
        Some((option, time)) => {
            let folded = to_lower(option);
            if is_text(folded.as_slice(), "px") {
                match parse_u64(time) {
                    Some(delta) => {
                        if delta > u64::MAX - now_ms {
                            Err(ExpiryFault::InvalidTime)
                        } else {
                            Ok(Some(Expiration::Milliseconds(now_ms + delta)))
                        }
                    },
                    None => Err(ExpiryFault::InvalidTime),
                }
            } else if is_text(folded.as_slice(), "ex") {
                match parse_u64(time) {
                    Some(delta) => {
                        let now_s = now_ms / 1000;
                        if delta > 0xFFFF_FFFF || now_s > 0xFFFF_FFFF - delta {
                            Err(ExpiryFault::InvalidTime)
                        } else {
                            Ok(Some(Expiration::Seconds((now_s + delta) as u32)))
                        }
                    },
                    None => Err(ExpiryFault::InvalidTime),
                }
            } else {
                Err(ExpiryFault::UnknownOption)
            }
        },
    }
}

/// Binds `k` to `v` in `new_db`, with the deadline that `expiry_info` sets
/// at `now_ms` milliseconds since the epoch. Where the time to live cannot
/// be used nothing is bound, and the error says whether the option or the
/// time is at fault.
pub fn handle_set(
    k: Vec<u8>,
    v: Vec<u8>,
    new_db: &mut RedisDatabase,
    expiry_info: Option<(&[u8], &[u8])>,
    now_ms: u64,
) -> (r: Result<(), RdbError>)
    ensures
        match (
            deadline(
                match expiry_info {
                    Some((option, time)) => Some((option@, time@)),
                    None => None,
                },
                now_ms,
            ),
            r,
        ) {
            (Ok(expires_at), Ok(_)) => final(new_db)@ == assoc_put(
                old(new_db)@,
                k@,
                ValueModel { value: v@, expires_at },
            ),
            (Err(ExpiryFault::UnknownOption), Err(RdbError::UnsupportedFeature(why))) => why@
                == WRONG_SET_ARGUMENTS@ && final(new_db)@ == old(new_db)@,
            (Err(ExpiryFault::InvalidTime), Err(RdbError::UnsupportedFeature(why))) => why@
                == INVALID_EXPIRE_TIME@ && final(new_db)@ == old(new_db)@,
            _ => false,
        },
{
    match read_deadline(expiry_info, now_ms) {
        Ok(expires_at) => {
            new_db.insert(k, RedisValue { value: v, expires_at });
            Ok(())
        },
        Err(ExpiryFault::UnknownOption) => Err(RdbError::UnsupportedFeature(WRONG_SET_ARGUMENTS)),
        Err(ExpiryFault::InvalidTime) => Err(RdbError::UnsupportedFeature(INVALID_EXPIRE_TIME)),
    }
}

/// A write with `PX 100` at a time `now_ms` gets the deadline `now_ms + 100`
/// milliseconds, for every time at which that deadline can be held.
pub proof fn lemma_px_hundred(now_ms: u64)
    requires
        now_ms + 100 <= u64::MAX,
    ensures
        deadline(Some(("PX".spec_bytes(), "100".spec_bytes())), now_ms) == Ok::<_, ExpiryFault>(
            Some(Expiration::Milliseconds((now_ms + 100) as u64)),
        ),
{
    reveal_strlit("PX");
    reveal_strlit("px");
    reveal_strlit("100");
    vstd::string::is_ascii_spec_bytes("PX");
    vstd::string::is_ascii_spec_bytes("px");
    vstd::string::is_ascii_spec_bytes("100");
    let time = "100".spec_bytes();
    assert(lower("PX".spec_bytes()) =~= "px".spec_bytes());
    assert(time =~= seq![49u8, 48u8, 48u8]);
    reveal_with_fuel(crate::bytes::digits_value, 4);
    assert(time.drop_last() =~= seq![49u8, 48u8]);
    assert(time.drop_last().drop_last() =~= seq![49u8]);
    assert(time.drop_last().drop_last().drop_last() =~= Seq::<u8>::empty());
    assert(crate::bytes::digits_value(time) == 100);
    assert(crate::bytes::is_digits(time));
}

} // verus!
