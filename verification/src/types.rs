//! The string store and the snapshot's data model.

use vstd::prelude::*;
use crate::byte_map::{has_key, position, assoc_get, assoc_keys, assoc_put, assoc_remove, ByteMap};

verus! {

/// When a string entry stops being visible, in time since the epoch.
#[derive(Debug, Clone, Copy, PartialEq, Eq)]
pub enum Expiration {
    /// A deadline in whole seconds.
    Seconds(u32),
    /// A deadline in milliseconds.
    Milliseconds(u64),
}

impl Expiration {
    /// The deadline in milliseconds since the epoch.
    pub open spec fn deadline_ms(&self) -> nat {
        match self {
            Expiration::Seconds(secs) => (*secs * 1000) as nat,
            Expiration::Milliseconds(ms) => *ms as nat,
        }
    }

    /// The deadline in whole seconds since the epoch, rounded down.
    pub fn as_seconds(&self) -> (r: u64)
        ensures
            r == self.deadline_ms() / 1000,
    {
        match self {
            Expiration::Seconds(secs) => *secs as u64,
            Expiration::Milliseconds(ms) => *ms / 1000,
        }
    }

    /// Whether the deadline has been reached at `now_ms` milliseconds since
    /// the epoch.
    pub fn is_expired(&self, now_ms: u64) -> (r: bool)
        ensures
            r == (self.deadline_ms() <= now_ms),
    {
        match self {
            Expiration::Seconds(secs) => (*secs as u64) * 1000 <= now_ms,
            Expiration::Milliseconds(ms) => *ms <= now_ms,
        }
    }

    /// Whether at most `threshold_ms` milliseconds are left until the
    /// deadline at `now_ms` milliseconds since the epoch. A deadline that has
    /// passed is expiring soon.
    pub fn is_expiring_soon(&self, threshold_ms: u64, now_ms: u64) -> (r: bool)
        ensures
            r == (self.deadline_ms() - now_ms <= threshold_ms),
    {
        let deadline: u64 = match self {
            Expiration::Seconds(secs) => (*secs as u64) * 1000,
            Expiration::Milliseconds(ms) => *ms,
        };
        if deadline <= now_ms {
            true
        } else {
            deadline - now_ms <= threshold_ms
        }
    }
}

/// A string value with its optional deadline.
#[derive(Debug, Clone, PartialEq, Eq)]
pub struct RedisValue {
    pub value: Vec<u8>,
    pub expires_at: Option<Expiration>,
}

/// What a `RedisValue` holds, as mathematical values.
pub struct ValueModel {
    pub value: Seq<u8>,
    pub expires_at: Option<Expiration>,
}

impl View for RedisValue {
    type V = ValueModel;

    open spec fn view(&self) -> ValueModel {
        ValueModel { value: self.value@, expires_at: self.expires_at }
    }
}

impl ValueModel {
    /// Whether the value may be shown to a reader at `now_ms`.
    pub open spec fn live_at(&self, now_ms: nat) -> bool {
        match self.expires_at {
            Some(e) => e.deadline_ms() > now_ms,
            None => true,
        }
    }
}

/// The entries of a string store, in the order of first insertion.
pub type Entries = Seq<(Seq<u8>, ValueModel)>;

/// The string store: keys bound to values, in the order of first insertion.
#[derive(Debug, PartialEq, Eq)]
pub struct RedisDatabase {
    pub data: ByteMap<RedisValue>,
}

impl View for RedisDatabase {
    type V = Entries;

    open spec fn view(&self) -> Entries {
        Seq::new(self.data.keys().len(), |i: int| (self.data.keys()[i], self.data.vals()[i]@))
    }
}

impl RedisDatabase {
    /// No key occurs twice. This holds of every store that executable code
    /// can hold.
    pub open spec fn wf(&self) -> bool {
        self.data.wf()
    }

    /// An empty store.
    pub fn new() -> (r: Self)
        ensures
            r@ == Seq::<(Seq<u8>, ValueModel)>::empty(),
            r.wf(),
    {
        let r = RedisDatabase { data: ByteMap::new() };
        assert(r@ =~= Seq::<(Seq<u8>, ValueModel)>::empty());
        r
    }

    /// The number of keys.
    pub fn len(&self) -> (r: usize)
        ensures
            r == self@.len(),
            self.wf(),
    {
        self.data.len()
    }

    /// Binds `key` to `value`, replacing the value that `key` had.
    pub fn insert(&mut self, key: Vec<u8>, value: RedisValue)
        ensures
            final(self)@ == assoc_put(old(self)@, key@, value@),
            final(self).wf(),
    {
        assert(assoc_keys(self@) =~= self.data.keys());
        self.data.insert(key, value);
        proof {
            match position(old(self).data.keys(), key@) {
                Some(i) => {
                    assert(has_key(old(self).data.keys(), key@));
                    assert(0 <= i < old(self).data.keys().len());
                    assert(old(self).data.keys()[i] == key@);
                    assert(self@ =~= old(self)@.update(i, (key@, value@)));
                },
                None => {
                    assert(self@ =~= old(self)@.push((key@, value@)));
                },
            }
        }
    }

    /// The value bound to `key`, whether or not its deadline has passed.
    pub fn get(&self, key: &[u8]) -> (r: Option<&RedisValue>)
        ensures
            match r {
                Some(v) => assoc_get(self@, key@) == Some(v@),
                None => assoc_get(self@, key@) is None,
            },
    {
        assert(assoc_keys(self@) =~= self.data.keys());
        match self.data.find(key) {
            Some(i) => Some(self.data.value_at(i)),
            None => None,
        }
    }

    /// Unbinds `key`. Returns whether it was bound.
    pub fn remove(&mut self, key: &[u8]) -> (r: bool)
        ensures
            r == assoc_get(old(self)@, key@).is_some(),
            final(self)@ == assoc_remove(old(self)@, key@),
            final(self).wf(),
    {
        assert(assoc_keys(self@) =~= self.data.keys());
        match self.data.find(key) {
            Some(i) => {
                let _ = self.data.remove_at(i);
                assert(self@ =~= old(self)@.remove(i as int));
                true
            },
            None => false,
        }
    }
}

/// A snapshot: its version, its metadata and its numbered databases. No
/// two databases have the same index.
#[derive(Debug, PartialEq, Eq)]
pub struct RdbFile {
    pub(crate) version: Vec<u8>,
    pub(crate) metadata: ByteMap<Vec<u8>>,
    pub(crate) databases: Vec<(u8, RedisDatabase)>,
}

} // verus!
