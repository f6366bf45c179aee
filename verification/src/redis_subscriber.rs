//! Publish/subscribe: channels and their subscribers.

use vstd::prelude::*;

verus! {

/// The index of the first occurrence of `conn` in `s` at or after `from`,
/// or `s.len()` when there is none.
pub open spec fn first_index(s: Seq<u64>, conn: u64, from: int) -> int
    decreases s.len() - from,
{
    if from < 0 || from >= s.len() {
        s.len() as int
    } else if s[from] == conn {
        from
    } else {
        first_index(s, conn, from + 1)
    }
}

/// The connections of `s` without `conn`, in order.
pub open spec fn without_conn(s: Seq<u64>, conn: u64) -> Seq<u64>
    decreases s.len(),
{
    if s.len() == 0 {
        Seq::<u64>::empty()
    } else if s.last() == conn {
        without_conn(s.drop_last(), conn)
    } else {
        without_conn(s.drop_last(), conn).push(s.last())
    }
}

/// Whether `conn` is among the connections of `v`.
pub fn holds_conn(v: &Vec<u64>, conn: u64) -> (r: bool)
    ensures
        r == v@.contains(conn),
{
    let mut i: usize = 0;
    while i < v.len()
        invariant
            i <= v.len(),
            forall|j: int| 0 <= j < i ==> v@[j] != conn,
        decreases v.len() - i,
    {
        if v[i] == conn {
            return true;
        }
        i += 1;
    }
    false
}

/// Takes every occurrence of `conn` out of `v`.
pub fn remove_conn(v: &mut Vec<u64>, conn: u64)
    ensures
        final(v)@ == without_conn(old(v)@, conn),
{
    let mut kept: Vec<u64> = Vec::new();
    let mut i: usize = 0;
    let ghost all = v@;
    assert(all.subrange(0, 0) =~= Seq::<u64>::empty());
    while i < v.len()
        invariant
            i <= v.len(),
            v@ == all,
            kept@ == without_conn(all.subrange(0, i as int), conn),
        decreases v.len() - i,
    {
        proof {
            let grown = all.subrange(0, i + 1);
            assert(grown.drop_last() =~= all.subrange(0, i as int));
            assert(grown.last() == all[i as int]);
        }
        if v[i] != conn {
            kept.push(v[i]);
        }
        i += 1;
    }
    assert(all.subrange(0, i as int) =~= all);
    *v = kept;
}

/// A channel with the connections that are subscribed to it.
#[derive(Debug)]
pub struct Channel {
    /// The channel's name.
    pub name: Vec<u8>,
    /// The subscribed connections, in the order in which they subscribed.
    pub subscribers: Vec<u64>,
}

impl Channel {
    /// A channel with the given name and no subscribers.
    pub fn new(name: &Vec<u8>) -> (r: Self)
        ensures
            r.name@ == name@,
            r.subscribers@.len() == 0,
    {
        Channel { name: crate::bytes::clone_bytes(name), subscribers: Vec::new() }
    }

    /// The position of the connection `conn` among the subscribers.
    pub fn position_of(&self, conn: u64) -> (r: Option<usize>)
        ensures
            match r {
                Some(i) => i < self.subscribers@.len() && self.subscribers@[i as int] == conn
                    && i == first_index(self.subscribers@, conn, 0) && self.subscribers@.contains(
                    conn,
                ),
                None => !self.subscribers@.contains(conn),
            },
    {
        let mut i: usize = 0;
        while i < self.subscribers.len()
            invariant
                i <= self.subscribers.len(),
                forall|j: int| 0 <= j < i ==> self.subscribers@[j] != conn,
                first_index(self.subscribers@, conn, 0) == first_index(
                    self.subscribers@,
                    conn,
                    i as int,
                ),
            decreases self.subscribers.len() - i,
        {
            if self.subscribers[i] == conn {
                return Some(i);
            }
            i += 1;
        }
        None
    }
}

/// A subscriber: who it is and to how many channels it is subscribed.
#[derive(Debug, Clone)]
pub struct Subscriber {
    pub sub_id: Vec<u8>,
    pub channel_count: usize,
}

impl Subscriber {
    /// A subscriber that is known by `port` and subscribed to nothing.
    pub fn new(port: Vec<u8>) -> (r: Self)
        ensures
            r.sub_id@ == port@,
            r.channel_count == 0,
    {
        Subscriber { sub_id: port, channel_count: 0 }
    }
}

} // verus!
