//! The replication fan-out: the replicas of a primary, and the bookkeeping
//! of a pending wait for their acknowledgements.

use vstd::prelude::*;
use crate::bytes::views;
use crate::utils::{format_resp_array, message_views, resp_array};

verus! {

/// The replicas of a primary and the state of a pending wait.
#[derive(Debug)]
pub struct BroadCastInfo {
    /// The connections of the replicas, in the order in which they joined.
    pub connections: Vec<u64>,
    /// The number that the next connection will be told.
    pub next_id: usize,
    /// The ports on which the replicas listen, in the order announced.
    pub ports: Vec<Vec<u8>>,
    /// How many acknowledgements the pending wait asks for; zero when no
    /// wait is pending.
    pub num_waiting_for: usize,
    /// When the pending wait gives up, in milliseconds since the epoch.
    pub waiting_until: u64,
    /// How many acknowledgements have arrived for the pending wait.
    pub num_acks: usize,
}

/// The same bytes for each of the given connections, in order.
pub open spec fn fan_out(connections: Seq<u64>, bytes: Seq<u8>) -> Seq<(u64, Seq<u8>)> {
    Seq::new(connections.len(), |i: int| (connections[i], bytes))
}

impl BroadCastInfo {
    /// No replicas and no pending wait; `now_ms` is the time in milliseconds
    /// since the epoch.
    pub fn new(now_ms: u64) -> (r: Self)
        ensures
            r.connections@.len() == 0,
            r.next_id == 0,
            r.ports@.len() == 0,
            r.num_waiting_for == 0,
            r.num_acks == 0,
            r.waiting_until == now_ms,
    {
        BroadCastInfo {
            connections: Vec::new(),
            next_id: 0,
            ports: Vec::new(),
            num_waiting_for: 0,
            num_acks: 0,
            waiting_until: now_ms,
        }
    }

    /// Adds the connection `stream` as a replica and returns the number it
    /// is told: the count of connections added before, which stops at
    /// `usize::MAX`.
    pub fn add_connection(&mut self, stream: u64) -> (id: usize)
        ensures
            id == old(self).next_id,
            final(self).connections@ == old(self).connections@.push(stream),
            final(self).next_id == if old(self).next_id == usize::MAX {
                usize::MAX
            } else {
                (old(self).next_id + 1) as usize
            },
            final(self).ports == old(self).ports,
            final(self).num_waiting_for == old(self).num_waiting_for,
            final(self).waiting_until == old(self).waiting_until,
            final(self).num_acks == old(self).num_acks,
    {
        let id = self.next_id;
        self.connections.push(stream);
        if self.next_id < usize::MAX {
            self.next_id = self.next_id + 1;
        }
        id
    }

    /// The bytes to send to every replica so that it applies `command`: the
    /// command's frame, once for each replica, in the order in which they
    /// joined.
    pub fn broadcast_command(&self, command: &Vec<Vec<u8>>) -> (r: Vec<(u64, Vec<u8>)>)
        ensures
            message_views(r@) == fan_out(self.connections@, resp_array(views(command@))),
    {
        let bytes = format_resp_array(command);
        self.broadcast_bytes(&bytes)
    }

    /// The given bytes, once for each replica.
    pub fn broadcast_bytes(&self, bytes: &Vec<u8>) -> (r: Vec<(u64, Vec<u8>)>)
        ensures
            message_views(r@) == fan_out(self.connections@, bytes@),
    {
        let mut out: Vec<(u64, Vec<u8>)> = Vec::new();
        let mut i: usize = 0;
        while i < self.connections.len()
            invariant
                i <= self.connections.len(),
                out.len() == i,
                forall|j: int|
                    0 <= j < i ==> (#[trigger] out@[j]).0 == self.connections@[j] && out@[j].1@
                        == bytes@,
            decreases self.connections.len() - i,
        {
            let copy = crate::bytes::clone_bytes(bytes);
            out.push((self.connections[i], copy));
            i += 1;
        }
        assert(message_views(out@) =~= fan_out(self.connections@, bytes@));
        out
    }
}

} // verus!
