//! What the server keeps for each connection.

use vstd::prelude::*;
use crate::bytes::{frame_views, views};
use crate::resp_parser::{counted, parse_all, Parsed, RespConnection};
use crate::utils::{format_resp_array, get_simple_str, resp_array, simple_string};

verus! {

/// A command with what the executor needs besides its frame.
#[derive(Debug)]
pub struct QueuedCommand {
    /// The command's name and arguments.
    pub frame: Vec<Vec<u8>>,
    /// The integer that stands for the score of a `ZADD` in the order of
    /// scores; `None` for other commands and for a score that is no number.
    pub score: Option<u64>,
}

/// A command, as mathematical values.
pub type CommandModel = (Seq<Seq<u8>>, Option<u64>);

impl View for QueuedCommand {
    type V = CommandModel;

    open spec fn view(&self) -> CommandModel {
        (views(self.frame@), self.score)
    }
}

/// The commands that a vector holds.
pub open spec fn command_views(v: Seq<QueuedCommand>) -> Seq<CommandModel> {
    Seq::new(v.len(), |i: int| v[i]@)
}

/// Where a connection stands as a replica, seen from the primary.
#[derive(Debug, Clone, Copy, PartialEq, Eq)]
pub enum ReplicaState {
    /// The replica has announced the port on which it listens.
    Handshaking,
    /// The replica has asked for the snapshot and receives the writes.
    Ready,
    /// The connection has ended.
    Closed,
}

/// The state of one connection: its decoder and its modes.
pub struct RedisConnection {
    /// The number by which the server knows the connection's socket.
    pub id: u64,
    /// The decoder of the bytes that arrive.
    pub parser: RespConnection,
    /// Whether the connection leads to this replica's primary.
    pub is_master: bool,
    /// Whether a transaction is open.
    pub multi_waiting: bool,
    /// The commands of the open transaction, in the order received.
    pub queued: Vec<QueuedCommand>,
    /// Whether the connection is in subscribe mode.
    pub in_sub_mode: bool,
    /// The number of channels to which the connection is subscribed.
    pub num_channels: usize,
    /// Whether a write command has been received on this connection.
    pub has_written: bool,
    /// Where the connection stands as a replica; `None` for a connection
    /// that has not announced itself as one.
    pub replica_state: Option<ReplicaState>,
}

impl RedisConnection {
    /// The state of a connection that has received nothing.
    pub fn new(id: u64) -> (r: Self)
        ensures
            r.id == id,
            r.parser.buffer() == Seq::<u8>::empty(),
            r.parser.position() == 0,
            r.parser.offset() == 0,
            r.parser.prev_offset() == 0,
            !r.is_master,
            !r.multi_waiting,
            r.queued@.len() == 0,
            !r.in_sub_mode,
            r.num_channels == 0,
            !r.has_written,
            r.replica_state is None,
    {
        RedisConnection {
            id,
            parser: RespConnection::new(),
            is_master: false,
            multi_waiting: false,
            queued: Vec::new(),
            in_sub_mode: false,
            num_channels: 0,
            has_written: false,
            replica_state: None,
        }
    }

    /// Notes that the connection has ended: a replica is then closed.
    pub fn close(&mut self)
        ensures
            *final(self) == (RedisConnection {
                replica_state: if old(self).replica_state is Some {
                    Some(ReplicaState::Closed)
                } else {
                    None
                },
                ..*old(self)
            }),
    {
        if self.replica_state.is_some() {
            self.replica_state = Some(ReplicaState::Closed);
        }
    }

    /// Takes in the bytes that were read from the connection's socket and
    /// returns the command frames that have arrived in full; `None` when
    /// nothing was read.
    pub fn try_read_command(&mut self, incoming: &[u8]) -> (r: Option<Vec<Vec<Vec<u8>>>>)
        ensures
            final(self).id == old(self).id,
            final(self).is_master == old(self).is_master,
            final(self).multi_waiting == old(self).multi_waiting,
            final(self).queued == old(self).queued,
            final(self).in_sub_mode == old(self).in_sub_mode,
            final(self).num_channels == old(self).num_channels,
            final(self).has_written == old(self).has_written,
            final(self).replica_state == old(self).replica_state,
            incoming@.len() == 0 ==> r is None && final(self).parser == old(self).parser,
            incoming@.len() > 0 ==> r is Some && final(self).parser.buffer() == old(self).parser.buffer() + incoming@ && final(self).parser.prev_offset() == old(self).parser.offset() && (Parsed {
                frames: frame_views(r->0@),
                position: final(self).parser.position(),
                offset: final(self).parser.offset(),
            }) == parse_all(
                old(self).parser.buffer() + incoming@,
                old(self).parser.position(),
                counted(old(self).parser.offset(), incoming@.len()),
                Seq::empty(),
            ),
    {
        if incoming.len() == 0 {
            return None;
        }
        self.parser.try_read_command(incoming)
    }

    /// The bytes that carry `command` to the other end of a connection: the
    /// command's frame.
    pub fn broadcast_command(&self, command: &Vec<Vec<u8>>) -> (r: Vec<u8>)
        ensures
            r@ == resp_array(views(command@)),
    {
        format_resp_array(command)
    }

    /// The byte strings of `elements` as an array of bulk strings.
    pub fn format_resp_array(&self, elements: &Vec<Vec<u8>>) -> (r: Vec<u8>)
        ensures
            r@ == resp_array(views(elements@)),
    {
        format_resp_array(elements)
    }

    /// `s` as a simple string.
    pub fn get_simple_str(&self, s: &[u8]) -> (r: Vec<u8>)
        ensures
            r@ == simple_string(s@),
    {
        get_simple_str(s)
    }
}

} // verus!
