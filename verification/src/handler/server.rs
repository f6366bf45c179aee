//! The state that all connections share.

use vstd::prelude::*;
use vstd::string::StringSliceAdditionalSpecFns;
use crate::broadcast_info::BroadCastInfo;
use crate::byte_map::{assoc_get, ByteMap};
use crate::bytes::{is_text, text};
use crate::constants::{MASTER, MASTER_REPL_ID, MASTER_REPL_OFFSET, ROLE, SLAVE};
use crate::entry_stream::{RedisEntryStream, StreamModel};
use crate::metadata::{pairs_of, Pairs};
use crate::redis_list::{ListModel, RedisList};
use crate::redis_sorted_set::RedisSortedSet;
use crate::redis_subscriber::{remove_conn, without_conn, Channel};
use crate::types::RedisDatabase;

verus! {

/// The stores, the replication state and the configuration of a server.
pub struct Server {
    /// The directory of the snapshot file, if configured.
    pub dir: Option<Vec<u8>>,
    /// The name of the snapshot file, if configured.
    pub db_filename: Option<Vec<u8>>,
    /// What the server says of itself: its role and its replication
    /// identifier and offset.
    pub info_fields: ByteMap<Vec<u8>>,
    /// The replicas and the pending wait.
    pub broadcast_info: BroadCastInfo,
    /// The string store.
    pub new_db: RedisDatabase,
    /// The streams, by name.
    pub entry_streams: ByteMap<RedisEntryStream>,
    /// The lists, by name.
    pub lists_map: ByteMap<RedisList>,
    /// The channels, by name.
    pub channels_db: ByteMap<Channel>,
    /// The sorted sets, by name.
    pub sets_map: ByteMap<RedisSortedSet>,
}

/// Whether the information fields say that the server is a primary.
pub open spec fn says_master(info: Pairs) -> bool {
    assoc_get(info, ROLE.spec_bytes()) == Some(MASTER.spec_bytes())
}

impl Server {
    /// A server with empty stores. A primary is known by the replication
    /// identifier `id` and starts at offset zero; a replica keeps `id` as
    /// its own identifier.
    pub fn new(
        dir: Option<Vec<u8>>,
        db_filename: Option<Vec<u8>>,
        primary: bool,
        id: Vec<u8>,
        now_ms: u64,
    ) -> (r: Self)
        ensures
            r.dir == dir,
            r.db_filename == db_filename,
            r.new_db@.len() == 0,
            r.entry_streams.keys().len() == 0,
            r.lists_map.keys().len() == 0,
            r.channels_db.keys().len() == 0,
            r.sets_map.keys().len() == 0,
            r.broadcast_info.connections@.len() == 0,
            r.broadcast_info.num_waiting_for == 0,
            r.broadcast_info.num_acks == 0,
            pairs_of(&r.info_fields) == if primary {
                seq![
                    (ROLE.spec_bytes(), MASTER.spec_bytes()),
                    (MASTER_REPL_ID.spec_bytes(), id@),
                    (MASTER_REPL_OFFSET.spec_bytes(), "0".spec_bytes()),
                ]
            } else {
                seq![(ROLE.spec_bytes(), SLAVE.spec_bytes()), ("repl_id".spec_bytes(), id@)]
            },
    {
        let mut info_fields: ByteMap<Vec<u8>> = ByteMap::new();
        proof {
            reveal_strlit("role");
            reveal_strlit("master_replid");
            reveal_strlit("master_repl_offset");
            reveal_strlit("repl_id");
            vstd::string::is_ascii_spec_bytes("role");
            vstd::string::is_ascii_spec_bytes("master_replid");
            vstd::string::is_ascii_spec_bytes("master_repl_offset");
            vstd::string::is_ascii_spec_bytes("repl_id");
        }
        if primary {
            info_fields.insert(text(ROLE), text(MASTER));
            assert(info_fields.keys() =~= seq![ROLE.spec_bytes()]);
            assert(ROLE.spec_bytes().len() == 4);
            assert(MASTER_REPL_ID.spec_bytes().len() == 13);
            assert(MASTER_REPL_OFFSET.spec_bytes().len() == 18);
            assert(!crate::byte_map::has_key(info_fields.keys(), MASTER_REPL_ID.spec_bytes()));
            info_fields.insert(text(MASTER_REPL_ID), id);
            assert(info_fields.keys() =~= seq![ROLE.spec_bytes(), MASTER_REPL_ID.spec_bytes()]);
            assert(!crate::byte_map::has_key(info_fields.keys(), MASTER_REPL_OFFSET.spec_bytes()));
            info_fields.insert(text(MASTER_REPL_OFFSET), text("0"));
            assert(pairs_of(&info_fields) =~= seq![
                (ROLE.spec_bytes(), MASTER.spec_bytes()),
                (MASTER_REPL_ID.spec_bytes(), id@),
                (MASTER_REPL_OFFSET.spec_bytes(), "0".spec_bytes()),
            ]);
        } else {
            info_fields.insert(text(ROLE), text(SLAVE));
            assert(info_fields.keys() =~= seq![ROLE.spec_bytes()]);
            assert(ROLE.spec_bytes().len() == 4);
            assert("repl_id".spec_bytes().len() == 7);
            assert(!crate::byte_map::has_key(info_fields.keys(), "repl_id".spec_bytes()));
            info_fields.insert(text("repl_id"), id);
            assert(pairs_of(&info_fields) =~= seq![
                (ROLE.spec_bytes(), SLAVE.spec_bytes()),
                ("repl_id".spec_bytes(), id@),
            ]);
        }
        Server {
            dir,
            db_filename,
            info_fields,
            broadcast_info: BroadCastInfo::new(now_ms),
            new_db: RedisDatabase::new(),
            entry_streams: ByteMap::new(),
            lists_map: ByteMap::new(),
            channels_db: ByteMap::new(),
            sets_map: ByteMap::new(),
        }
    }

    /// Whether the server is a primary.
    pub fn is_master(&self) -> (r: bool)
        ensures
            r == says_master(pairs_of(&self.info_fields)),
    {
        assert(crate::byte_map::assoc_keys(pairs_of(&self.info_fields)) =~= self.info_fields.keys());
        match self.info_fields.find(ROLE.as_bytes()) {
            Some(at) => is_text(self.info_fields.value_at(at).as_slice(), MASTER),
            None => false,
        }
    }
}

/// Takes the connection out of the waiters of every list.
fn forget_in_lists(lists: &mut ByteMap<RedisList>, conn: u64)
    ensures
        final(lists).keys() == old(lists).keys(),
        final(lists).vals().len() == old(lists).vals().len(),
        forall|i: int|
            0 <= i < old(lists).vals().len() ==> (#[trigger] final(lists).vals()[i])@
                == (ListModel {
                blocking_pop_streams: without_conn(old(lists).vals()[i]@.blocking_pop_streams, conn),
                ..old(lists).vals()[i]@
            }),
{
    let n = lists.len();
    let mut i: usize = 0;
    while i < n
        invariant
            i <= n,
            n == lists.vals().len(),
            lists.keys() == old(lists).keys(),
            lists.vals().len() == old(lists).vals().len(),
            forall|j: int|
                0 <= j < i ==> (#[trigger] lists.vals()[j])@ == (ListModel {
                    blocking_pop_streams: without_conn(
                        old(lists).vals()[j]@.blocking_pop_streams,
                        conn,
                    ),
                    ..old(lists).vals()[j]@
                }),
            forall|j: int| i <= j < n ==> (#[trigger] lists.vals()[j]) == old(lists).vals()[j],
        decreases n - i,
    {
        let list = lists.value_at_mut(i);
        remove_conn(&mut list.blocking_pop_streams, conn);
        i += 1;
    }
}

/// Takes the connection out of the waiters of every stream.
fn forget_in_streams(streams: &mut ByteMap<RedisEntryStream>, conn: u64)
    ensures
        final(streams).keys() == old(streams).keys(),
        final(streams).vals().len() == old(streams).vals().len(),
        forall|i: int|
            0 <= i < old(streams).vals().len() ==> (#[trigger] final(streams).vals()[i])@
                == (StreamModel {
                waiting_streams: without_conn(old(streams).vals()[i]@.waiting_streams, conn),
                ..old(streams).vals()[i]@
            }),
{
    let n = streams.len();
    let mut i: usize = 0;
    while i < n
        invariant
            i <= n,
            n == streams.vals().len(),
            streams.keys() == old(streams).keys(),
            streams.vals().len() == old(streams).vals().len(),
            forall|j: int|
                0 <= j < i ==> (#[trigger] streams.vals()[j])@ == (StreamModel {
                    waiting_streams: without_conn(old(streams).vals()[j]@.waiting_streams, conn),
                    ..old(streams).vals()[j]@
                }),
            forall|j: int| i <= j < n ==> (#[trigger] streams.vals()[j]) == old(streams).vals()[j],
        decreases n - i,
    {
        let stream = streams.value_at_mut(i);
        stream.remove_waiter(conn);
        i += 1;
    }
}

/// Takes the connection out of the subscribers of every channel.
fn forget_in_channels(channels: &mut ByteMap<Channel>, conn: u64)
    ensures
        final(channels).keys() == old(channels).keys(),
        final(channels).vals().len() == old(channels).vals().len(),
        forall|i: int|
            0 <= i < old(channels).vals().len() ==> (#[trigger] final(channels).vals()[i]).name
                == old(channels).vals()[i].name && final(channels).vals()[i].subscribers@
                == without_conn(old(channels).vals()[i].subscribers@, conn),
{
    let n = channels.len();
    let mut i: usize = 0;
    while i < n
        invariant
            i <= n,
            n == channels.vals().len(),
            channels.keys() == old(channels).keys(),
            channels.vals().len() == old(channels).vals().len(),
            forall|j: int|
                0 <= j < i ==> (#[trigger] channels.vals()[j]).name == old(channels).vals()[j].name
                    && channels.vals()[j].subscribers@ == without_conn(
                    old(channels).vals()[j].subscribers@,
                    conn,
                ),
            forall|j: int| i <= j < n ==> (#[trigger] channels.vals()[j]) == old(channels).vals()[j],
        decreases n - i,
    {
        let chan = channels.value_at_mut(i);
        remove_conn(&mut chan.subscribers, conn);
        i += 1;
    }
}

impl Server {
    /// Forgets a connection that was closed: it leaves the replicas, the
    /// waiters of every list and every stream, and the subscribers of every
    /// channel. Everything else stays as it is.
    pub fn forget_connection(&mut self, conn: u64)
        ensures
            final(self).dir == old(self).dir,
            final(self).db_filename == old(self).db_filename,
            final(self).info_fields == old(self).info_fields,
            final(self).new_db == old(self).new_db,
            final(self).sets_map == old(self).sets_map,
            final(self).broadcast_info == (BroadCastInfo {
                connections: final(self).broadcast_info.connections,
                ..old(self).broadcast_info
            }),
            final(self).broadcast_info.connections@ == without_conn(
                old(self).broadcast_info.connections@,
                conn,
            ),
            final(self).lists_map.keys() == old(self).lists_map.keys(),
            final(self).lists_map.vals().len() == old(self).lists_map.vals().len(),
            forall|i: int|
                0 <= i < old(self).lists_map.vals().len() ==> (#[trigger] final(self).lists_map.vals()[i])@ == (ListModel {
                    blocking_pop_streams: without_conn(
                        old(self).lists_map.vals()[i]@.blocking_pop_streams,
                        conn,
                    ),
                    ..old(self).lists_map.vals()[i]@
                }),
            final(self).entry_streams.keys() == old(self).entry_streams.keys(),
            final(self).entry_streams.vals().len() == old(self).entry_streams.vals().len(),
            forall|i: int|
                0 <= i < old(self).entry_streams.vals().len() ==> (#[trigger] final(self).entry_streams.vals()[i])@ == (StreamModel {
                    waiting_streams: without_conn(
                        old(self).entry_streams.vals()[i]@.waiting_streams,
                        conn,
                    ),
                    ..old(self).entry_streams.vals()[i]@
                }),
            final(self).channels_db.keys() == old(self).channels_db.keys(),
            final(self).channels_db.vals().len() == old(self).channels_db.vals().len(),
            forall|i: int|
                0 <= i < old(self).channels_db.vals().len() ==> (#[trigger] final(self).channels_db.vals()[i]).name == old(self).channels_db.vals()[i].name && final(self).channels_db.vals()[i].subscribers@ == without_conn(
                    old(self).channels_db.vals()[i].subscribers@,
                    conn,
                ),
    {
        remove_conn(&mut self.broadcast_info.connections, conn);
        forget_in_lists(&mut self.lists_map, conn);
        forget_in_streams(&mut self.entry_streams, conn);
        forget_in_channels(&mut self.channels_db, conn);
    }
}

} // verus!
