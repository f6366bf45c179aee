//! The snapshot as a whole: header, metadata, database blocks, end marker
//! and checksum.

use vstd::prelude::*;
use crate::byte_map::{assoc_keys, assoc_put, distinct, ByteMap};
use crate::database::{database_encoding, decode_database, entries_encodable,
    lemma_database_round_trip, lemma_decode_database_encodable, lemma_decode_database_shrinks,
    read_db, write_database, DB_SELECTOR, EOF};
use crate::encoding::ByteReader;
use crate::error::{RdbError, Result};
use crate::header::{decode_header, header_encoding, lemma_header_round_trip, read_header,
    valid_version, write_header};
use crate::metadata::{decode_metadata, lemma_decode_metadata_distinct,
    lemma_decode_metadata_encodable, lemma_metadata_round_trip, metadata_encoding,
    pairs_encodable, pairs_of, read_metada, write_metadata, Pairs, METADATA_START};
use crate::types::{Entries, RdbFile, RedisDatabase};

verus! {

/// The databases of a snapshot with their indices, in the order of first
/// insertion.
pub type Databases = Seq<(u8, Entries)>;

/// What a snapshot holds, as mathematical values.
pub struct RdbModel {
    pub version: Seq<u8>,
    pub metadata: Pairs,
    pub databases: Databases,
}

/// The databases that a vector holds, each with its index.
pub open spec fn database_views(v: Seq<(u8, RedisDatabase)>) -> Databases {
    Seq::new(v.len(), |i: int| (v[i].0, v[i].1@))
}

impl View for RdbFile {
    type V = RdbModel;

    closed spec fn view(&self) -> RdbModel {
        RdbModel {
            version: self.version@,
            metadata: pairs_of(&self.metadata),
            databases: database_views(self.databases@),
        }
    }
}

/// Whether no two databases have the same index.
pub open spec fn indices_distinct(dbs: Databases) -> bool {
    forall|i: int, j: int| 0 <= i < j < dbs.len() ==> dbs[i].0 != dbs[j].0
}

/// Whether a database with index `index` is among `dbs`.
pub open spec fn has_index(dbs: Databases, index: u8) -> bool {
    exists|i: int| 0 <= i < dbs.len() && dbs[i].0 == index
}

/// The position of the first database with index `index` at or after
/// `from`, or `dbs.len()` when there is none.
pub open spec fn first_with_index(dbs: Databases, index: u8, from: int) -> int
    decreases dbs.len() - from,
{
    if from < 0 || from >= dbs.len() {
        dbs.len() as int
    } else if dbs[from].0 == index {
        from
    } else {
        first_with_index(dbs, index, from + 1)
    }
}

/// Where the first database with an index is, and that none stands before
/// it.
pub proof fn lemma_first_with_index(dbs: Databases, index: u8, from: int)
    requires
        0 <= from <= dbs.len(),
    ensures
        from <= first_with_index(dbs, index, from) <= dbs.len(),
        first_with_index(dbs, index, from) < dbs.len() ==> dbs[first_with_index(
            dbs,
            index,
            from,
        )].0 == index,
        forall|i: int| from <= i < first_with_index(dbs, index, from) ==> dbs[i].0 != index,
    decreases dbs.len() - from,
{
    if from < dbs.len() && dbs[from].0 != index {
        lemma_first_with_index(dbs, index, from + 1);
    }
}

/// The databases after the one with index `index` is set to `entries`: it
/// replaces the first database with that index, and is otherwise added at
/// the end.
pub open spec fn put_database(dbs: Databases, index: u8, entries: Entries) -> Databases {
    if has_index(dbs, index) {
        dbs.update(first_with_index(dbs, index, 0), (index, entries))
    } else {
        dbs.push((index, entries))
    }
}

impl RdbModel {
    /// No metadata name, no database index and no key within a database
    /// occurs twice.
    pub open spec fn wf(&self) -> bool {
        &&& distinct(assoc_keys(self.metadata))
        &&& indices_distinct(self.databases)
        &&& forall|i: int|
            0 <= i < self.databases.len() ==> distinct(
                assoc_keys((#[trigger] self.databases[i]).1),
            )
    }

    /// The snapshot can be written: the version is four ASCII bytes, and
    /// every string and every count is small enough for the size encoding.
    pub open spec fn encodable(&self) -> bool {
        &&& valid_version(self.version)
        &&& pairs_encodable(self.metadata)
        &&& databases_encodable(self.databases)
    }
}

/// Whether every database can be written.
pub open spec fn databases_encodable(dbs: Databases) -> bool {
    forall|i: int| 0 <= i < dbs.len() ==> entries_encodable((#[trigger] dbs[i]).1)
}

/// The encoding of the database blocks, in order.
pub open spec fn databases_encoding(dbs: Databases) -> Seq<u8>
    decreases dbs.len(),
{
    if dbs.len() == 0 {
        Seq::<u8>::empty()
    } else {
        databases_encoding(dbs.drop_last()) + database_encoding(dbs.last().0, dbs.last().1)
    }
}

/// The end of a snapshot: the end marker and an all-zero checksum.
pub open spec fn trailer() -> Seq<u8> {
    seq![EOF, 0u8, 0u8, 0u8, 0u8, 0u8, 0u8, 0u8, 0u8]
}

/// The encoding of a snapshot.
pub open spec fn rdb_encoding(m: RdbModel) -> Seq<u8> {
    header_encoding(m.version) + metadata_encoding(m.metadata) + databases_encoding(m.databases)
        + trailer()
}

/// Decodes database blocks from the start of `s`, adding each to `acc`, up
/// to the end marker.
pub open spec fn decode_databases(s: Seq<u8>, acc: Databases) -> Result<Databases>
    decreases s.len(),
{
    if s.len() == 0 {
        Err(RdbError::UnexpectedEof)
    } else if s[0] == EOF {
        Ok(acc)
    } else if s[0] == DB_SELECTOR {
        if s.len() < 2 {
            Err(RdbError::UnexpectedEof)
        } else {
            match decode_database(s.skip(2)) {
                Err(e) => Err(e),
                Ok(((entries, at_end), rest)) => {
                    proof {
                        lemma_decode_database_shrinks(s.skip(2));
                    }
                    if at_end {
                        Ok(put_database(acc, s[1], entries))
                    } else {
                        decode_databases(rest, put_database(acc, s[1], entries))
                    }
                },
            }
        }
    } else {
        Err(RdbError::InvalidValueType(s[0]))
    }
}

/// A snapshot of the given version and metadata with the databases that were
/// decoded, or the error that stopped their decoding.
pub open spec fn with_databases(version: Seq<u8>, metadata: Pairs, dbs: Result<Databases>) -> Result<
    RdbModel,
> {
    match dbs {
        Err(e) => Err(e),
        Ok(databases) => Ok(RdbModel { version, metadata, databases }),
    }
}

/// Decodes a snapshot: the header, the metadata up to the first byte that
/// is not its marker, and the database blocks up to the end marker. What
/// follows the end marker is not read.
pub open spec fn decode_rdb(s: Seq<u8>) -> Result<RdbModel> {
    match decode_header(s) {
        Err(e) => Err(e),
        Ok((version, after_header)) => match decode_metadata(after_header, Seq::empty()) {
            Err(e) => Err(e),
            Ok((metadata, after_metadata)) => with_databases(
                version,
                metadata,
                decode_databases(after_metadata, Seq::empty()),
            ),
        },
    }
}

/// Setting a database keeps the indices distinct and every database's keys
/// distinct.
pub proof fn lemma_put_database_wf(dbs: Databases, index: u8, entries: Entries)
    requires
        indices_distinct(dbs),
        forall|i: int| 0 <= i < dbs.len() ==> distinct(assoc_keys((#[trigger] dbs[i]).1)),
        distinct(assoc_keys(entries)),
    ensures
        indices_distinct(put_database(dbs, index, entries)),
        forall|i: int|
            0 <= i < put_database(dbs, index, entries).len() ==> distinct(
                assoc_keys((#[trigger] put_database(dbs, index, entries)[i]).1),
            ),
{
    let after = put_database(dbs, index, entries);
    lemma_first_with_index(dbs, index, 0);
    if has_index(dbs, index) {
        let k = first_with_index(dbs, index, 0);
        assert forall|i: int, j: int| 0 <= i < j < after.len() implies after[i].0 != after[j].0 by {
            assert(dbs[i].0 != dbs[j].0);
        }
        assert forall|i: int| 0 <= i < after.len() implies distinct(
            assoc_keys((#[trigger] after[i]).1),
        ) by {
            if i != k {
                assert(after[i] == dbs[i]);
            }
        }
    } else {
        assert forall|i: int, j: int| 0 <= i < j < after.len() implies after[i].0 != after[j].0 by {
            if j < dbs.len() {
                assert(dbs[i].0 != dbs[j].0);
            }
        }
        assert forall|i: int| 0 <= i < after.len() implies distinct(
            assoc_keys((#[trigger] after[i]).1),
        ) by {
            if i < dbs.len() {
                assert(after[i] == dbs[i]);
            }
        }
    }
}

/// Decoding adds databases without ever holding an index or a key twice.
pub proof fn lemma_decode_databases_wf(s: Seq<u8>, acc: Databases)
    requires
        indices_distinct(acc),
        forall|i: int| 0 <= i < acc.len() ==> distinct(assoc_keys((#[trigger] acc[i]).1)),
    ensures
        match decode_databases(s, acc) {
            Ok(dbs) => indices_distinct(dbs) && forall|i: int|
                0 <= i < dbs.len() ==> distinct(assoc_keys((#[trigger] dbs[i]).1)),
            Err(_) => true,
        },
    decreases s.len(),
{
    if s.len() >= 2 && s[0] == DB_SELECTOR {
        match decode_database(s.skip(2)) {
            Err(e) => {},
            Ok(((entries, at_end), rest)) => {
                lemma_decode_database_shrinks(s.skip(2));
                lemma_put_database_wf(acc, s[1], entries);
                if !at_end {
                    lemma_decode_databases_wf(rest, put_database(acc, s[1], entries));
                }
            },
        }
    }
}

/// The databases that were decoded can be written again.
pub proof fn lemma_decode_databases_encodable(s: Seq<u8>, acc: Databases)
    requires
        databases_encodable(acc),
    ensures
        match decode_databases(s, acc) {
            Ok(dbs) => databases_encodable(dbs),
            Err(_) => true,
        },
    decreases s.len(),
{
    if s.len() >= 2 && s[0] == DB_SELECTOR {
        match decode_database(s.skip(2)) {
            Err(e) => {},
            Ok(((entries, at_end), rest)) => {
                lemma_decode_database_shrinks(s.skip(2));
                lemma_decode_database_encodable(s.skip(2));
                let after = put_database(acc, s[1], entries);
                lemma_first_with_index(acc, s[1], 0);
                assert forall|i: int| 0 <= i < after.len() implies entries_encodable(
                    (#[trigger] after[i]).1,
                ) by {
                    if has_index(acc, s[1]) {
                        if i != first_with_index(acc, s[1], 0) {
                            assert(after[i] == acc[i]);
                        }
                    } else if i < acc.len() {
                        assert(after[i] == acc[i]);
                    }
                }
                if !at_end {
                    lemma_decode_databases_encodable(rest, after);
                }
            },
        }
    }
}

/// Database blocks that were written decode to the databases, after those
/// that were there before, when the end marker or another block follows.
pub proof fn lemma_databases_round_trip(dbs: Databases, acc: Databases, tail: Seq<u8>)
    requires
        databases_encodable(dbs),
        indices_distinct(acc + dbs),
        forall|i: int| 0 <= i < dbs.len() ==> distinct(assoc_keys((#[trigger] dbs[i]).1)),
        tail.len() > 0,
        tail[0] == EOF || tail[0] == DB_SELECTOR,
    ensures
        decode_databases(databases_encoding(dbs) + tail, acc) == decode_databases(tail, acc + dbs),
        (databases_encoding(dbs) + tail).len() > 0,
        (databases_encoding(dbs) + tail)[0] == EOF || (databases_encoding(dbs) + tail)[0]
            == DB_SELECTOR,
    decreases dbs.len(),
{
    if dbs.len() == 0 {
        assert(databases_encoding(dbs) + tail =~= tail);
        assert(acc + dbs =~= acc);
    } else {
        let front = dbs.drop_last();
        let (index, entries) = dbs.last();
        let block = database_encoding(index, entries);
        let so_far = acc + front;
        assert(so_far =~= (acc + dbs).drop_last());
        assert(indices_distinct(so_far)) by {
            assert forall|i: int, j: int| 0 <= i < j < so_far.len() implies so_far[i].0
                != so_far[j].0 by {
                assert((acc + dbs)[i].0 != (acc + dbs)[j].0);
            }
        }
        assert(databases_encodable(front)) by {
            assert forall|i: int| 0 <= i < front.len() implies entries_encodable(
                (#[trigger] front[i]).1,
            ) by {
                assert(front[i] == dbs[i]);
            }
        }
        assert forall|i: int| 0 <= i < front.len() implies distinct(
            assoc_keys((#[trigger] front[i]).1),
        ) by {
            assert(front[i] == dbs[i]);
        }
        assert(dbs[dbs.len() - 1] == (index, entries));
        lemma_database_round_trip(index, entries, tail);
        let t = block + tail;
        assert(t[0] == DB_SELECTOR);
        assert(t[1] == index);
        lemma_databases_round_trip(front, acc, t);
        assert(databases_encoding(dbs) + tail =~= databases_encoding(front) + t);
        // one step of the decoder over the last block
        assert(!has_index(so_far, index)) by {
            if has_index(so_far, index) {
                let i = choose|i: int| 0 <= i < so_far.len() && so_far[i].0 == index;
                assert((acc + dbs)[i] == so_far[i]);
                assert((acc + dbs)[(acc + dbs).len() - 1].0 == index);
                assert((acc + dbs)[i].0 != (acc + dbs)[(acc + dbs).len() - 1].0);
            }
        }
        assert(put_database(so_far, index, entries) =~= acc + dbs);
        lemma_decode_database_shrinks(t.skip(2));
    }
}

/// Reading back a snapshot that was written gives the snapshot that was
/// written.
pub proof fn lemma_snapshot_round_trip(m: RdbModel)
    requires
        m.wf(),
        m.encodable(),
    ensures
        decode_rdb(rdb_encoding(m)) == Ok::<_, RdbError>(m),
{
    let dbs_and_end = databases_encoding(m.databases) + trailer();
    let after_header = metadata_encoding(m.metadata) + dbs_and_end;
    assert(rdb_encoding(m) =~= header_encoding(m.version) + after_header);
    lemma_header_round_trip(m.version, after_header);
    assert(Seq::<(Seq<u8>, Seq<u8>)>::empty() + m.metadata =~= m.metadata);
    lemma_metadata_round_trip(m.metadata, Seq::empty(), dbs_and_end);
    assert(Seq::<(u8, Entries)>::empty() + m.databases =~= m.databases);
    lemma_databases_round_trip(m.databases, Seq::empty(), trailer());
    assert(dbs_and_end[0] != METADATA_START);
}

/// A snapshot that was read has no name, index or key twice.
pub proof fn lemma_decoded_snapshot_wf(file: Seq<u8>)
    ensures
        match decode_rdb(file) {
            Ok(m) => m.wf(),
            Err(_) => true,
        },
{
    match decode_header(file) {
        Err(e) => {},
        Ok((version, after_header)) => {
            assert(distinct(assoc_keys(Seq::<(Seq<u8>, Seq<u8>)>::empty())));
            lemma_decode_metadata_distinct(after_header, Seq::empty());
            match decode_metadata(after_header, Seq::empty()) {
                Err(e) => {},
                Ok((metadata, after_metadata)) => {
                    lemma_decode_databases_wf(after_metadata, Seq::empty());
                },
            }
        },
    }
}

/// A snapshot that was read can be written.
pub proof fn lemma_decoded_snapshot_encodable(file: Seq<u8>)
    ensures
        match decode_rdb(file) {
            Ok(m) => m.encodable(),
            Err(_) => true,
        },
{
    match decode_header(file) {
        Err(e) => {},
        Ok((version, after_header)) => {
            lemma_decode_metadata_encodable(after_header, Seq::empty());
            match decode_metadata(after_header, Seq::empty()) {
                Err(e) => {},
                Ok((metadata, after_metadata)) => {
                    lemma_decode_databases_encodable(after_metadata, Seq::empty());
                },
            }
        },
    }
}

/// Every snapshot that was read can be written out, and reading that back
/// gives the same version, metadata, keys, values and expiries.
pub proof fn lemma_write_of_read_keeps_content(file: Seq<u8>)
    requires
        decode_rdb(file) is Ok,
    ensures
        decode_rdb(file)->Ok_0.encodable(),
        decode_rdb(rdb_encoding(decode_rdb(file)->Ok_0)) == decode_rdb(file),
{
    lemma_decoded_snapshot_wf(file);
    lemma_decoded_snapshot_encodable(file);
    lemma_snapshot_round_trip(decode_rdb(file)->Ok_0);
}

impl RdbFile {
    #[verifier::type_invariant]
    pub closed spec fn inv(&self) -> bool {
        indices_distinct(self@.databases)
    }

    /// A snapshot of the given version without metadata or databases.
    pub fn new(version: Vec<u8>) -> (r: Self)
        ensures
            r@ == (RdbModel {
                version: version@,
                metadata: Seq::empty(),
                databases: Seq::empty(),
            }),
    {
        let r = RdbFile { version, metadata: ByteMap::new(), databases: Vec::new() };
        assert(r@.metadata =~= Seq::<(Seq<u8>, Seq<u8>)>::empty());
        assert(r@.databases =~= Seq::<(u8, Entries)>::empty());
        r
    }

    /// The version.
    pub fn version(&self) -> (r: &Vec<u8>)
        ensures
            r@ == self@.version,
    {
        &self.version
    }

    /// The metadata.
    pub fn metadata(&self) -> (r: &ByteMap<Vec<u8>>)
        ensures
            pairs_of(r) == self@.metadata,
    {
        &self.metadata
    }

    /// The number of databases.
    pub fn database_count(&self) -> (r: usize)
        ensures
            r == self@.databases.len(),
            indices_distinct(self@.databases),
    {
        proof {
            use_type_invariant(self);
        }
        self.databases.len()
    }

    /// Binds the metadata attribute `name` to `value`: the value replaces
    /// the one that the name had, and otherwise the attribute is added at
    /// the end.
    pub fn insert_metadata(&mut self, name: Vec<u8>, value: Vec<u8>)
        ensures
            final(self)@ == (RdbModel {
                metadata: assoc_put(old(self)@.metadata, name@, value@),
                ..old(self)@
            }),
    {
        proof {
            use_type_invariant(&*self);
        }
        let ghost before = self@;
        let mut taken = RdbFile::new(Vec::new());
        core::mem::swap(self, &mut taken);
        let RdbFile { version, metadata: mut metadata, databases } = taken;
        let ghost pairs = pairs_of(&metadata);
        let ghost keys = metadata.keys();
        assert(assoc_keys(pairs) =~= keys);
        metadata.insert(name, value);
        proof {
            match crate::byte_map::position(keys, name@) {
                Some(i) => {
                    assert(crate::byte_map::has_key(keys, name@));
                    assert(keys[i] == name@);
                    assert(pairs_of(&metadata) =~= pairs.update(i, (name@, value@)));
                },
                None => {
                    assert(pairs_of(&metadata) =~= pairs.push((name@, value@)));
                },
            }
        }
        assert(database_views(databases@) == before.databases);
        *self = RdbFile { version, metadata, databases };
    }

    /// The position of the first database with index `index`.
    pub fn find_database(&self, index: u8) -> (r: Option<usize>)
        ensures
            match r {
                Some(i) => i < self@.databases.len() && self@.databases[i as int].0 == index
                    && has_index(self@.databases, index) && i == first_with_index(
                    self@.databases,
                    index,
                    0,
                ) && forall|j: int| 0 <= j < i ==> self@.databases[j].0 != index,
                None => !has_index(self@.databases, index),
            },
    {
        let mut i: usize = 0;
        while i < self.databases.len()
            invariant
                i <= self.databases.len(),
                forall|j: int| 0 <= j < i ==> self@.databases[j].0 != index,
                first_with_index(self@.databases, index, 0) == first_with_index(
                    self@.databases,
                    index,
                    i as int,
                ),
            decreases self.databases.len() - i,
        {
            if self.databases[i].0 == index {
                return Some(i);
            }
            i += 1;
        }
        None
    }

    /// The index of the database at position `i`, and the database.
    pub fn database_at(&self, i: usize) -> (r: (u8, &RedisDatabase))
        requires
            i < self@.databases.len(),
        ensures
            (r.0, r.1@) == self@.databases[i as int],
    {
        (self.databases[i].0, &self.databases[i].1)
    }

    /// The database with index `index`, if the snapshot holds one.
    pub fn database(&self, index: u8) -> (r: Option<&RedisDatabase>)
        ensures
            match r {
                Some(db) => has_index(self@.databases, index) && db@ == self@.databases[first_with_index(
                    self@.databases,
                    index,
                    0,
                )].1,
                None => !has_index(self@.databases, index),
            },
    {
        match self.find_database(index) {
            Some(i) => {
                assert(self@.databases[i as int] == (index, self.databases[i as int].1@));
                Some(&self.databases[i].1)
            },
            None => None,
        }
    }

    /// Takes the database with index `index` out of the snapshot.
    pub fn take_database(&mut self, index: u8) -> (r: Option<RedisDatabase>)
        ensures
            final(self)@.version == old(self)@.version,
            final(self)@.metadata == old(self)@.metadata,
            match r {
                Some(db) => has_index(old(self)@.databases, index) && db@ == old(self)@.databases[first_with_index(old(self)@.databases, index, 0)].1 && final(self)@.databases == old(self)@.databases.remove(
                    first_with_index(old(self)@.databases, index, 0),
                ),
                None => !has_index(old(self)@.databases, index) && final(self)@.databases == old(self)@.databases,
            },
    {
        proof {
            use_type_invariant(&*self);
        }
        let ghost dbs = self@.databases;
        match self.find_database(index) {
            Some(i) => {
                let mut taken = RdbFile::new(Vec::new());
                core::mem::swap(self, &mut taken);
                let RdbFile { version, metadata, databases: mut databases } = taken;
                let (_, db) = databases.remove(i);
                let ghost left = database_views(databases@);
                proof {
                    assert(left =~= dbs.remove(i as int));
                    assert forall|a: int, b: int| 0 <= a < b < left.len() implies left[a].0
                        != left[b].0 by {
                        let a0 = if a < i {
                            a
                        } else {
                            a + 1
                        };
                        let b0 = if b < i {
                            b
                        } else {
                            b + 1
                        };
                        assert(dbs[a0].0 != dbs[b0].0);
                    }
                }
                *self = RdbFile { version, metadata, databases };
                Some(db)
            },
            None => None,
        }
    }

    /// Sets the database with index `index`: it replaces the database with
    /// that index, and is otherwise added at the end.
    pub fn insert_database(&mut self, index: u8, db: RedisDatabase)
        ensures
            final(self)@.version == old(self)@.version,
            final(self)@.metadata == old(self)@.metadata,
            final(self)@.databases == put_database(old(self)@.databases, index, db@),
            indices_distinct(final(self)@.databases),
    {
        proof {
            use_type_invariant(&*self);
        }
        let ghost dbs = self@.databases;
        let found = self.find_database(index);
        let mut taken = RdbFile::new(Vec::new());
        core::mem::swap(self, &mut taken);
        let RdbFile { version, metadata, databases: mut databases } = taken;
        match found {
            Some(i) => {
                databases[i] = (index, db);
            },
            None => {
                databases.push((index, db));
            },
        }
        let ghost now = database_views(databases@);
        proof {
            assert(now =~= put_database(dbs, index, db@));
            assert forall|a: int, b: int| 0 <= a < b < now.len() implies now[a].0 != now[b].0 by {
                if b < dbs.len() {
                    assert(dbs[a].0 != dbs[b].0);
                }
            }
        }
        *self = RdbFile { version, metadata, databases };
    }
}

/// Reads a snapshot. Fails with the error of the first field that cannot be
/// decoded; after an error the reader's position is unspecified. What
/// follows the end marker is left unread.
pub fn read_rdb(reader: &mut ByteReader) -> (r: Result<RdbFile>)
    ensures
        match (decode_rdb(old(reader).remaining()), r) {
            (Ok(m), Ok(rdb)) => rdb@ == m && m.wf() && m.encodable(),
            (Err(expected), Err(e)) => e == expected,
            _ => false,
        },
{
    proof {
        lemma_decoded_snapshot_wf(reader.remaining());
        lemma_decoded_snapshot_encodable(reader.remaining());
    }
    let version = read_header(reader)?;
    let metadata = read_metada(reader)?;
    let mut rdb = RdbFile { version, metadata, databases: Vec::new() };
    let ghost after_metadata = reader.remaining();
    assert(rdb@.databases =~= Seq::<(u8, Entries)>::empty());
    loop
        invariant
            match decode_rdb(old(reader).remaining()) {
                Ok(m) => m.wf() && m.encodable(),
                Err(_) => true,
            },
            decode_rdb(old(reader).remaining()) == with_databases(
                rdb@.version,
                rdb@.metadata,
                decode_databases(reader.remaining(), rdb@.databases),
            ),
        decreases reader.remaining().len(),
    {
        let ghost s = reader.remaining();
        let marker = reader.read_u8()?;
        if marker == EOF {
            return Ok(rdb);
        } else if marker == DB_SELECTOR {
            let db_index = reader.read_u8()?;
            assert(reader.remaining() =~= s.skip(2));
            proof {
                lemma_decode_database_shrinks(s.skip(2));
            }
            let (db, reached_eof) = read_db(reader)?;
            rdb.insert_database(db_index, db);
            if reached_eof {
                return Ok(rdb);
            }
        } else {
            return Err(RdbError::InvalidValueType(marker));
        }
    }
}

/// Appends the encoding of a snapshot: the header, the metadata, one
/// database block for each index, the end marker and a zero checksum.
/// Reading the bytes that were appended gives the snapshot back. Fails with
/// `InvalidVersion`, and appends nothing, when the version is not four ASCII
/// bytes; otherwise fails with `InvalidSizeEncoding` exactly when a name, a
/// key or a value is too long for the string encoding, and what was appended
/// before stays.
pub fn write_rdb(writer: &mut Vec<u8>, rdb: &RdbFile) -> (r: Result<()>)
    ensures
        match r {
            Ok(_) => rdb@.encodable() && rdb@.wf() && final(writer)@ == old(writer)@
                + rdb_encoding(rdb@) && decode_rdb(rdb_encoding(rdb@)) == Ok::<_, RdbError>(
                rdb@,
            ),
            Err(e) => !rdb@.encodable() && if valid_version(rdb@.version) {
                e == RdbError::InvalidSizeEncoding
            } else {
                e == RdbError::InvalidVersion && final(writer)@ == old(writer)@
            },
        },
{
    let ghost before = writer@;
    let ghost m = rdb@;
    proof {
        use_type_invariant(rdb);
    }
    write_header(writer, rdb.version.as_slice())?;
    write_metadata(writer, &rdb.metadata)?;
    let _ = rdb.metadata.len();
    assert(assoc_keys(m.metadata) =~= rdb.metadata.keys());
    let ghost head = writer@;
    let n = rdb.databases.len();
    let mut i: usize = 0;
    assert(m.databases.subrange(0, 0) =~= Seq::<(u8, Entries)>::empty());
    while i < n
        invariant
            i <= n,
            n == rdb.databases.len(),
            m == rdb@,
            valid_version(m.version),
            databases_encodable(m.databases.subrange(0, i as int)),
            forall|j: int| 0 <= j < i ==> distinct(assoc_keys((#[trigger] m.databases[j]).1)),
            writer@ == head + databases_encoding(m.databases.subrange(0, i as int)),
        decreases n - i,
    {
        let _ = rdb.databases[i].1.len();
        assert(assoc_keys(m.databases[i as int].1) =~= rdb.databases[i as int].1.data.keys());
        match write_database(writer, rdb.databases[i].0, &rdb.databases[i].1) {
            Ok(_) => {},
            Err(e) => {
                assert(!entries_encodable(m.databases[i as int].1));
                return Err(e);
            },
        }
        proof {
            let grown = m.databases.subrange(0, i + 1);
            assert(grown.drop_last() =~= m.databases.subrange(0, i as int));
            assert(grown.last() == m.databases[i as int]);
            assert forall|j: int| 0 <= j < grown.len() implies entries_encodable(
                (#[trigger] grown[j]).1,
            ) by {
                if j < i {
                    assert(m.databases.subrange(0, i as int)[j] == grown[j]);
                }
            }
        }
        i += 1;
    }
    assert(m.databases.subrange(0, i as int) =~= m.databases);
    writer.push(EOF);
    let mut k: usize = 0;
    while k < 8
        invariant
            k <= 8,
            writer@ == head + databases_encoding(m.databases) + seq![EOF] + Seq::new(
                k as nat,
                |j: int| 0u8,
            ),
        decreases 8 - k,
    {
        let ghost so_far = writer@;
        writer.push(0);
        k += 1;
        assert(writer@ =~= head + databases_encoding(m.databases) + seq![EOF] + Seq::new(
            k as nat,
            |j: int| 0u8,
        ));
    }
    assert(seq![EOF] + Seq::new(8, |j: int| 0u8) =~= trailer());
    assert(writer@ =~= before + rdb_encoding(m));
    proof {
        lemma_snapshot_round_trip(m);
    }
    Ok(())
}

} // verus!
