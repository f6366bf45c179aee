//! The database block of a snapshot: an optional size hint and the entries,
//! each an optional expiry, a value type and two strings.

use vstd::prelude::*;
use crate::byte_map::{assoc_keys, assoc_put, distinct, has_key, position,
    lemma_assoc_put_distinct, lemma_assoc_put_fresh};
use crate::encoding::{lemma_decode_size_shrinks, lemma_decoded_string_fits, decode_le32, decode_le64, decode_size, decode_string, le32_bytes,
    le64_bytes, lemma_decode_string_shrinks, lemma_le32_round_trip, lemma_le64_round_trip,
    lemma_size_round_trip, lemma_string_round_trip, push_le32, push_le64, read_le32, read_le64,
    push_size, read_size, read_string, size_limit, size_prefix, string_encoding, write_string,
    ByteReader, SizeField};
use crate::error::{RdbError, Result};
use crate::types::{Entries, Expiration, RedisDatabase, RedisValue, ValueModel};

verus! {

/// Announces a database block; the database's index follows.
pub const DB_SELECTOR: u8 = 0xFE;

/// The index of the database that the server loads and saves.
pub const DB_INDEX_0: u8 = 0x00;

/// Announces an expiry in seconds, four bytes, least significant first.
pub const EXPIRY_SECONDS: u8 = 0xFD;

/// Announces an expiry in milliseconds, eight bytes, least significant first.
pub const EXPIRY_MILLISECONDS: u8 = 0xFC;

/// Announces the size hint of a database block.
pub const RESIZEDB: u8 = 0xFB;

/// Ends the last database block.
pub const EOF: u8 = 0xFF;

/// The value type of a string entry.
pub const STRING_TYPE: u8 = 0x00;

/// The bytes that announce an entry's expiry; none for an entry without one.
pub open spec fn expiry_prefix(expires_at: Option<Expiration>) -> Seq<u8> {
    match expires_at {
        Some(Expiration::Seconds(secs)) => seq![EXPIRY_SECONDS] + le32_bytes(secs as nat),
        Some(Expiration::Milliseconds(ms)) => seq![EXPIRY_MILLISECONDS] + le64_bytes(ms as nat),
        None => Seq::<u8>::empty(),
    }
}

/// The encoding of one entry.
#[verifier::opaque]
pub open spec fn entry_encoding(key: Seq<u8>, value: ValueModel) -> Seq<u8> {
    expiry_prefix(value.expires_at) + seq![STRING_TYPE] + string_encoding(key) + string_encoding(
        value.value,
    )
}

/// The encoding of the entries of a database, in order.
pub open spec fn entries_encoding(entries: Entries) -> Seq<u8>
    decreases entries.len(),
{
    if entries.len() == 0 {
        Seq::<u8>::empty()
    } else {
        entries_encoding(entries.drop_last()) + entry_encoding(
            entries.last().0,
            entries.last().1,
        )
    }
}

/// How many entries have an expiry.
pub open spec fn expiring_count(entries: Entries) -> nat
    decreases entries.len(),
{
    if entries.len() == 0 {
        0
    } else {
        expiring_count(entries.drop_last()) + if entries.last().1.expires_at is Some {
            1nat
        } else {
            0nat
        }
    }
}

/// The size hint of a database block: the marker, the number of keys and
/// the number of expiring keys. The hint is optional, and a database with
/// more keys than the size encoding can tell is written without one.
pub open spec fn size_hint(entries: Entries) -> Seq<u8> {
    if entries.len() < size_limit() {
        seq![RESIZEDB] + size_prefix(entries.len()) + size_prefix(expiring_count(entries))
    } else {
        Seq::<u8>::empty()
    }
}

/// The encoding of a database block: the selector, the index, the size
/// hint, and the entries.
#[verifier::opaque]
pub open spec fn database_encoding(db_index: u8, entries: Entries) -> Seq<u8> {
    seq![DB_SELECTOR, db_index] + size_hint(entries) + entries_encoding(entries)
}

/// Whether a database can be written: every key and every value is short
/// enough for the string encoding.
pub open spec fn entries_encodable(entries: Entries) -> bool {
    forall|i: int|
        0 <= i < entries.len() ==> (#[trigger] entries[i]).0.len() < size_limit()
            && entries[i].1.value.len() < size_limit()
}

/// Decodes the value type and the two strings of an entry whose expiry has
/// been decoded.
pub open spec fn decode_key_value(s: Seq<u8>, expires_at: Option<Expiration>) -> Result<
    ((Seq<u8>, ValueModel), Seq<u8>),
> {
    match decode_string(s) {
        Err(e) => Err(e),
        Ok((key, after_key)) => match decode_string(after_key) {
            Err(e) => Err(e),
            Ok((value, rest)) => Ok(((key, ValueModel { value, expires_at }), rest)),
        },
    }
}

/// Decodes the value type that follows an expiry, then the two strings.
pub open spec fn decode_typed(s: Seq<u8>, expires_at: Option<Expiration>) -> Result<
    ((Seq<u8>, ValueModel), Seq<u8>),
> {
    if s.len() < 1 {
        Err(RdbError::UnexpectedEof)
    } else if s[0] != STRING_TYPE {
        Err(RdbError::InvalidValueType(s[0]))
    } else {
        decode_key_value(s.skip(1), expires_at)
    }
}

/// Decodes the entry at the start of `s`, which begins with an expiry marker
/// or with the value type of a string.
#[verifier::opaque]
pub open spec fn decode_entry(s: Seq<u8>) -> Result<((Seq<u8>, ValueModel), Seq<u8>)> {
    if s.len() < 1 {
        Err(RdbError::UnexpectedEof)
    } else if s[0] == EXPIRY_SECONDS {
        match decode_le32(s.skip(1)) {
            Err(e) => Err(e),
            Ok((secs, rest)) => decode_typed(rest, Some(Expiration::Seconds(secs))),
        }
    } else if s[0] == EXPIRY_MILLISECONDS {
        match decode_le64(s.skip(1)) {
            Err(e) => Err(e),
            Ok((ms, rest)) => decode_typed(rest, Some(Expiration::Milliseconds(ms))),
        }
    } else if s[0] == STRING_TYPE {
        decode_key_value(s.skip(1), None)
    } else {
        Err(RdbError::InvalidValueType(s[0]))
    }
}

/// The two strings of an entry consume at least one byte each.
pub proof fn lemma_decode_key_value_shrinks(s: Seq<u8>, expires_at: Option<Expiration>)
    ensures
        match decode_key_value(s, expires_at) {
            Ok((_, rest)) => rest.len() < s.len(),
            Err(_) => true,
        },
{
    lemma_decode_string_shrinks(s);
    if decode_string(s) is Ok {
        lemma_decode_string_shrinks(decode_string(s)->Ok_0.1);
    }
}

/// An entry consumes at least its first byte.
pub proof fn lemma_decode_entry_shrinks(s: Seq<u8>)
    ensures
        match decode_entry(s) {
            Ok((_, rest)) => rest.len() < s.len(),
            Err(_) => true,
        },
{
    reveal(decode_entry);
    if s.len() >= 1 {
        if s[0] == EXPIRY_SECONDS {
            if s.skip(1).len() >= 4 && s.skip(1).skip(4).len() >= 1 {
                lemma_decode_key_value_shrinks(
                    s.skip(1).skip(4).skip(1),
                    Some(Expiration::Seconds(decode_le32(s.skip(1))->Ok_0.0)),
                );
            }
        } else if s[0] == EXPIRY_MILLISECONDS {
            if s.skip(1).len() >= 8 && s.skip(1).skip(8).len() >= 1 {
                lemma_decode_key_value_shrinks(
                    s.skip(1).skip(8).skip(1),
                    Some(Expiration::Milliseconds(decode_le64(s.skip(1))->Ok_0.0)),
                );
            }
        } else if s[0] == STRING_TYPE {
            lemma_decode_key_value_shrinks(s.skip(1), None);
        }
    }
}

/// Decodes entries from the start of `s`, binding each in `acc`, up to the
/// end of the block. The block ends at the end marker, which is consumed and
/// reported as `true`, or before the selector of the next block.
pub open spec fn decode_entries(s: Seq<u8>, acc: Entries) -> Result<((Entries, bool), Seq<u8>)>
    decreases s.len(),
{
    if s.len() == 0 {
        Err(RdbError::UnexpectedEof)
    } else if s[0] == EOF {
        Ok(((acc, true), s.skip(1)))
    } else if s[0] == DB_SELECTOR {
        Ok(((acc, false), s))
    } else {
        match decode_entry(s) {
            Err(e) => Err(e),
            Ok(((key, value), rest)) => {
                proof {
                    lemma_decode_entry_shrinks(s);
                }
                decode_entries(rest, assoc_put(acc, key, value))
            },
        }
    }
}

/// Decodes the two sizes of a size hint, which are not kept.
pub open spec fn decode_hint(s: Seq<u8>) -> Result<Seq<u8>> {
    match decode_size(s) {
        Err(e) => Err(e),
        Ok((SizeField::Special(_), _)) => Err(RdbError::InvalidSizeEncoding),
        Ok((SizeField::Length(_), after_keys)) => match decode_size(after_keys) {
            Err(e) => Err(e),
            Ok((SizeField::Special(_), _)) => Err(RdbError::InvalidSizeEncoding),
            Ok((SizeField::Length(_), rest)) => Ok(rest),
        },
    }
}

/// Decodes what follows the index of a database block: the optional size
/// hint and the entries.
#[verifier::opaque]
pub open spec fn decode_database(s: Seq<u8>) -> Result<((Entries, bool), Seq<u8>)> {
    if s.len() > 0 && s[0] == RESIZEDB {
        match decode_hint(s.skip(1)) {
            Err(e) => Err(e),
            Ok(rest) => decode_entries(rest, Seq::empty()),
        }
    } else {
        decode_entries(s, Seq::empty())
    }
}

/// The value type and the two strings of an entry decode to the entry.
pub proof fn lemma_key_value_round_trip(key: Seq<u8>, value: ValueModel, tail: Seq<u8>)
    requires
        key.len() < size_limit(),
        value.value.len() < size_limit(),
    ensures
        decode_typed(
            seq![STRING_TYPE] + string_encoding(key) + string_encoding(value.value) + tail,
            value.expires_at,
        ) == Ok::<_, RdbError>(((key, value), tail)),
{
    let s = seq![STRING_TYPE] + string_encoding(key) + string_encoding(value.value) + tail;
    lemma_string_round_trip(key, string_encoding(value.value) + tail);
    lemma_string_round_trip(value.value, tail);
    assert(s.skip(1) =~= string_encoding(key) + (string_encoding(value.value) + tail));
}

/// An entry that was written decodes to itself, whatever follows it.
pub proof fn lemma_entry_round_trip(key: Seq<u8>, value: ValueModel, tail: Seq<u8>)
    requires
        key.len() < size_limit(),
        value.value.len() < size_limit(),
    ensures
        decode_entry(entry_encoding(key, value) + tail) == Ok::<_, RdbError>(((key, value), tail)),
        (entry_encoding(key, value) + tail).len() > 0,
        (entry_encoding(key, value) + tail)[0] != EOF,
        (entry_encoding(key, value) + tail)[0] != DB_SELECTOR,
{
    reveal(decode_entry);
    reveal(entry_encoding);
    let s = entry_encoding(key, value) + tail;
    let typed = seq![STRING_TYPE] + string_encoding(key) + string_encoding(value.value) + tail;
    lemma_key_value_round_trip(key, value, tail);
    match value.expires_at {
        Some(Expiration::Seconds(secs)) => {
            lemma_le32_round_trip(secs, typed);
            assert(s[0] == EXPIRY_SECONDS);
            assert(s.skip(1) =~= le32_bytes(secs as nat) + typed);
        },
        Some(Expiration::Milliseconds(ms)) => {
            lemma_le64_round_trip(ms, typed);
            assert(s[0] == EXPIRY_MILLISECONDS);
            assert(s.skip(1) =~= le64_bytes(ms as nat) + typed);
        },
        None => {
            assert(s =~= typed);
            assert(s[0] == STRING_TYPE);
        },
    }
}

/// Entries that were written decode to themselves, after those that were
/// there before.
pub proof fn lemma_entries_round_trip(entries: Entries, acc: Entries, tail: Seq<u8>)
    requires
        forall|i: int|
            0 <= i < entries.len() ==> (#[trigger] entries[i]).0.len() < size_limit()
                && entries[i].1.value.len() < size_limit(),
        distinct(assoc_keys(acc + entries)),
    ensures
        decode_entries(entries_encoding(entries) + tail, acc) == decode_entries(
            tail,
            acc + entries,
        ),
    decreases entries.len(),
{
    if entries.len() == 0 {
        assert(entries_encoding(entries) + tail =~= tail);
        assert(acc + entries =~= acc);
    } else {
        let front = entries.drop_last();
        let (key, value) = entries.last();
        let last = entry_encoding(key, value);
        assert(acc + front =~= (acc + entries).drop_last());
        assert(distinct(assoc_keys(acc + front))) by {
            let all = assoc_keys(acc + entries);
            let fewer = assoc_keys(acc + front);
            assert forall|i: int, j: int| 0 <= i < j < fewer.len() implies fewer[i] != fewer[j] by {
                assert(all[i] != all[j]);
            }
        }
        assert forall|i: int| 0 <= i < front.len() implies (#[trigger] front[i]).0.len()
            < size_limit() && front[i].1.value.len() < size_limit() by {
            assert(front[i] == entries[i]);
        }
        lemma_entries_round_trip(front, acc, last + tail);
        assert(entries_encoding(entries) + tail =~= entries_encoding(front) + (last + tail));
        assert(entries[entries.len() - 1] == (key, value));
        lemma_entry_round_trip(key, value, tail);
        assert(!has_key(assoc_keys(acc + front), key)) by {
            let all = assoc_keys(acc + entries);
            let fewer = assoc_keys(acc + front);
            if has_key(fewer, key) {
                let i = choose|i: int| 0 <= i < fewer.len() && fewer[i] == key;
                assert(all[i] == fewer[i]);
                assert(all[all.len() - 1] == key);
                assert(all[i] != all[all.len() - 1]);
            }
        }
        lemma_assoc_put_fresh(acc + front, key, value);
        assert((acc + front).push((key, value)) =~= acc + entries);
    }
}

/// The number of expiring entries is at most the number of entries.
pub proof fn lemma_expiring_count_bound(entries: Entries)
    ensures
        expiring_count(entries) <= entries.len(),
    decreases entries.len(),
{
    if entries.len() > 0 {
        lemma_expiring_count_bound(entries.drop_last());
    }
}

/// The encoding of entries, where there are any, begins with the first
/// byte of an entry, which is not the marker of a size hint.
pub proof fn lemma_entries_first_byte(entries: Entries)
    requires
        entries.len() > 0,
    ensures
        entries_encoding(entries).len() > 0,
        entries_encoding(entries)[0] != RESIZEDB,
    decreases entries.len(),
{
    reveal(entry_encoding);
    let front = entries.drop_last();
    let last = entry_encoding(entries.last().0, entries.last().1);
    assert(last.len() > 0 && last[0] != RESIZEDB) by {
        match entries.last().1.expires_at {
            Some(Expiration::Seconds(secs)) => {},
            Some(Expiration::Milliseconds(ms)) => {},
            None => {},
        }
    }
    if front.len() > 0 {
        lemma_entries_first_byte(front);
    } else {
        assert(entries_encoding(front) =~= Seq::<u8>::empty());
    }
}

/// What follows the index of a database block that was written decodes to
/// the database's entries.
pub proof fn lemma_database_round_trip(db_index: u8, entries: Entries, tail: Seq<u8>)
    requires
        entries_encodable(entries),
        distinct(assoc_keys(entries)),
    ensures
        database_encoding(db_index, entries).len() >= 2,
        database_encoding(db_index, entries)[0] == DB_SELECTOR,
        database_encoding(db_index, entries)[1] == db_index,
        decode_database((database_encoding(db_index, entries) + tail).skip(2)) == decode_entries(
            tail,
            entries,
        ),
{
    reveal(decode_database);
    reveal(database_encoding);
    let s = (database_encoding(db_index, entries) + tail).skip(2);
    let body = entries_encoding(entries) + tail;
    assert(Seq::<(Seq<u8>, ValueModel)>::empty() + entries =~= entries);
    lemma_entries_round_trip(entries, Seq::empty(), tail);
    if entries.len() < size_limit() {
        let second = size_prefix(expiring_count(entries)) + body;
        lemma_expiring_count_bound(entries);
        assert(s[0] == RESIZEDB);
        assert(s.skip(1) =~= size_prefix(entries.len()) + second);
        lemma_size_round_trip(entries.len(), second);
        lemma_size_round_trip(expiring_count(entries), body);
    } else {
        lemma_entries_first_byte(entries);
        assert(s =~= body);
        assert(s[0] == entries_encoding(entries)[0]);
    }
}

/// Decoding binds entries without ever holding a key twice.
pub proof fn lemma_decode_entries_distinct(s: Seq<u8>, acc: Entries)
    requires
        distinct(assoc_keys(acc)),
    ensures
        match decode_entries(s, acc) {
            Ok(((entries, _), rest)) => distinct(assoc_keys(entries)) && rest.len() <= s.len(),
            Err(_) => true,
        },
    decreases s.len(),
{
    if s.len() > 0 && s[0] != EOF && s[0] != DB_SELECTOR {
        match decode_entry(s) {
            Err(e) => {},
            Ok(((key, value), rest)) => {
                lemma_decode_entry_shrinks(s);
                lemma_assoc_put_distinct(acc, key, value);
                lemma_decode_entries_distinct(rest, assoc_put(acc, key, value));
            },
        }
    }
}

/// The key and the value of an entry that was decoded can be written
/// again.
pub proof fn lemma_decoded_entry_fits(s: Seq<u8>)
    ensures
        match decode_entry(s) {
            Ok(((key, value), _)) => key.len() < size_limit() && value.value.len() < size_limit(),
            Err(_) => true,
        },
{
    reveal(decode_entry);
    if s.len() >= 1 {
        let strings = if s[0] == EXPIRY_SECONDS {
            s.skip(1).skip(4).skip(1)
        } else if s[0] == EXPIRY_MILLISECONDS {
            s.skip(1).skip(8).skip(1)
        } else {
            s.skip(1)
        };
        lemma_decoded_string_fits(strings);
        if decode_string(strings) is Ok {
            lemma_decoded_string_fits(decode_string(strings)->Ok_0.1);
        }
    }
}

/// Binding a key to a value that can be written keeps a database writable.
pub proof fn lemma_put_entry_encodable(acc: Entries, key: Seq<u8>, value: ValueModel)
    requires
        entries_encodable(acc),
        key.len() < size_limit(),
        value.value.len() < size_limit(),
    ensures
        entries_encodable(assoc_put(acc, key, value)),
{
    let after = assoc_put(acc, key, value);
    assert forall|i: int| 0 <= i < after.len() implies (#[trigger] after[i]).0.len()
        < size_limit() && after[i].1.value.len() < size_limit() by {
        match position(assoc_keys(acc), key) {
            Some(k) => {
                if i != k {
                    assert(after[i] == acc[i]);
                }
            },
            None => {
                if i < acc.len() {
                    assert(after[i] == acc[i]);
                }
            },
        }
    }
}

/// The entries that were decoded can be written again.
pub proof fn lemma_decode_entries_encodable(s: Seq<u8>, acc: Entries)
    requires
        entries_encodable(acc),
    ensures
        match decode_entries(s, acc) {
            Ok(((entries, _), _)) => entries_encodable(entries),
            Err(_) => true,
        },
    decreases s.len(),
{
    if s.len() > 0 && s[0] != EOF && s[0] != DB_SELECTOR {
        match decode_entry(s) {
            Err(e) => {},
            Ok(((key, value), rest)) => {
                lemma_decode_entry_shrinks(s);
                lemma_decoded_entry_fits(s);
                lemma_put_entry_encodable(acc, key, value);
                lemma_decode_entries_encodable(rest, assoc_put(acc, key, value));
            },
        }
    }
}

/// The database that was decoded can be written again.
pub proof fn lemma_decode_database_encodable(s: Seq<u8>)
    ensures
        match decode_database(s) {
            Ok(((entries, _), _)) => entries_encodable(entries),
            Err(_) => true,
        },
{
    reveal(decode_database);
    if s.len() > 0 && s[0] == RESIZEDB {
        if decode_hint(s.skip(1)) is Ok {
            lemma_decode_entries_encodable(decode_hint(s.skip(1))->Ok_0, Seq::empty());
        }
    } else {
        lemma_decode_entries_encodable(s, Seq::empty());
    }
}

/// A database block leaves no more bytes than it was given.
pub proof fn lemma_decode_database_shrinks(s: Seq<u8>)
    ensures
        match decode_database(s) {
            Ok(((entries, _), rest)) => distinct(assoc_keys(entries)) && rest.len() <= s.len(),
            Err(_) => true,
        },
{
    reveal(decode_database);
    assert(distinct(assoc_keys(Seq::<(Seq<u8>, ValueModel)>::empty())));
    if s.len() > 0 && s[0] == RESIZEDB {
        lemma_decode_size_shrinks(s.skip(1));
        if decode_size(s.skip(1)) is Ok {
            lemma_decode_size_shrinks(decode_size(s.skip(1))->Ok_0.1);
        }
        if decode_hint(s.skip(1)) is Ok {
            lemma_decode_entries_distinct(decode_hint(s.skip(1))->Ok_0, Seq::empty());
        }
    } else {
        lemma_decode_entries_distinct(s, Seq::empty());
    }
}

/// Reads the value type and the two strings of an entry and binds the key
/// in `db`.
fn read_key_value(reader: &mut ByteReader, db: &mut RedisDatabase, expires_at: Option<Expiration>) -> (r:
    Result<()>)
    ensures
        match (decode_key_value(old(reader).remaining(), expires_at), r) {
            (Ok(((key, value), rest)), Ok(_)) => final(db)@ == assoc_put(old(db)@, key, value)
                && final(reader).remaining() == rest,
            (Err(expected), Err(e)) => e == expected,
            _ => false,
        },
{
    let key = match read_string(reader) {
        Ok(k) => k,
        Err(e) => {
            return Err(e);
        },
    };
    let value = match read_string(reader) {
        Ok(v) => v,
        Err(e) => {
            return Err(e);
        },
    };
    db.insert(key, RedisValue { value, expires_at });
    Ok(())
}

/// Reads the value type after an expiry, then the two strings.
fn read_typed(reader: &mut ByteReader, db: &mut RedisDatabase, expires_at: Option<Expiration>) -> (r:
    Result<()>)
    ensures
        match (decode_typed(old(reader).remaining(), expires_at), r) {
            (Ok(((key, value), rest)), Ok(_)) => final(db)@ == assoc_put(old(db)@, key, value)
                && final(reader).remaining() == rest,
            (Err(expected), Err(e)) => e == expected,
            _ => false,
        },
{
    let value_type = match reader.read_u8() {
        Ok(b) => b,
        Err(e) => {
            return Err(e);
        },
    };
    if value_type != STRING_TYPE {
        return Err(RdbError::InvalidValueType(value_type));
    }
    read_key_value(reader, db, expires_at)
}

/// Reads one entry, whose first byte has been seen but not consumed, and
/// binds its key in `db`.
fn read_entry(reader: &mut ByteReader, db: &mut RedisDatabase) -> (r: Result<()>)
    ensures
        match (decode_entry(old(reader).remaining()), r) {
            (Ok(((key, value), rest)), Ok(_)) => final(db)@ == assoc_put(old(db)@, key, value)
                && final(reader).remaining() == rest,
            (Err(expected), Err(e)) => e == expected,
            _ => false,
        },
{
    proof {
        reveal(decode_entry);
    }
    let marker = reader.read_u8()?;
    if marker == EXPIRY_SECONDS {
        let secs = read_le32(reader)?;
        read_typed(reader, db, Some(Expiration::Seconds(secs)))
    } else if marker == EXPIRY_MILLISECONDS {
        let ms = read_le64(reader)?;
        read_typed(reader, db, Some(Expiration::Milliseconds(ms)))
    } else if marker == STRING_TYPE {
        read_key_value(reader, db, None)
    } else {
        Err(RdbError::InvalidValueType(marker))
    }
}

/// Reads the two sizes of a size hint, which are not kept.
fn read_hint(reader: &mut ByteReader) -> (r: Result<()>)
    ensures
        match (decode_hint(old(reader).remaining()), r) {
            (Ok(rest), Ok(_)) => final(reader).remaining() == rest,
            (Err(expected), Err(e)) => e == expected,
            _ => false,
        },
{
    let (_, tag) = read_size(reader)?;
    if tag.is_some() {
        return Err(RdbError::InvalidSizeEncoding);
    }
    let (_, tag) = read_size(reader)?;
    if tag.is_some() {
        return Err(RdbError::InvalidSizeEncoding);
    }
    Ok(())
}

/// Reads what follows the index of a database block: the optional size hint
/// and the entries, up to the end marker or the selector of the next block.
/// Returns the database and whether the end marker was reached. After an
/// error the reader's position is unspecified.
pub fn read_db(reader: &mut ByteReader) -> (r: Result<(RedisDatabase, bool)>)
    ensures
        match (decode_database(old(reader).remaining()), r) {
            (Ok(((entries, at_end), rest)), Ok((db, reached_eof))) => db@ == entries
                && reached_eof == at_end && final(reader).remaining() == rest,
            (Err(expected), Err(e)) => e == expected,
            _ => false,
        },
{
    proof {
        reveal(decode_database);
    }
    let mut db = RedisDatabase::new();
    if reader.peek() == Some(RESIZEDB) {
        let _ = reader.read_u8()?;
        read_hint(reader)?;
    }
    let ghost start = reader.remaining();
    assert(decode_database(old(reader).remaining()) == decode_entries(start, Seq::empty()));
    loop
        invariant
            decode_database(old(reader).remaining()) == decode_entries(reader.remaining(), db@),
        decreases reader.remaining().len(),
    {
        let ghost s = reader.remaining();
        let marker = match reader.peek() {
            Some(b) => b,
            None => {
                return Err(RdbError::UnexpectedEof);
            },
        };
        if marker == EOF {
            let _ = reader.read_u8()?;
            return Ok((db, true));
        } else if marker == DB_SELECTOR {
            return Ok((db, false));
        }
        proof {
            lemma_decode_entry_shrinks(s);
        }
        read_entry(reader, &mut db)?;
    }
}

/// How many entries of `db` have an expiry.
fn count_expiring(db: &RedisDatabase) -> (r: usize)
    ensures
        r == expiring_count(db@),
{
    let n = db.data.len();
    let mut count: usize = 0;
    let mut i: usize = 0;
    assert(db@.subrange(0, 0) =~= Seq::<(Seq<u8>, ValueModel)>::empty());
    while i < n
        invariant
            i <= n,
            n == db@.len(),
            n == db.data.vals().len(),
            count == expiring_count(db@.subrange(0, i as int)),
            count <= i,
        decreases n - i,
    {
        proof {
            let grown = db@.subrange(0, i + 1);
            assert(grown.drop_last() =~= db@.subrange(0, i as int));
            assert(grown.last() == db@[i as int]);
        }
        if db.data.value_at(i).expires_at.is_some() {
            count += 1;
        }
        i += 1;
    }
    assert(db@.subrange(0, i as int) =~= db@);
    count
}

/// Appends the encoding of one entry. Fails with `InvalidSizeEncoding`
/// exactly when the key or the value is too long for the string encoding.
fn write_entry(writer: &mut Vec<u8>, key: &Vec<u8>, value: &RedisValue) -> (r: Result<()>)
    ensures
        match r {
            Ok(_) => key@.len() < size_limit() && value@.value.len() < size_limit() && final(writer)@ == old(writer)@ + entry_encoding(key@, value@),
            Err(e) => e == RdbError::InvalidSizeEncoding && !(key@.len() < size_limit()
                && value@.value.len() < size_limit()),
        },
{
    proof {
        reveal(entry_encoding);
    }
    let ghost before = writer@;
    match value.expires_at {
        Some(Expiration::Seconds(secs)) => {
            writer.push(EXPIRY_SECONDS);
            push_le32(writer, secs);
        },
        Some(Expiration::Milliseconds(ms)) => {
            writer.push(EXPIRY_MILLISECONDS);
            push_le64(writer, ms);
        },
        None => {},
    }
    assert(writer@ =~= before + expiry_prefix(value.expires_at));
    writer.push(STRING_TYPE);
    write_string(writer, key.as_slice())?;
    write_string(writer, value.value.as_slice())?;
    assert(writer@ =~= before + entry_encoding(key@, value@));
    Ok(())
}

/// Appends the database block of `db` under the index `db_index`. Fails
/// with `InvalidSizeEncoding` exactly when a key or a value is too long for
/// the string encoding; what was appended before the failure stays.
pub fn write_database(writer: &mut Vec<u8>, db_index: u8, db: &RedisDatabase) -> (r: Result<()>)
    ensures
        match r {
            Ok(_) => entries_encodable(db@) && final(writer)@ == old(writer)@ + database_encoding(
                db_index,
                db@,
            ),
            Err(e) => e == RdbError::InvalidSizeEncoding && !entries_encodable(db@),
        },
{
    proof {
        reveal(database_encoding);
    }
    let ghost before = writer@;
    let ghost entries = db@;
    writer.push(DB_SELECTOR);
    writer.push(db_index);
    let n = db.data.len();
    if n <= 0xFFFF_FFFF {
        let expiring = count_expiring(db);
        proof {
            lemma_expiring_count_bound(entries);
        }
        writer.push(RESIZEDB);
        push_size(writer, n);
        push_size(writer, expiring);
    }
    let ghost head = writer@;
    assert(head =~= before + (seq![DB_SELECTOR, db_index] + size_hint(entries)));
    let mut i: usize = 0;
    assert(entries.subrange(0, 0) =~= Seq::<(Seq<u8>, ValueModel)>::empty());
    while i < n
        invariant
            i <= n,
            n == entries.len(),
            n == db.data.keys().len(),
            n == db.data.vals().len(),
            entries == db@,
            forall|j: int|
                0 <= j < i ==> (#[trigger] entries[j]).0.len() < size_limit()
                    && entries[j].1.value.len() < size_limit(),
            writer@ == head + entries_encoding(entries.subrange(0, i as int)),
        decreases n - i,
    {
        let ghost so_far = writer@;
        match write_entry(writer, db.data.key_at(i), db.data.value_at(i)) {
            Ok(_) => {},
            Err(e) => {
                assert(!(entries[i as int].0.len() < size_limit() && entries[i as int].1.value.len()
                    < size_limit()));
                return Err(e);
            },
        }
        proof {
            let grown = entries.subrange(0, i + 1);
            assert(grown.drop_last() =~= entries.subrange(0, i as int));
            assert(grown.last() == entries[i as int]);
            assert(writer@ =~= head + entries_encoding(grown));
        }
        i += 1;
    }
    assert(entries.subrange(0, i as int) =~= entries);
    assert(writer@ =~= before + database_encoding(db_index, entries));
    Ok(())
}

} // verus!
