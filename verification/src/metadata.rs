//! The metadata section of a snapshot: zero or more named attributes, each
//! announced by a marker byte and stored as two strings.

use vstd::prelude::*;
use crate::byte_map::{assoc_keys, assoc_put, distinct, has_key, position, ByteMap,
    lemma_assoc_put_distinct, lemma_assoc_put_fresh};
use crate::encoding::{decode_string, lemma_decode_string_shrinks, lemma_decoded_string_fits,
    lemma_string_round_trip,
    read_string, size_limit, string_encoding, write_string, ByteReader};
use crate::error::{RdbError, Result};

verus! {

/// The byte that announces a metadata attribute.
pub const METADATA_START: u8 = 0xFA;

/// Metadata attributes, in the order of first insertion.
pub type Pairs = Seq<(Seq<u8>, Seq<u8>)>;

/// The attributes that a metadata map holds.
pub open spec fn pairs_of(m: &ByteMap<Vec<u8>>) -> Pairs {
    Seq::new(m.keys().len(), |i: int| (m.keys()[i], m.vals()[i]@))
}

/// Decodes the metadata section at the start of `s`, adding its attributes
/// to `acc`. The section ends before the first byte that is not the marker;
/// that byte stays in the rest.
pub open spec fn decode_metadata(s: Seq<u8>, acc: Pairs) -> Result<(Pairs, Seq<u8>)>
    decreases s.len(),
{
    if s.len() == 0 {
        Err(RdbError::UnexpectedEof)
    } else if s[0] != METADATA_START {
        Ok((acc, s))
    } else {
        match decode_string(s.skip(1)) {
            Err(e) => Err(e),
            Ok((name, after_name)) => match decode_string(after_name) {
                Err(e) => Err(e),
                Ok((value, rest)) => {
                    proof {
                        lemma_decode_string_shrinks(s.skip(1));
                        lemma_decode_string_shrinks(after_name);
                    }
                    decode_metadata(rest, assoc_put(acc, name, value))
                },
            },
        }
    }
}

/// The encoding of one attribute.
pub open spec fn pair_encoding(name: Seq<u8>, value: Seq<u8>) -> Seq<u8> {
    seq![METADATA_START] + string_encoding(name) + string_encoding(value)
}

/// The encoding of a metadata section.
pub open spec fn metadata_encoding(pairs: Pairs) -> Seq<u8>
    decreases pairs.len(),
{
    if pairs.len() == 0 {
        Seq::<u8>::empty()
    } else {
        metadata_encoding(pairs.drop_last()) + pair_encoding(pairs.last().0, pairs.last().1)
    }
}

/// Whether every name and value is short enough for the string encoding.
pub open spec fn pairs_encodable(pairs: Pairs) -> bool {
    forall|i: int|
        0 <= i < pairs.len() ==> (#[trigger] pairs[i]).0.len() < size_limit() && pairs[i].1.len()
            < size_limit()
}

/// A metadata section that was written decodes to its attributes, after
/// those that were there before, when something other than the marker
/// follows it.
pub proof fn lemma_metadata_round_trip(pairs: Pairs, acc: Pairs, tail: Seq<u8>)
    requires
        pairs_encodable(pairs),
        distinct(assoc_keys(acc + pairs)),
    ensures
        decode_metadata(metadata_encoding(pairs) + tail, acc) == decode_metadata(tail, acc + pairs),
    decreases pairs.len(),
{
    if pairs.len() == 0 {
        assert(metadata_encoding(pairs) + tail =~= tail);
        assert(acc + pairs =~= acc);
    } else {
        let front = pairs.drop_last();
        let (name, value) = pairs.last();
        let last = pair_encoding(name, value);
        assert(acc + front =~= (acc + pairs).drop_last());
        assert(distinct(assoc_keys(acc + front))) by {
            let all = assoc_keys(acc + pairs);
            let fewer = assoc_keys(acc + front);
            assert forall|i: int, j: int| 0 <= i < j < fewer.len() implies fewer[i] != fewer[j] by {
                assert(all[i] != all[j]);
            }
        }
        lemma_metadata_round_trip(front, acc, last + tail);
        assert(metadata_encoding(pairs) + tail =~= metadata_encoding(front) + (last + tail));
        // one step of the decoder over the last attribute
        let s = last + tail;
        assert(s[0] == METADATA_START);
        assert(s.skip(1) =~= string_encoding(name) + (string_encoding(value) + tail));
        lemma_string_round_trip(name, string_encoding(value) + tail);
        lemma_string_round_trip(value, tail);
        assert(!has_key(assoc_keys(acc + front), name)) by {
            let all = assoc_keys(acc + pairs);
            let fewer = assoc_keys(acc + front);
            if has_key(fewer, name) {
                let i = choose|i: int| 0 <= i < fewer.len() && fewer[i] == name;
                assert(all[i] == fewer[i]);
                assert(all[all.len() - 1] == name);
                assert(all[i] != all[all.len() - 1]);
            }
        }
        lemma_assoc_put_fresh(acc + front, name, value);
        assert((acc + front).push((name, value)) =~= acc + pairs);
    }
}

/// Decoding adds attributes without ever holding a name twice.
pub proof fn lemma_decode_metadata_distinct(s: Seq<u8>, acc: Pairs)
    requires
        distinct(assoc_keys(acc)),
    ensures
        match decode_metadata(s, acc) {
            Ok((pairs, rest)) => distinct(assoc_keys(pairs)) && rest.len() <= s.len(),
            Err(_) => true,
        },
    decreases s.len(),
{
    if s.len() > 0 && s[0] == METADATA_START {
        match decode_string(s.skip(1)) {
            Err(e) => {},
            Ok((name, after_name)) => match decode_string(after_name) {
                Err(e) => {},
                Ok((value, rest)) => {
                    lemma_decode_string_shrinks(s.skip(1));
                    lemma_decode_string_shrinks(after_name);
                    lemma_assoc_put_distinct(acc, name, value);
                    lemma_decode_metadata_distinct(rest, assoc_put(acc, name, value));
                },
            },
        }
    }
}

/// Binding a name to a value that can be written keeps every attribute
/// writable.
pub proof fn lemma_put_pair_encodable(acc: Pairs, name: Seq<u8>, value: Seq<u8>)
    requires
        pairs_encodable(acc),
        name.len() < size_limit(),
        value.len() < size_limit(),
    ensures
        pairs_encodable(assoc_put(acc, name, value)),
{
    let after = assoc_put(acc, name, value);
    assert forall|i: int| 0 <= i < after.len() implies (#[trigger] after[i]).0.len()
        < size_limit() && after[i].1.len() < size_limit() by {
        match position(assoc_keys(acc), name) {
            Some(k) => {
                if i != k {
                    assert(after[i] == acc[i]);
                }
            },
            None => {
                if i < acc.len() {
                    assert(after[i] == acc[i]);
                }
            },
        }
    }
}

/// The attributes that were decoded can be written again.
pub proof fn lemma_decode_metadata_encodable(s: Seq<u8>, acc: Pairs)
    requires
        pairs_encodable(acc),
    ensures
        match decode_metadata(s, acc) {
            Ok((pairs, _)) => pairs_encodable(pairs),
            Err(_) => true,
        },
    decreases s.len(),
{
    if s.len() > 0 && s[0] == METADATA_START {
        match decode_string(s.skip(1)) {
            Err(e) => {},
            Ok((name, after_name)) => match decode_string(after_name) {
                Err(e) => {},
                Ok((value, rest)) => {
                    lemma_decode_string_shrinks(s.skip(1));
                    lemma_decode_string_shrinks(after_name);
                    lemma_decoded_string_fits(s.skip(1));
                    lemma_decoded_string_fits(after_name);
                    lemma_put_pair_encodable(acc, name, value);
                    lemma_decode_metadata_encodable(rest, assoc_put(acc, name, value));
                },
            },
        }
    }
}

/// Reads the metadata section. The byte that ends it stays unconsumed.
/// After an error the reader's position is unspecified.
pub fn read_metada(reader: &mut ByteReader) -> (r: Result<ByteMap<Vec<u8>>>)
    ensures
        match (decode_metadata(old(reader).remaining(), Seq::empty()), r) {
            (Ok((pairs, rest)), Ok(m)) => pairs_of(&m) == pairs && final(reader).remaining()
                == rest,
            (Err(expected), Err(e)) => e == expected,
            _ => false,
        },
{
    let mut metadata: ByteMap<Vec<u8>> = ByteMap::new();
    assert(pairs_of(&metadata) =~= Seq::<(Seq<u8>, Seq<u8>)>::empty());
    loop
        invariant
            decode_metadata(old(reader).remaining(), Seq::empty()) == decode_metadata(
                reader.remaining(),
                pairs_of(&metadata),
            ),
        decreases reader.remaining().len(),
    {
        let ghost s = reader.remaining();
        let ghost acc = pairs_of(&metadata);
        match reader.peek() {
            None => {
                return Err(RdbError::UnexpectedEof);
            },
            Some(b) => {
                if b != METADATA_START {
                    return Ok(metadata);
                }
            },
        }
        let _ = reader.read_u8()?;
        let name = read_string(reader)?;
        let value = read_string(reader)?;
        proof {
            lemma_decode_string_shrinks(s.skip(1));
            lemma_decode_string_shrinks(decode_string(s.skip(1))->Ok_0.1);
            assert(assoc_keys(acc) =~= metadata.keys());
        }
        let ghost name_view = name@;
        let ghost value_view = value@;
        metadata.insert(name, value);
        proof {
            match position(assoc_keys(acc), name_view) {
                Some(i) => {
                    assert(has_key(assoc_keys(acc), name_view));
                    assert(assoc_keys(acc)[i] == name_view);
                    assert(pairs_of(&metadata) =~= acc.update(i, (name_view, value_view)));
                },
                None => {
                    assert(pairs_of(&metadata) =~= acc.push((name_view, value_view)));
                },
            }
        }
    }
}

/// Appends the metadata section. Fails with `InvalidSizeEncoding` exactly
/// when a name or a value is too long for the string encoding; what was
/// appended before the failure stays.
pub fn write_metadata(writer: &mut Vec<u8>, metadata: &ByteMap<Vec<u8>>) -> (r: Result<()>)
    ensures
        match r {
            Ok(_) => pairs_encodable(pairs_of(metadata)) && final(writer)@ == old(writer)@
                + metadata_encoding(pairs_of(metadata)),
            Err(e) => e == RdbError::InvalidSizeEncoding && !pairs_encodable(pairs_of(metadata)),
        },
{
    let ghost before = writer@;
    let ghost pairs = pairs_of(metadata);
    let n = metadata.len();
    let mut i: usize = 0;
    assert(pairs.subrange(0, 0) =~= Seq::<(Seq<u8>, Seq<u8>)>::empty());
    while i < n
        invariant
            i <= n,
            n == pairs.len(),
            pairs == pairs_of(metadata),
            metadata.wf(),
            pairs_encodable(pairs.subrange(0, i as int)),
            writer@ == before + metadata_encoding(pairs.subrange(0, i as int)),
        decreases n - i,
    {
        let ghost so_far = writer@;
        let name = metadata.key_at(i);
        let value = metadata.value_at(i);
        writer.push(METADATA_START);
        match write_string(writer, name.as_slice()) {
            Ok(_) => {},
            Err(e) => {
                assert(pairs[i as int].0.len() >= size_limit());
                return Err(e);
            },
        }
        match write_string(writer, value.as_slice()) {
            Ok(_) => {},
            Err(e) => {
                assert(pairs[i as int].1.len() >= size_limit());
                return Err(e);
            },
        }
        proof {
            let grown = pairs.subrange(0, i + 1);
            assert(grown.drop_last() =~= pairs.subrange(0, i as int));
            assert(grown.last() == pairs[i as int]);
            assert(writer@ =~= so_far + pair_encoding(pairs[i as int].0, pairs[i as int].1));
            assert(writer@ =~= before + metadata_encoding(grown));
            assert forall|j: int| 0 <= j < grown.len() implies (#[trigger] grown[j]).0.len()
                < size_limit() && grown[j].1.len() < size_limit() by {
                if j < i {
                    assert(pairs.subrange(0, i as int)[j] == grown[j]);
                }
            }
        }
        i += 1;
    }
    assert(pairs.subrange(0, i as int) =~= pairs);
    Ok(())
}

} // verus!
