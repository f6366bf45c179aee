//! The snapshot header: the magic word and a four-byte ASCII version.

use vstd::prelude::*;
use crate::bytes::push_bytes;
use crate::encoding::ByteReader;
use crate::error::{RdbError, Result};

verus! {

/// The length of the version that follows the magic word.
pub const RDB_VERSION_LENGTH: usize = 4;

/// The magic word `REDIS`.
pub open spec fn magic() -> Seq<u8> {
    seq![82u8, 69, 68, 73, 83]
}

/// Whether every byte of `s` is an ASCII character.
pub open spec fn is_ascii(s: Seq<u8>) -> bool {
    forall|i: int| 0 <= i < s.len() ==> #[trigger] s[i] < 128
}

/// Whether `v` can stand as a version: four ASCII bytes.
pub open spec fn valid_version(v: Seq<u8>) -> bool {
    v.len() == 4 && is_ascii(v)
}

/// Decodes the header at the start of `s`. The result holds the version and
/// the bytes after the header.
pub open spec fn decode_header(s: Seq<u8>) -> Result<(Seq<u8>, Seq<u8>)> {
    if s.len() < 9 {
        Err(RdbError::UnexpectedEof)
    } else if s.subrange(0, 5) != magic() {
        Err(RdbError::InvalidHeader)
    } else if !is_ascii(s.subrange(5, 9)) {
        Err(RdbError::InvalidVersion)
    } else {
        Ok((s.subrange(5, 9), s.skip(9)))
    }
}

/// The header of a snapshot of the given version.
pub open spec fn header_encoding(version: Seq<u8>) -> Seq<u8> {
    magic() + version
}

/// A header that was written decodes to its version, whatever follows it.
pub proof fn lemma_header_round_trip(version: Seq<u8>, rest: Seq<u8>)
    requires
        valid_version(version),
    ensures
        decode_header(header_encoding(version) + rest) == Ok::<_, RdbError>((version, rest)),
{
    let s = header_encoding(version) + rest;
    assert(s.subrange(0, 5) =~= magic());
    assert(s.subrange(5, 9) =~= version);
    assert(s.skip(9) =~= rest);
}

/// Whether every byte of `s` is an ASCII character.
pub fn all_ascii(s: &[u8]) -> (r: bool)
    ensures
        r == is_ascii(s@),
{
    let mut i: usize = 0;
    while i < s.len()
        invariant
            i <= s.len(),
            forall|j: int| 0 <= j < i ==> #[trigger] s@[j] < 128,
        decreases s.len() - i,
    {
        if s[i] >= 128 {
            return false;
        }
        i += 1;
    }
    true
}

/// Reads the header and returns the version. After an error the reader's
/// position is unspecified.
pub fn read_header(reader: &mut ByteReader) -> (r: Result<Vec<u8>>)
    ensures
        match (decode_header(old(reader).remaining()), r) {
            (Ok((version, rest)), Ok(v)) => v@ == version && final(reader).remaining() == rest,
            (Err(expected), Err(e)) => e == expected,
            _ => false,
        },
{
    let ghost s = reader.remaining();
    let header = reader.read_exact(9)?;
    if header[0] != 82 || header[1] != 69 || header[2] != 68 || header[3] != 73 || header[4]
        != 83 {
        assert(s.subrange(0, 5)[0] == header@[0]);
        assert(s.subrange(0, 5)[1] == header@[1]);
        assert(s.subrange(0, 5)[2] == header@[2]);
        assert(s.subrange(0, 5)[3] == header@[3]);
        assert(s.subrange(0, 5)[4] == header@[4]);
        return Err(RdbError::InvalidHeader);
    }
    assert(s.subrange(0, 5) =~= magic());
    let version = crate::bytes::copy_range(header.as_slice(), 5, 9);
    assert(version@ =~= s.subrange(5, 9));
    if !all_ascii(version.as_slice()) {
        return Err(RdbError::InvalidVersion);
    }
    Ok(version)
}

/// Appends the header of a snapshot of the given version. Fails with
/// `InvalidVersion`, and appends nothing, exactly when the version is not
/// four ASCII bytes.
pub fn write_header(writer: &mut Vec<u8>, version: &[u8]) -> (r: Result<()>)
    ensures
        match r {
            Ok(_) => valid_version(version@) && final(writer)@ == old(writer)@ + header_encoding(
                version@,
            ),
            Err(e) => e == RdbError::InvalidVersion && !valid_version(version@) && final(writer)@
                == old(writer)@,
        },
{
    let ghost before = writer@;
    if version.len() != RDB_VERSION_LENGTH || !all_ascii(version) {
        return Err(RdbError::InvalidVersion);
    }
    writer.push(82);
    writer.push(69);
    writer.push(68);
    writer.push(73);
    writer.push(83);
    push_bytes(writer, version);
    assert(writer@ =~= before + header_encoding(version@));
    Ok(())
}

} // verus!
