//! Size and string encodings of the snapshot format, and the byte reader
//! that the decoders consume.
//!
//! A size is encoded in one, two or five bytes, chosen by the two high bits
//! of the first byte. A string is a size followed by that many bytes; a first
//! byte with both high bits set instead announces an integer that is rendered
//! as decimal text.

use vstd::prelude::*;
use crate::bytes::{copy_range, decimal, decimal_bytes, push_bytes};
use crate::error::{RdbError, Result};

verus! {

/// The number that two bytes denote, least significant byte first.
pub open spec fn le16(s: Seq<u8>) -> nat {
    (s[0] + s[1] * 256) as nat
}

/// The number that four bytes denote, least significant byte first.
pub open spec fn le32(s: Seq<u8>) -> nat {
    (s[0] + s[1] * 256 + s[2] * 65536 + s[3] * 16777216) as nat
}

/// The number that eight bytes denote, least significant byte first.
pub open spec fn le64(s: Seq<u8>) -> nat {
    le32(s.subrange(0, 4)) + le32(s.subrange(4, 8)) * 4294967296
}

/// The number that four bytes denote, most significant byte first.
pub open spec fn be32(s: Seq<u8>) -> nat {
    (s[3] + s[2] * 256 + s[1] * 65536 + s[0] * 16777216) as nat
}

/// The four bytes of a number below 2^32, least significant byte first.
#[verifier::opaque]
pub open spec fn le32_bytes(n: nat) -> Seq<u8> {
    seq![
        (n % 256) as u8,
        ((n / 256) % 256) as u8,
        ((n / 65536) % 256) as u8,
        ((n / 16777216) % 256) as u8,
    ]
}

/// The eight bytes of a number below 2^64, least significant byte first.
#[verifier::opaque]
pub open spec fn le64_bytes(n: nat) -> Seq<u8> {
    le32_bytes(n % 4294967296) + le32_bytes(n / 4294967296)
}

/// The four bytes of a number below 2^32, most significant byte first.
pub open spec fn be32_bytes(n: nat) -> Seq<u8> {
    seq![
        ((n / 16777216) % 256) as u8,
        ((n / 65536) % 256) as u8,
        ((n / 256) % 256) as u8,
        (n % 256) as u8,
    ]
}

/// What a size field holds: a length, or the tag byte of a special string
/// encoding.
pub enum SizeField {
    Length(nat),
    Special(u8),
}

/// Decodes the size field at the start of `s`. The result holds the field
/// and the bytes after it.
#[verifier::opaque]
pub open spec fn decode_size(s: Seq<u8>) -> Result<(SizeField, Seq<u8>)> {
    if s.len() < 1 {
        Err(RdbError::UnexpectedEof)
    } else if s[0] < 64 {
        Ok((SizeField::Length(s[0] as nat), s.skip(1)))
    } else if s[0] < 128 {
        if s.len() < 2 {
            Err(RdbError::UnexpectedEof)
        } else {
            Ok((SizeField::Length(((s[0] - 64) * 256 + s[1]) as nat), s.skip(2)))
        }
    } else if s[0] < 192 {
        if s.len() < 5 {
            Err(RdbError::UnexpectedEof)
        } else {
            Ok((SizeField::Length(be32(s.subrange(1, 5))), s.skip(5)))
        }
    } else {
        Ok((SizeField::Special(s[0]), s.skip(1)))
    }
}

/// The sizes below this have an encoding: they fit in thirty-two bits.
pub open spec fn size_limit() -> nat {
    0x1_0000_0000
}

/// The encoding of a size below `size_limit()`: the shortest of the three
/// forms that holds it.
#[verifier::opaque]
pub open spec fn size_prefix(n: nat) -> Seq<u8> {
    if n < 64 {
        seq![n as u8]
    } else if n < 16384 {
        seq![(64 + n / 256) as u8, (n % 256) as u8]
    } else {
        seq![128u8] + be32_bytes(n)
    }
}

/// Decodes the integer that follows the tag byte of a special string
/// encoding, as decimal text.
#[verifier::opaque]
pub open spec fn decode_special(tag: u8, s: Seq<u8>) -> Result<(Seq<u8>, Seq<u8>)> {
    if tag == 0xC0 {
        if s.len() < 1 {
            Err(RdbError::UnexpectedEof)
        } else {
            Ok((decimal(s[0] as nat), s.skip(1)))
        }
    } else if tag == 0xC1 {
        if s.len() < 2 {
            Err(RdbError::UnexpectedEof)
        } else {
            Ok((decimal(le16(s)), s.skip(2)))
        }
    } else if tag == 0xC2 {
        if s.len() < 4 {
            Err(RdbError::UnexpectedEof)
        } else {
            Ok((decimal(le32(s)), s.skip(4)))
        }
    } else {
        Err(RdbError::InvalidStringEncoding)
    }
}

/// Decodes the string at the start of `s`. The result holds the string and
/// the bytes after it.
#[verifier::opaque]
pub open spec fn decode_string(s: Seq<u8>) -> Result<(Seq<u8>, Seq<u8>)> {
    match decode_size(s) {
        Err(e) => Err(e),
        Ok((SizeField::Special(tag), rest)) => decode_special(tag, rest),
        Ok((SizeField::Length(n), rest)) => if rest.len() < n {
            Err(RdbError::UnexpectedEof)
        } else {
            Ok((rest.subrange(0, n as int), rest.skip(n as int)))
        },
    }
}

/// The encoding of a string shorter than `size_limit()`.
#[verifier::opaque]
pub open spec fn string_encoding(v: Seq<u8>) -> Seq<u8> {
    size_prefix(v.len()) + v
}

/// A size that was encoded decodes to itself, whatever follows it.
pub proof fn lemma_size_round_trip(n: nat, rest: Seq<u8>)
    requires
        n < size_limit(),
    ensures
        decode_size(size_prefix(n) + rest) == Ok::<_, RdbError>((SizeField::Length(n), rest)),
{
    reveal(size_prefix);
    reveal(decode_size);
    let s = size_prefix(n) + rest;
    if n < 64 {
        assert(s.skip(1) =~= rest);
    } else if n < 16384 {
        assert(s.skip(2) =~= rest);
    } else {
        assert(s.skip(5) =~= rest);
        assert(s.subrange(1, 5) =~= be32_bytes(n));
    }
}

/// A string that was encoded decodes to itself, whatever follows it.
pub proof fn lemma_string_round_trip(v: Seq<u8>, rest: Seq<u8>)
    requires
        v.len() < size_limit(),
    ensures
        decode_string(string_encoding(v) + rest) == Ok::<_, RdbError>((v, rest)),
{
    reveal(decode_string);
    reveal(string_encoding);
    lemma_size_round_trip(v.len(), v + rest);
    assert(string_encoding(v) + rest =~= size_prefix(v.len()) + (v + rest));
    assert((v + rest).subrange(0, v.len() as int) =~= v);
    assert((v + rest).skip(v.len() as int) =~= rest);
}

/// A string that was decoded is short enough to be encoded again.
pub proof fn lemma_decoded_string_fits(s: Seq<u8>)
    ensures
        match decode_string(s) {
            Ok((text, _)) => text.len() < size_limit(),
            Err(_) => true,
        },
{
    reveal(decode_string);
    reveal(decode_size);
    reveal(decode_special);
    match decode_size(s) {
        Ok((SizeField::Special(tag), rest)) => {
            if tag == 0xC0 && rest.len() >= 1 {
                crate::bytes::lemma_decimal_length(rest[0] as nat);
            } else if tag == 0xC1 && rest.len() >= 2 {
                crate::bytes::lemma_decimal_length(le16(rest));
            } else if tag == 0xC2 && rest.len() >= 4 {
                crate::bytes::lemma_decimal_length(le32(rest));
            }
        },
        _ => {},
    }
}

/// A decoder consumes at least the first byte of what it decodes.
pub proof fn lemma_decode_string_shrinks(s: Seq<u8>)
    ensures
        match decode_string(s) {
            Ok((_, rest)) => rest.len() < s.len(),
            Err(_) => true,
        },
{
    reveal(decode_string);
    reveal(decode_size);
    reveal(decode_special);
}

/// A size field consumes at least its first byte.
pub proof fn lemma_decode_size_shrinks(s: Seq<u8>)
    ensures
        match decode_size(s) {
            Ok((_, rest)) => rest.len() < s.len(),
            Err(_) => true,
        },
{
    reveal(decode_size);
}

/// Decodes four bytes, least significant first, at the start of `s`.
pub open spec fn decode_le32(s: Seq<u8>) -> Result<(u32, Seq<u8>)> {
    if s.len() < 4 {
        Err(RdbError::UnexpectedEof)
    } else {
        Ok((le32(s.subrange(0, 4)) as u32, s.skip(4)))
    }
}

/// Decodes eight bytes, least significant first, at the start of `s`.
pub open spec fn decode_le64(s: Seq<u8>) -> Result<(u64, Seq<u8>)> {
    if s.len() < 8 {
        Err(RdbError::UnexpectedEof)
    } else {
        Ok((le64(s.subrange(0, 8)) as u64, s.skip(8)))
    }
}

/// Four bytes that were written decode to the number, whatever follows them.
pub proof fn lemma_le32_round_trip(n: u32, tail: Seq<u8>)
    ensures
        le32_bytes(n as nat).len() == 4,
        decode_le32(le32_bytes(n as nat) + tail) == Ok::<_, RdbError>((n, tail)),
{
    reveal(le32_bytes);
    let s = le32_bytes(n as nat) + tail;
    assert(s.subrange(0, 4) =~= le32_bytes(n as nat));
    assert(s.skip(4) =~= tail);
    assert(le32(le32_bytes(n as nat)) == n) by {
        let x = n as nat;
        assert(x == x % 256 + ((x / 256) % 256) * 256 + ((x / 65536) % 256) * 65536 + ((x
            / 16777216) % 256) * 16777216);
    }
}

/// Eight bytes that were written decode to the number, whatever follows them.
pub proof fn lemma_le64_round_trip(n: u64, tail: Seq<u8>)
    ensures
        le64_bytes(n as nat).len() == 8,
        decode_le64(le64_bytes(n as nat) + tail) == Ok::<_, RdbError>((n, tail)),
{
    reveal(le64_bytes);
    let low = (n as nat) % 4294967296;
    let high = (n as nat) / 4294967296;
    lemma_le32_round_trip(low as u32, Seq::empty());
    lemma_le32_round_trip(high as u32, Seq::empty());
    let s = le64_bytes(n as nat) + tail;
    assert(le32_bytes(low) + Seq::<u8>::empty() =~= le32_bytes(low));
    assert(le32_bytes(high) + Seq::<u8>::empty() =~= le32_bytes(high));
    assert(le32_bytes(low).subrange(0, 4) =~= le32_bytes(low));
    assert(le32_bytes(high).subrange(0, 4) =~= le32_bytes(high));
    assert(s.subrange(0, 8).subrange(0, 4) =~= le32_bytes(low));
    assert(s.subrange(0, 8).subrange(4, 8) =~= le32_bytes(high));
    assert(s.skip(8) =~= tail);
}

/// A cursor over bytes that were read from a snapshot.
pub struct ByteReader {
    pub(crate) data: Vec<u8>,
    pub(crate) pos: usize,
}

impl ByteReader {
    #[verifier::type_invariant]
    pub closed spec fn inv(&self) -> bool {
        self.pos <= self.data.len()
    }

    /// The bytes that have not been consumed yet.
    pub closed spec fn remaining(&self) -> Seq<u8> {
        self.data@.subrange(self.pos as int, self.data.len() as int)
    }

    /// A reader at the start of `data`.
    pub fn new(data: Vec<u8>) -> (r: Self)
        ensures
            r.remaining() == data@,
    {
        let r = ByteReader { data, pos: 0 };
        assert(r.remaining() =~= data@);
        r
    }

    /// The number of bytes that have not been consumed yet.
    pub fn remaining_len(&self) -> (r: usize)
        ensures
            r == self.remaining().len(),
    {
        proof {
            use_type_invariant(self);
        }
        self.data.len() - self.pos
    }

    /// The next byte, which stays unconsumed.
    pub fn peek(&self) -> (r: Option<u8>)
        ensures
            r == if self.remaining().len() > 0 {
                Some(self.remaining()[0])
            } else {
                None
            },
    {
        proof {
            use_type_invariant(self);
        }
        if self.pos < self.data.len() {
            Some(self.data[self.pos])
        } else {
            None
        }
    }

    /// Consumes one byte. At the end of the input nothing is consumed.
    pub fn read_u8(&mut self) -> (r: Result<u8>)
        ensures
            match r {
                Ok(b) => old(self).remaining().len() > 0 && b == old(self).remaining()[0]
                    && final(self).remaining() == old(self).remaining().skip(1),
                Err(e) => e == RdbError::UnexpectedEof && old(self).remaining().len() == 0
                    && final(self).remaining() == old(self).remaining(),
            },
    {
        proof {
            use_type_invariant(&*self);
        }
        if self.pos < self.data.len() {
            let b = self.data[self.pos];
            self.pos = self.pos + 1;
            assert(self.remaining() =~= old(self).remaining().skip(1));
            Ok(b)
        } else {
            Err(RdbError::UnexpectedEof)
        }
    }

    /// Consumes exactly `n` bytes. Where fewer are left nothing is consumed.
    pub fn read_exact(&mut self, n: usize) -> (r: Result<Vec<u8>>)
        ensures
            match r {
                Ok(bytes) => n <= old(self).remaining().len() && bytes@ == old(self).remaining().subrange(0, n as int) && final(self).remaining() == old(self).remaining().skip(n as int),
                Err(e) => e == RdbError::UnexpectedEof && old(self).remaining().len() < n
                    && final(self).remaining() == old(self).remaining(),
            },
    {
        proof {
            use_type_invariant(&*self);
        }
        if n <= self.data.len() - self.pos {
            let bytes = copy_range(self.data.as_slice(), self.pos, self.pos + n);
            self.pos = self.pos + n;
            assert(bytes@ =~= old(self).remaining().subrange(0, n as int));
            assert(self.remaining() =~= old(self).remaining().skip(n as int));
            Ok(bytes)
        } else {
            Err(RdbError::UnexpectedEof)
        }
    }
}

/// Reads a size field. A length comes back with `None`; the tag of a special
/// string encoding comes back as the one byte of the second component, beside
/// `usize::MAX`. After an error the reader's position is unspecified.
pub fn read_size(reader: &mut ByteReader) -> (r: Result<(usize, Option<Vec<u8>>)>)
    ensures
        match (decode_size(old(reader).remaining()), r) {
            (Ok((SizeField::Length(n), rest)), Ok((size, None))) => size == n && final(reader).remaining() == rest,
            (Ok((SizeField::Special(tag), rest)), Ok((size, Some(t)))) => size == usize::MAX
                && t@ == seq![tag] && final(reader).remaining() == rest,
            (Err(expected), Err(e)) => e == expected,
            _ => false,
        },
{
    let ghost s = reader.remaining();
    proof {
        reveal(decode_size);
    }
    let first = reader.read_u8()?;
    if first < 64 {
        Ok((first as usize, None))
    } else if first < 128 {
        let second = reader.read_u8()?;
        assert(reader.remaining() =~= s.skip(2));
        Ok((((first - 64) as usize) * 256 + second as usize, None))
    } else if first < 192 {
        let b = reader.read_exact(4)?;
        assert(reader.remaining() =~= s.skip(5));
        assert(b@ =~= s.subrange(1, 5));
        let n: u32 = b[3] as u32 + (b[2] as u32) * 256 + (b[1] as u32) * 65536 + (b[0] as u32)
            * 16777216;
        Ok((n as usize, None))
    } else {
        let mut tag: Vec<u8> = Vec::new();
        tag.push(first);
        Ok((usize::MAX, Some(tag)))
    }
}

/// Appends the encoding of a size that has one.
pub fn push_size(writer: &mut Vec<u8>, size: usize)
    requires
        size < size_limit(),
    ensures
        final(writer)@ == old(writer)@ + size_prefix(size as nat),
{
    let ghost before = writer@;
    proof {
        reveal(size_prefix);
    }
    if size < 64 {
        writer.push(size as u8);
        assert(writer@ =~= before + size_prefix(size as nat));
    } else if size < 16384 {
        writer.push((64 + size / 256) as u8);
        writer.push((size % 256) as u8);
        assert(writer@ =~= before + size_prefix(size as nat));
    } else {
        writer.push(128);
        writer.push(((size / 16777216) % 256) as u8);
        writer.push(((size / 65536) % 256) as u8);
        writer.push(((size / 256) % 256) as u8);
        writer.push((size % 256) as u8);
        assert(writer@ =~= before + size_prefix(size as nat));
    }
}

/// Appends the encoding of `size` to `writer`. Fails with
/// `InvalidSizeEncoding`, and appends nothing, exactly when `size` is not
/// below `size_limit()`.
pub fn write_size(writer: &mut Vec<u8>, size: usize) -> (r: Result<()>)
    ensures
        match r {
            Ok(_) => size < size_limit() && final(writer)@ == old(writer)@ + size_prefix(
                size as nat,
            ),
            Err(e) => e == RdbError::InvalidSizeEncoding && size >= size_limit() && final(writer)@ == old(writer)@,
        },
{
    if size > 0xFFFF_FFFF {
        return Err(RdbError::InvalidSizeEncoding);
    }
    push_size(writer, size);
    Ok(())
}

/// Reads the integer of a special string encoding whose tag byte is the
/// first byte of `v`, as decimal text. Fails with `InvalidStringEncoding`
/// where `v` holds no tag or the tag names no integer form. After an error
/// the reader's position is unspecified.
pub fn read_special_int(reader: &mut ByteReader, v: Option<Vec<u8>>) -> (r: Result<Vec<u8>>)
    ensures
        match r {
            Ok(text) => v is Some && v->0@.len() > 0 && decode_special(
                v->0@[0],
                old(reader).remaining(),
            ) == Ok::<_, RdbError>((text@, final(reader).remaining())),
            Err(e) => if v is Some && v->0@.len() > 0 {
                decode_special(v->0@[0], old(reader).remaining()) == Err::<
                    (Seq<u8>, Seq<u8>),
                    _,
                >(e)
            } else {
                e == RdbError::InvalidStringEncoding
            },
        },
{
    let ghost s = reader.remaining();
    proof {
        reveal(decode_special);
    }
    let tag: u8 = match &v {
        Some(t) => {
            if t.len() == 0 {
                return Err(RdbError::InvalidStringEncoding);
            }
            t[0]
        },
        None => {
            return Err(RdbError::InvalidStringEncoding);
        },
    };
    if tag == 0xC0 {
        let b = reader.read_u8()?;
        Ok(decimal_bytes(b as u64))
    } else if tag == 0xC1 {
        let b = reader.read_exact(2)?;
        let n: u64 = b[0] as u64 + (b[1] as u64) * 256;
        Ok(decimal_bytes(n))
    } else if tag == 0xC2 {
        let b = reader.read_exact(4)?;
        let n: u64 = b[0] as u64 + (b[1] as u64) * 256 + (b[2] as u64) * 65536 + (b[3] as u64)
            * 16777216;
        Ok(decimal_bytes(n))
    } else {
        Err(RdbError::InvalidStringEncoding)
    }
}

/// Reads a string: a size and that many bytes, or the decimal text of a
/// specially encoded integer. After an error the reader's position is
/// unspecified.
pub fn read_string(reader: &mut ByteReader) -> (r: Result<Vec<u8>>)
    ensures
        match (decode_string(old(reader).remaining()), r) {
            (Ok((text, rest)), Ok(v)) => v@ == text && final(reader).remaining() == rest,
            (Err(expected), Err(e)) => e == expected,
            _ => false,
        },
{
    proof {
        reveal(decode_string);
    }
    let (size, tag) = read_size(reader)?;
    if tag.is_some() {
        return read_special_int(reader, tag);
    }
    reader.read_exact(size)
}

/// Appends the encoding of the string `s` to `writer`. Fails with
/// `InvalidSizeEncoding`, and appends nothing, exactly when `s` is not
/// shorter than `size_limit()`.
pub fn write_string(writer: &mut Vec<u8>, s: &[u8]) -> (r: Result<()>)
    ensures
        match r {
            Ok(_) => s@.len() < size_limit() && final(writer)@ == old(writer)@ + string_encoding(
                s@,
            ),
            Err(e) => e == RdbError::InvalidSizeEncoding && s@.len() >= size_limit() && final(writer)@ == old(writer)@,
        },
{
    let ghost before = writer@;
    proof {
        reveal(string_encoding);
    }
    write_size(writer, s.len())?;
    push_bytes(writer, s);
    assert(writer@ =~= before + string_encoding(s@));
    Ok(())
}

/// Reads four bytes as a number, least significant byte first.
pub fn read_le32(reader: &mut ByteReader) -> (r: Result<u32>)
    ensures
        match (decode_le32(old(reader).remaining()), r) {
            (Ok((n, rest)), Ok(v)) => v == n && final(reader).remaining() == rest,
            (Err(expected), Err(e)) => e == expected,
            _ => false,
        },
{
    let b = reader.read_exact(4)?;
    let n: u32 = b[0] as u32 + (b[1] as u32) * 256 + (b[2] as u32) * 65536 + (b[3] as u32)
        * 16777216;
    Ok(n)
}

/// Reads eight bytes as a number, least significant byte first.
pub fn read_le64(reader: &mut ByteReader) -> (r: Result<u64>)
    ensures
        match (decode_le64(old(reader).remaining()), r) {
            (Ok((n, rest)), Ok(v)) => v == n && final(reader).remaining() == rest,
            (Err(expected), Err(e)) => e == expected,
            _ => false,
        },
{
    let b = reader.read_exact(8)?;
    let low: u64 = b[0] as u64 + (b[1] as u64) * 256 + (b[2] as u64) * 65536 + (b[3] as u64)
        * 16777216;
    let high: u64 = b[4] as u64 + (b[5] as u64) * 256 + (b[6] as u64) * 65536 + (b[7] as u64)
        * 16777216;
    assert(le32(b@.subrange(0, 4)) == low);
    assert(le32(b@.subrange(4, 8)) == high);
    Ok(low + high * 4294967296)
}

/// Appends the four bytes of `n`, least significant byte first.
pub fn push_le32(writer: &mut Vec<u8>, n: u32)
    ensures
        final(writer)@ == old(writer)@ + le32_bytes(n as nat),
{
    let ghost before = writer@;
    writer.push((n % 256) as u8);
    writer.push(((n / 256) % 256) as u8);
    writer.push(((n / 65536) % 256) as u8);
    writer.push(((n / 16777216) % 256) as u8);
    proof {
        reveal(le32_bytes);
        assert(writer@ =~= before + le32_bytes(n as nat));
    }
}

/// Appends the eight bytes of `n`, least significant byte first.
pub fn push_le64(writer: &mut Vec<u8>, n: u64)
    ensures
        final(writer)@ == old(writer)@ + le64_bytes(n as nat),
{
    let ghost before = writer@;
    push_le32(writer, (n % 4294967296) as u32);
    push_le32(writer, (n / 4294967296) as u32);
    proof {
        reveal(le64_bytes);
        assert(writer@ =~= before + le64_bytes(n as nat));
    }
}

} // verus!
