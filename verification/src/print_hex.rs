//! Bytes as hexadecimal text, and a small fixed snapshot for replicas that
//! are given no other.

use vstd::prelude::*;
use vstd::string::StringSliceAdditionalSpecFns;
use crate::bytes::{push_bytes, push_text};

verus! {

/// The bytes of the fixed snapshot: version 0011, the metadata `redis-ver`
/// and `redis-bits`, database zero with the one key `foo` bound to `bar`, the
/// end marker and a checksum.
pub open spec fn dummy_rdb() -> Seq<u8> {
    "REDIS0011".spec_bytes() + seq![0xFAu8, 0x09u8] + "redis-ver".spec_bytes() + seq![0x05u8]
        + "7.2.0".spec_bytes() + seq![0xFAu8, 0x0Au8] + "redis-bits".spec_bytes() + seq![
        0xC0u8,
        0x40u8,
        0xFEu8,
        0x00u8,
        0xFBu8,
        0x01u8,
        0x00u8,
        0x00u8,
        0x03u8,
    ] + "foo".spec_bytes() + seq![0x03u8] + "bar".spec_bytes() + seq![
        0xFFu8,
        0xCBu8,
        0x2Du8,
        0x78u8,
        0xFAu8,
        0xF9u8,
        0x97u8,
        0x5Bu8,
        0xC2u8,
    ]
}

/// The bytes of the fixed snapshot.
pub fn create_dummy_rdb() -> (r: Vec<u8>)
    ensures
        r@ == dummy_rdb(),
{
    let mut out: Vec<u8> = Vec::new();
    push_text(&mut out, "REDIS0011");
    out.push(0xFA);
    out.push(0x09);
    push_text(&mut out, "redis-ver");
    out.push(0x05);
    push_text(&mut out, "7.2.0");
    out.push(0xFA);
    out.push(0x0A);
    push_text(&mut out, "redis-bits");
    let middle: [u8; 9] = [0xC0, 0x40, 0xFE, 0x00, 0xFB, 0x01, 0x00, 0x00, 0x03];
    push_bytes(&mut out, middle.as_slice());
    push_text(&mut out, "foo");
    out.push(0x03);
    push_text(&mut out, "bar");
    let end: [u8; 9] = [0xFF, 0xCB, 0x2D, 0x78, 0xFA, 0xF9, 0x97, 0x5B, 0xC2];
    push_bytes(&mut out, end.as_slice());
    assert(out@ =~= dummy_rdb());
    out
}

/// The number of bytes that one line of a dump shows.
pub const BYTES_PER_LINE: usize = 16;

/// The hexadecimal digit `d`, in lower case.
pub open spec fn hex_digit(d: nat) -> u8 {
    if d < 10 {
        (48 + d) as u8
    } else {
        (87 + d) as u8
    }
}

/// The two hexadecimal digits of a byte.
pub open spec fn byte_hex(b: u8) -> Seq<u8> {
    seq![hex_digit((b / 16) as nat), hex_digit((b % 16) as nat)]
}

/// The hexadecimal text of a number, without leading zeros.
pub open spec fn hex_text(n: nat) -> Seq<u8>
    decreases n,
{
    if n < 16 {
        seq![hex_digit(n)]
    } else {
        hex_text(n / 16).push(hex_digit(n % 16))
    }
}

/// The hexadecimal text of an offset: at least eight digits, with zeros in
/// front of a shorter number.
pub open spec fn offset_text(n: nat) -> Seq<u8> {
    if hex_text(n).len() < 8 {
        Seq::new((8 - hex_text(n).len()) as nat, |i: int| 48u8) + hex_text(n)
    } else {
        hex_text(n)
    }
}

/// The bytes of `bytes`, each as two hexadecimal digits and a space.
pub open spec fn spaced_hex(bytes: Seq<u8>) -> Seq<u8>
    decreases bytes.len(),
{
    if bytes.len() == 0 {
        Seq::<u8>::empty()
    } else {
        spaced_hex(bytes.drop_last()) + byte_hex(bytes.last()) + seq![32u8]
    }
}

/// One line of hexadecimal text: every byte as two digits and a space, and
/// a line feed at the end.
pub open spec fn hex_line(bytes: Seq<u8>) -> Seq<u8> {
    spaced_hex(bytes) + seq![10u8]
}

/// The cell of column `j` in a line that shows `chunk`: the byte's two
/// digits, or two spaces past the end of the chunk; after every second
/// column stands a space.
pub open spec fn cell(chunk: Seq<u8>, j: int) -> Seq<u8> {
    let digits = if 0 <= j < chunk.len() {
        byte_hex(chunk[j])
    } else {
        seq![32u8, 32u8]
    };
    if j % 2 == 1 {
        digits + seq![32u8]
    } else {
        digits
    }
}

/// The cells of the first `n` columns.
pub open spec fn cells(chunk: Seq<u8>, n: nat) -> Seq<u8>
    decreases n,
{
    if n == 0 {
        Seq::<u8>::empty()
    } else {
        cells(chunk, (n - 1) as nat) + cell(chunk, n - 1)
    }
}

/// A byte as it is shown among characters: itself where it is a visible
/// ASCII character or a space, and a dot otherwise.
pub open spec fn shown(b: u8) -> u8 {
    if 32 <= b <= 126 {
        b
    } else {
        46
    }
}

/// The bytes of `chunk` as they are shown among characters.
pub open spec fn shown_text(chunk: Seq<u8>) -> Seq<u8> {
    Seq::new(chunk.len(), |i: int| shown(chunk[i]))
}

/// One line of a dump: the offset, a colon and a space, sixteen columns of
/// hexadecimal digits, a space, the bytes as characters, and a line feed.
pub open spec fn dump_line(offset: nat, chunk: Seq<u8>) -> Seq<u8> {
    offset_text(offset) + seq![58u8, 32u8] + cells(chunk, 16) + seq![32u8] + shown_text(chunk)
        + seq![10u8]
}

/// The smaller of two numbers.
pub open spec fn lesser(a: int, b: int) -> int {
    if a <= b {
        a
    } else {
        b
    }
}

/// The first `lines` lines of the dump of `data`, sixteen bytes to a line.
pub open spec fn dump_lines(data: Seq<u8>, lines: nat) -> Seq<u8>
    decreases lines,
{
    if lines == 0 {
        Seq::<u8>::empty()
    } else {
        dump_lines(data, (lines - 1) as nat) + dump_line(
            ((lines - 1) * 16) as nat,
            data.subrange((lines - 1) * 16, lesser((lines * 16) as int, data.len() as int)),
        )
    }
}

/// The dump of `data`: as many lines as it takes to show every byte.
pub open spec fn hex_dump(data: Seq<u8>) -> Seq<u8> {
    dump_lines(data, ((data.len() + 15) / 16) as nat)
}

/// The hexadecimal digit `d`.
fn hex_digit_of(d: u8) -> (r: u8)
    requires
        d < 16,
    ensures
        r == hex_digit(d as nat),
{
    if d < 10 {
        48 + d
    } else {
        87 + d
    }
}

/// Appends the two hexadecimal digits of `b`.
fn push_byte_hex(out: &mut Vec<u8>, b: u8)
    ensures
        final(out)@ == old(out)@ + byte_hex(b),
{
    let ghost before = out@;
    out.push(hex_digit_of(b / 16));
    out.push(hex_digit_of(b % 16));
    assert(out@ =~= before + byte_hex(b));
}

/// Appends the hexadecimal text of `n`.
fn push_hex_text(out: &mut Vec<u8>, n: usize)
    ensures
        final(out)@ == old(out)@ + hex_text(n as nat),
    decreases n,
{
    let ghost before = out@;
    if n >= 16 {
        push_hex_text(out, n / 16);
    }
    out.push(hex_digit_of((n % 16) as u8));
    assert(out@ =~= before + hex_text(n as nat));
}

/// The text that shows `bytes` in hexadecimal on one line.
pub fn print_hex(bytes: &[u8]) -> (r: Vec<u8>)
    ensures
        r@ == hex_line(bytes@),
{
    let mut out: Vec<u8> = Vec::new();
    let mut i: usize = 0;
    assert(bytes@.subrange(0, 0) =~= Seq::<u8>::empty());
    while i < bytes.len()
        invariant
            i <= bytes.len(),
            out@ == spaced_hex(bytes@.subrange(0, i as int)),
        decreases bytes.len() - i,
    {
        proof {
            let grown = bytes@.subrange(0, i + 1);
            assert(grown.drop_last() =~= bytes@.subrange(0, i as int));
            assert(grown.last() == bytes@[i as int]);
        }
        push_byte_hex(&mut out, bytes[i]);
        out.push(32);
        i += 1;
    }
    assert(bytes@.subrange(0, i as int) =~= bytes@);
    out.push(10);
    out
}

/// Appends one line of a dump.
fn push_dump_line(out: &mut Vec<u8>, offset: usize, chunk: &[u8])
    requires
        chunk@.len() <= 16,
    ensures
        final(out)@ == old(out)@ + dump_line(offset as nat, chunk@),
{
    let ghost before = out@;
    let mut number: Vec<u8> = Vec::new();
    push_hex_text(&mut number, offset);
    assert(number@ =~= hex_text(offset as nat));
    let mut pad: usize = number.len();
    while pad < 8
        invariant
            pad <= 8 || pad == number@.len(),
            number@.len() <= pad,
            number@ == hex_text(offset as nat),
            out@ == before + Seq::new((pad - number@.len()) as nat, |i: int| 48u8),
        decreases 8 - pad,
    {
        out.push(48);
        pad += 1;
        assert(out@ =~= before + Seq::new((pad - number@.len()) as nat, |i: int| 48u8));
    }
    crate::bytes::push_bytes(out, number.as_slice());
    assert(out@ =~= before + offset_text(offset as nat));
    out.push(58);
    out.push(32);
    let ghost head = out@;
    let mut j: usize = 0;
    while j < 16
        invariant
            j <= 16,
            chunk@.len() <= 16,
            out@ == head + cells(chunk@, j as nat),
        decreases 16 - j,
    {
        let ghost so_far = out@;
        if j < chunk.len() {
            push_byte_hex(out, chunk[j]);
        } else {
            out.push(32);
            out.push(32);
        }
        if j % 2 == 1 {
            out.push(32);
        }
        assert(out@ =~= so_far + cell(chunk@, j as int));
        j += 1;
    }
    out.push(32);
    let ghost middle = out@;
    let mut k: usize = 0;
    while k < chunk.len()
        invariant
            k <= chunk.len(),
            out@.len() == middle.len() + k,
            forall|i: int| 0 <= i < middle.len() ==> out@[i] == middle[i],
            forall|i: int| 0 <= i < k ==> out@[middle.len() + i] == shown(chunk@[i]),
        decreases chunk.len() - k,
    {
        let b = chunk[k];
        if b >= 32 && b <= 126 {
            out.push(b);
        } else {
            out.push(46);
        }
        k += 1;
    }
    assert(out@ =~= middle + shown_text(chunk@));
    out.push(10);
    assert(out@ =~= before + dump_line(offset as nat, chunk@));
}

/// The text that shows `data` in hexadecimal and as characters, sixteen
/// bytes to a line, each line with the offset of its first byte.
pub fn print_hex_dump(data: &[u8]) -> (r: Vec<u8>)
    ensures
        r@ == hex_dump(data@),
{
    let mut out: Vec<u8> = Vec::new();
    let mut done: usize = 0;
    let mut lines: usize = 0;
    while done < data.len()
        invariant
            done <= data.len(),
            done == lesser(lines * 16, data.len() as int),
            done < data.len() ==> done == lines * 16,
            lines == (done + 15) / 16,
            out@ == dump_lines(data@, lines as nat),
        decreases data.len() - done,
    {
        let end = if data.len() - done < BYTES_PER_LINE {
            data.len()
        } else {
            done + BYTES_PER_LINE
        };
        let chunk = vstd::slice::slice_subrange(data, done, end);
        push_dump_line(&mut out, done, chunk);
        lines += 1;
        done = end;
    }
    out
}

} // verus!
