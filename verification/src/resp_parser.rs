//! The incremental decoder of a connection's byte stream.
//!
//! Bytes arrive in pieces. The decoder keeps every byte it was given and a
//! cursor to the first byte that belongs to no decoded item. At the cursor it
//! looks for one of three things: an array of bulk strings, which is a
//! command frame; a bare length-prefixed blob, which is the snapshot that a
//! primary sends after a resynchronisation and is swallowed; or any other
//! line, which is noise and is skipped. The cursor moves only past whole
//! items: a frame of which a part is still missing stays in the buffer.

use vstd::prelude::*;
use vstd::slice::slice_subrange;
use crate::bytes::{copy_range, decimal, find_byte, frame_views, index_of, is_digit,
    lemma_decimal_round_trip, lemma_find_byte, parse_decimal, parse_u64, push_bytes, views};
use crate::utils::{array_header, bulk_string, bulk_strings, crlf, format_resp_array,
    get_simple_str, resp_array, simple_string, CR, DOLLAR, LF, STAR};

verus! {

/// The index of the line feed that ends the line starting at `pos`, or
/// `buf.len()` when the line has not ended yet.
pub open spec fn line_end(buf: Seq<u8>, pos: int) -> int {
    find_byte(buf, LF, pos)
}

/// A line without the carriage return that may end it.
pub open spec fn strip_cr(line: Seq<u8>) -> Seq<u8> {
    if line.len() > 0 && line.last() == CR {
        line.drop_last()
    } else {
        line
    }
}

/// The line that starts at `pos`, without its line end.
pub open spec fn line_at(buf: Seq<u8>, pos: int) -> Seq<u8> {
    strip_cr(buf.subrange(pos, line_end(buf, pos)))
}

/// The number written in decimal after the first byte of a line.
pub open spec fn length_after(line: Seq<u8>) -> Option<u64> {
    parse_decimal(line.skip(1))
}

/// What stands at a position where a bulk string is expected.
pub enum BulkScan {
    /// A bulk string with these bytes; the next item starts at `next`.
    Item { bytes: Seq<u8>, next: int },
    /// No bulk string; scanning resumes at `next`.
    Malformed { next: int },
    /// A part of the bulk string has not arrived yet.
    Incomplete,
}

/// Scans the bulk string that is expected at `pos`: a `$` line with the
/// length, that many bytes, and a line end.
pub open spec fn scan_bulk(buf: Seq<u8>, pos: int) -> BulkScan {
    let lf = line_end(buf, pos);
    let line = line_at(buf, pos);
    if lf >= buf.len() {
        BulkScan::Incomplete
    } else if line.len() == 0 || line[0] != DOLLAR {
        BulkScan::Malformed { next: pos }
    } else {
        match length_after(line) {
            None => BulkScan::Malformed { next: lf + 1 },
            Some(len) => if lf + 1 + len + 2 > buf.len() {
                BulkScan::Incomplete
            } else if buf[lf + 1 + len] != CR || buf[lf + 1 + len + 1] != LF {
                BulkScan::Malformed { next: lf + 1 }
            } else {
                BulkScan::Item { bytes: buf.subrange(lf + 1, lf + 1 + len), next: lf + 1 + len + 2 }
            },
        }
    }
}

/// What stands where the elements of an array are expected.
pub enum ItemsScan {
    /// All elements; the next item starts at `next`.
    Done { items: Seq<Seq<u8>>, next: int },
    /// An element is no bulk string; scanning resumes at `next`.
    Malformed { next: int },
    /// A part of an element has not arrived yet.
    Incomplete,
}

/// Scans `count` bulk strings from `pos` on, after the elements in `acc`.
pub open spec fn scan_items(buf: Seq<u8>, pos: int, count: nat, acc: Seq<Seq<u8>>) -> ItemsScan
    decreases count,
{
    if count == 0 {
        ItemsScan::Done { items: acc, next: pos }
    } else {
        match scan_bulk(buf, pos) {
            BulkScan::Item { bytes, next } => scan_items(
                buf,
                next,
                (count - 1) as nat,
                acc.push(bytes),
            ),
            BulkScan::Malformed { next } => ItemsScan::Malformed { next },
            BulkScan::Incomplete => ItemsScan::Incomplete,
        }
    }
}

/// What stands at the cursor.
pub enum Scan {
    /// A command frame; the next item starts at `next`.
    Frame { elements: Seq<Seq<u8>>, next: int },
    /// A snapshot blob, which ends before `next`.
    Snapshot { next: int },
    /// Noise or a malformed item; scanning resumes at `next`.
    Skip { next: int },
    /// The item at the cursor has not arrived in full.
    Incomplete,
}

/// The item that the scan of an array's elements makes.
pub open spec fn array_scan(items: ItemsScan) -> Scan {
    match items {
        ItemsScan::Done { items, next } => Scan::Frame { elements: items, next },
        ItemsScan::Malformed { next } => Scan::Skip { next },
        ItemsScan::Incomplete => Scan::Incomplete,
    }
}

/// Scans the item at `pos`.
pub open spec fn scan(buf: Seq<u8>, pos: int) -> Scan {
    let lf = line_end(buf, pos);
    let line = line_at(buf, pos);
    if lf >= buf.len() {
        Scan::Incomplete
    } else if line.len() > 0 && line[0] == STAR {
        match length_after(line) {
            None => Scan::Skip { next: lf + 1 },
            Some(count) => array_scan(scan_items(buf, lf + 1, count as nat, Seq::empty())),
        }
    } else if line.len() > 0 && line[0] == DOLLAR {
        match length_after(line) {
            None => Scan::Skip { next: lf + 1 },
            Some(len) => if lf + 1 + len > buf.len() {
                Scan::Incomplete
            } else {
                Scan::Snapshot { next: lf + 1 + len }
            },
        }
    } else {
        Scan::Skip { next: lf + 1 }
    }
}

/// The state of a decoder after a pass over its buffer.
pub struct Parsed {
    /// The frames that were decoded, in order.
    pub frames: Seq<Seq<Seq<u8>>>,
    /// The cursor.
    pub position: int,
    /// The number of bytes counted since the last snapshot blob.
    pub offset: nat,
}

/// Scanning elements moves the cursor forward and keeps it in the buffer.
pub proof fn lemma_scan_items_advances(buf: Seq<u8>, pos: int, count: nat, acc: Seq<Seq<u8>>)
    requires
        0 <= pos <= buf.len(),
    ensures
        match scan_items(buf, pos, count, acc) {
            ItemsScan::Done { items, next } => pos <= next <= buf.len(),
            ItemsScan::Malformed { next } => pos <= next <= buf.len(),
            ItemsScan::Incomplete => true,
        },
    decreases count,
{
    lemma_find_byte(buf, LF, pos);
    if count > 0 {
        match scan_bulk(buf, pos) {
            BulkScan::Item { bytes, next } => {
                lemma_scan_items_advances(buf, next, (count - 1) as nat, acc.push(bytes));
            },
            _ => {},
        }
    }
}

/// A scan that finds something moves the cursor forward and keeps it in the
/// buffer.
pub proof fn lemma_scan_advances(buf: Seq<u8>, pos: int)
    requires
        0 <= pos <= buf.len(),
    ensures
        match scan(buf, pos) {
            Scan::Frame { elements, next } => pos < next <= buf.len(),
            Scan::Snapshot { next } => pos < next <= buf.len(),
            Scan::Skip { next } => pos < next <= buf.len(),
            Scan::Incomplete => true,
        },
{
    lemma_find_byte(buf, LF, pos);
    let lf = line_end(buf, pos);
    let line = line_at(buf, pos);
    if lf < buf.len() && line.len() > 0 && line[0] == STAR {
        match length_after(line) {
            Some(count) => {
                lemma_scan_items_advances(buf, lf + 1, count as nat, Seq::empty());
            },
            None => {},
        }
    }
}

/// Scans item after item from `pos` on, until the item at the cursor has
/// not arrived in full. Frames are added to `acc`; a snapshot blob sets the
/// byte count to the number of bytes that follow it in the buffer.
pub open spec fn parse_all(buf: Seq<u8>, pos: int, offset: nat, acc: Seq<Seq<Seq<u8>>>) -> Parsed
    decreases buf.len() - pos,
{
    if !(0 <= pos <= buf.len()) {
        Parsed { frames: acc, position: pos, offset }
    } else {
        match scan(buf, pos) {
            Scan::Incomplete => Parsed { frames: acc, position: pos, offset },
            Scan::Frame { elements, next } => {
                proof {
                    lemma_scan_advances(buf, pos);
                }
                parse_all(buf, next, offset, acc.push(elements))
            },
            Scan::Snapshot { next } => {
                proof {
                    lemma_scan_advances(buf, pos);
                }
                parse_all(buf, next, (buf.len() - next) as nat, acc)
            },
            Scan::Skip { next } => {
                proof {
                    lemma_scan_advances(buf, pos);
                }
                parse_all(buf, next, offset, acc)
            },
        }
    }
}

/// A scan result with owned bytes.
pub enum Scanned {
    Frame { elements: Vec<Vec<u8>>, next: usize },
    Snapshot { next: usize },
    Skip { next: usize },
    Incomplete,
}

impl Scanned {
    /// The scan result as mathematical values.
    pub open spec fn model(&self) -> Scan {
        match self {
            Scanned::Frame { elements, next } => Scan::Frame {
                elements: views(elements@),
                next: *next as int,
            },
            Scanned::Snapshot { next } => Scan::Snapshot { next: *next as int },
            Scanned::Skip { next } => Scan::Skip { next: *next as int },
            Scanned::Incomplete => Scan::Incomplete,
        }
    }
}

/// The line that starts at `pos` and the index of the line feed that ends
/// it.
fn read_line(buf: &[u8], pos: usize) -> (r: (usize, usize))
    requires
        pos <= buf.len(),
    ensures
        r.0 == line_end(buf@, pos as int),
        pos <= r.0 <= buf.len(),
        pos <= r.1 <= r.0,
        buf@.subrange(pos as int, r.1 as int) == line_at(buf@, pos as int),
{
    let lf = index_of(buf, LF, pos);
    let ghost raw = buf@.subrange(pos as int, lf as int);
    if lf > pos && buf[lf - 1] == CR {
        assert(raw.last() == CR);
        assert(buf@.subrange(pos as int, lf - 1) =~= raw.drop_last());
        (lf, lf - 1)
    } else {
        (lf, lf)
    }
}

/// The number written in decimal in `buf[from + 1..to]`.
fn read_length(buf: &[u8], from: usize, to: usize) -> (r: Option<u64>)
    requires
        from < to <= buf.len(),
    ensures
        r == length_after(buf@.subrange(from as int, to as int)),
{
    let digits = slice_subrange(buf, from + 1, to);
    assert(digits@ =~= buf@.subrange(from as int, to as int).skip(1));
    parse_u64(digits)
}

/// A bulk scan result with owned bytes.
enum BulkScanned {
    Item { bytes: Vec<u8>, next: usize },
    Malformed { next: usize },
    Incomplete,
}

impl BulkScanned {
    spec fn model(&self) -> BulkScan {
        match self {
            BulkScanned::Item { bytes, next } => BulkScan::Item { bytes: bytes@, next: *next as int },
            BulkScanned::Malformed { next } => BulkScan::Malformed { next: *next as int },
            BulkScanned::Incomplete => BulkScan::Incomplete,
        }
    }
}

/// Scans the bulk string that is expected at `pos`.
fn scan_bulk_at(buf: &[u8], pos: usize) -> (r: BulkScanned)
    requires
        pos <= buf.len(),
    ensures
        r.model() == scan_bulk(buf@, pos as int),
{
    let (lf, end) = read_line(buf, pos);
    if lf >= buf.len() {
        return BulkScanned::Incomplete;
    }
    if end == pos || buf[pos] != DOLLAR {
        return BulkScanned::Malformed { next: pos };
    }
    match read_length(buf, pos, end) {
        None => BulkScanned::Malformed { next: lf + 1 },
        Some(len) => {
            let room = buf.len() - (lf + 1);
            if room < 2 || len > (room - 2) as u64 {
                return BulkScanned::Incomplete;
            }
            let start = lf + 1;
            let stop = start + len as usize;
            if buf[stop] != CR || buf[stop + 1] != LF {
                return BulkScanned::Malformed { next: lf + 1 };
            }
            BulkScanned::Item { bytes: copy_range(buf, start, stop), next: stop + 2 }
        },
    }
}

/// Scans the item at `pos`.
pub fn scan_at(buf: &[u8], pos: usize) -> (r: Scanned)
    requires
        pos <= buf.len(),
    ensures
        r.model() == scan(buf@, pos as int),
{
    let (lf, end) = read_line(buf, pos);
    if lf >= buf.len() {
        return Scanned::Incomplete;
    }
    if end > pos && buf[pos] == STAR {
        match read_length(buf, pos, end) {
            None => Scanned::Skip { next: lf + 1 },
            Some(count) => {
                let mut elements: Vec<Vec<u8>> = Vec::new();
                let mut at: usize = lf + 1;
                let mut left: u64 = count;
                assert(views(elements@) =~= Seq::<Seq<u8>>::empty());
                while left > 0
                    invariant
                        at <= buf.len(),
                        scan(buf@, pos as int) == array_scan(
                            scan_items(buf@, at as int, left as nat, views(elements@)),
                        ),
                    decreases left,
                {
                    match scan_bulk_at(buf, at) {
                        BulkScanned::Item { bytes, next } => {
                            proof {
                                lemma_find_byte(buf@, LF, at as int);
                                assert(views(elements@.push(bytes)) =~= views(elements@).push(
                                    bytes@,
                                ));
                            }
                            elements.push(bytes);
                            at = next;
                            left = left - 1;
                        },
                        BulkScanned::Malformed { next } => {
                            return Scanned::Skip { next };
                        },
                        BulkScanned::Incomplete => {
                            return Scanned::Incomplete;
                        },
                    }
                }
                Scanned::Frame { elements, next: at }
            },
        }
    } else if end > pos && buf[pos] == DOLLAR {
        match read_length(buf, pos, end) {
            None => Scanned::Skip { next: lf + 1 },
            Some(len) => {
                let room = buf.len() - (lf + 1);
                if len > room as u64 {
                    Scanned::Incomplete
                } else {
                    Scanned::Snapshot { next: lf + 1 + len as usize }
                }
            },
        }
    } else {
        Scanned::Skip { next: lf + 1 }
    }
}

/// The decoding state of one connection.
pub struct RespConnection {
    pub(crate) buffer: Vec<u8>,
    pub(crate) position: usize,
    pub(crate) offset: usize,
    pub(crate) prev_offset: usize,
}

impl RespConnection {
    #[verifier::type_invariant]
    pub closed spec fn inv(&self) -> bool {
        self.position <= self.buffer.len()
    }

    /// Every byte that the connection was given.
    pub closed spec fn buffer(&self) -> Seq<u8> {
        self.buffer@
    }

    /// The cursor: the index of the first byte that belongs to no decoded item.
    pub closed spec fn position(&self) -> int {
        self.position as int
    }

    /// The number of bytes counted since the last snapshot blob.
    pub closed spec fn offset(&self) -> nat {
        self.offset as nat
    }

    /// The byte count before the bytes that arrived last.
    pub closed spec fn prev_offset(&self) -> nat {
        self.prev_offset as nat
    }

    /// The cursor is inside the buffer. This holds of every connection that
    /// executable code can hold.
    pub open spec fn wf(&self) -> bool {
        0 <= self.position() <= self.buffer().len()
    }

    /// The state of a connection that has received nothing.
    pub fn new() -> (r: Self)
        ensures
            r.buffer() == Seq::<u8>::empty(),
            r.position() == 0,
            r.offset() == 0,
            r.prev_offset() == 0,
    {
        RespConnection { buffer: Vec::new(), position: 0, offset: 0, prev_offset: 0 }
    }

    /// The number of bytes counted since the last snapshot blob.
    pub fn bytes_counted(&self) -> (r: usize)
        ensures
            r == self.offset(),
            self.wf(),
    {
        proof {
            use_type_invariant(self);
        }
        self.offset
    }

    /// The number of bytes that belong to no decoded item yet.
    pub fn pending(&self) -> (r: usize)
        ensures
            r == self.buffer().len() - self.position(),
            self.wf(),
    {
        proof {
            use_type_invariant(self);
        }
        self.buffer.len() - self.position
    }

    /// Decodes every item that is in the buffer in full, from the cursor
    /// on, and returns the frames among them.
    pub fn parse_buffer(&mut self) -> (frames: Vec<Vec<Vec<u8>>>)
        ensures
            final(self).buffer() == old(self).buffer(),
            final(self).prev_offset() == old(self).prev_offset(),
            (Parsed {
                frames: frame_views(frames@),
                position: final(self).position(),
                offset: final(self).offset(),
            }) == parse_all(
                old(self).buffer(),
                old(self).position(),
                old(self).offset(),
                Seq::empty(),
            ),
    {
        proof {
            use_type_invariant(&*self);
        }
        let mut frames: Vec<Vec<Vec<u8>>> = Vec::new();
        assert(frame_views(frames@) =~= Seq::<Seq<Seq<u8>>>::empty());
        loop
            invariant
                self.buffer@ == old(self).buffer@,
                self.prev_offset == old(self).prev_offset,
                self.position <= self.buffer.len(),
                parse_all(
                    old(self).buffer(),
                    old(self).position(),
                    old(self).offset(),
                    Seq::empty(),
                ) == parse_all(
                    self.buffer@,
                    self.position as int,
                    self.offset as nat,
                    frame_views(frames@),
                ),
            decreases self.buffer.len() - self.position,
        {
            proof {
                lemma_scan_advances(self.buffer@, self.position as int);
            }
            match scan_at(self.buffer.as_slice(), self.position) {
                Scanned::Incomplete => {
                    return frames;
                },
                Scanned::Frame { elements, next } => {
                    proof {
                        assert(frame_views(frames@.push(elements)) =~= frame_views(frames@).push(
                            views(elements@),
                        ));
                    }
                    frames.push(elements);
                    self.position = next;
                },
                Scanned::Snapshot { next } => {
                    self.position = next;
                    self.offset = self.buffer.len() - next;
                },
                Scanned::Skip { next } => {
                    self.position = next;
                },
            }
        }
    }

    /// Takes in the bytes that were read from the connection and decodes
    /// what has arrived in full. Returns `None` when nothing was read. The
    /// byte count grows by the number of bytes taken in and stops at
    /// `usize::MAX`.
    pub fn try_read_command(&mut self, incoming: &[u8]) -> (r: Option<Vec<Vec<Vec<u8>>>>)
        ensures
            incoming@.len() == 0 ==> r is None && final(self).buffer() == old(self).buffer()
                && final(self).position() == old(self).position() && final(self).offset() == old(self).offset() && final(self).prev_offset() == old(self).prev_offset(),
            incoming@.len() > 0 ==> r is Some && final(self).buffer() == old(self).buffer()
                + incoming@ && final(self).prev_offset() == old(self).offset() && (Parsed {
                frames: frame_views(r->0@),
                position: final(self).position(),
                offset: final(self).offset(),
            }) == parse_all(
                old(self).buffer() + incoming@,
                old(self).position(),
                counted(old(self).offset(), incoming@.len()),
                Seq::empty(),
            ),
    {
        if incoming.len() == 0 {
            return None;
        }
        proof {
            use_type_invariant(&*self);
        }
        let position = self.position;
        let counted = if incoming.len() > usize::MAX - self.offset {
            usize::MAX
        } else {
            self.offset + incoming.len()
        };
        let previous = self.offset;
        let mut buffer: Vec<u8> = Vec::new();
        self.position = 0;
        core::mem::swap(&mut self.buffer, &mut buffer);
        push_bytes(&mut buffer, incoming);
        core::mem::swap(&mut self.buffer, &mut buffer);
        self.position = position;
        self.prev_offset = previous;
        self.offset = counted;
        Some(self.parse_buffer())
    }

    /// The byte strings of `elements` as an array of bulk strings.
    pub fn format_resp_array(elements: &Vec<Vec<u8>>) -> (r: Vec<u8>)
        ensures
            r@ == resp_array(views(elements@)),
    {
        format_resp_array(elements)
    }

    /// `s` as a simple string.
    pub fn get_simple_str(s: &[u8]) -> (r: Vec<u8>)
        ensures
            r@ == simple_string(s@),
    {
        get_simple_str(s)
    }
}

/// A byte count after `more` bytes were taken in: the sum, or `usize::MAX`
/// where the sum is larger.
pub open spec fn counted(offset: nat, more: nat) -> nat {
    if offset + more > usize::MAX {
        usize::MAX as nat
    } else {
        offset + more
    }
}

/// Where a byte first occurs at index `k` at or after `from`, the search
/// from `from` finds it at `k`.
pub proof fn lemma_find_byte_at(buf: Seq<u8>, b: u8, from: int, k: int)
    requires
        0 <= from <= k < buf.len(),
        buf[k] == b,
        forall|i: int| from <= i < k ==> buf[i] != b,
    ensures
        find_byte(buf, b, from) == k,
    decreases k - from,
{
    if from < k {
        lemma_find_byte_at(buf, b, from + 1, k);
    }
}

/// The line `mark`, a number in decimal and a line end, standing at `pos`,
/// is read as that line, and its number as that number.
pub proof fn lemma_header_line(buf: Seq<u8>, pos: int, mark: u8, n: nat)
    requires
        n <= u64::MAX,
        mark != LF,
        0 <= pos,
        pos + 1 + decimal(n).len() + 2 <= buf.len(),
        buf.subrange(pos, pos + 1 + decimal(n).len() + 2) == seq![mark] + decimal(n) + crlf(),
    ensures
        line_end(buf, pos) == pos + 1 + decimal(n).len() + 1,
        line_at(buf, pos).len() > 0,
        line_at(buf, pos)[0] == mark,
        length_after(line_at(buf, pos)) == Some(n as u64),
{
    lemma_decimal_round_trip(n);
    let d = decimal(n);
    let text = seq![mark] + d + crlf();
    let lf = pos + 1 + d.len() + 1;
    assert forall|i: int| 0 <= i < text.len() implies buf[pos + i] == text[i] by {
        assert(buf.subrange(pos, pos + 1 + d.len() + 2)[i] == buf[pos + i]);
    }
    assert(buf[lf] == LF) by {
        assert(text[1 + d.len() as int + 1] == LF);
    }
    assert forall|i: int| pos <= i < lf implies buf[i] != LF by {
        let j = i - pos;
        assert(buf[i] == text[j]);
        if 1 <= j <= d.len() {
            assert(text[j] == d[j - 1]);
            assert(is_digit(d[j - 1]));
        } else if j == d.len() + 1 {
            assert(text[j] == CR);
        }
    }
    lemma_find_byte_at(buf, LF, pos, lf);
    let raw = buf.subrange(pos, lf);
    assert(raw =~= seq![mark] + d + seq![CR]);
    assert(raw.last() == CR);
    assert(raw.drop_last() =~= seq![mark] + d);
    assert((seq![mark] + d).skip(1) =~= d);
}

/// A bulk string standing at `pos` is scanned as its bytes.
pub proof fn lemma_scan_bulk_item(buf: Seq<u8>, pos: int, x: Seq<u8>)
    requires
        x.len() <= u64::MAX,
        0 <= pos,
        pos + bulk_string(x).len() <= buf.len(),
        buf.subrange(pos, pos + bulk_string(x).len()) == bulk_string(x),
    ensures
        scan_bulk(buf, pos) == (BulkScan::Item { bytes: x, next: pos + bulk_string(x).len() }),
{
    let d = decimal(x.len());
    let enc = bulk_string(x);
    let head: int = 1 + d.len() as int + 2;
    assert(enc.len() == head + x.len() + 2);
    assert forall|i: int| 0 <= i < enc.len() implies buf[pos + i] == enc[i] by {
        assert(buf.subrange(pos, pos + enc.len())[i] == buf[pos + i]);
    }
    assert(buf.subrange(pos, pos + head) =~= seq![DOLLAR] + d + crlf());
    lemma_header_line(buf, pos, DOLLAR, x.len());
    let lf = pos + head - 1;
    assert(buf[lf + 1 + x.len()] == CR) by {
        assert(enc[head + x.len() as int] == CR);
    }
    assert(buf[lf + 1 + x.len() + 1] == LF) by {
        assert(enc[head + x.len() as int + 1] == LF);
    }
    assert(buf.subrange(lf + 1, lf + 1 + x.len()) =~= x) by {
        assert forall|i: int| 0 <= i < x.len() implies buf[lf + 1 + i] == x[i] by {
            assert(enc[head + i] == x[i]);
        }
    }
}

/// The bulk strings of the first `k` elements are the start of the bulk
/// strings of all elements.
pub proof fn lemma_bulk_strings_prefix(items: Seq<Seq<u8>>, k: int)
    requires
        0 <= k <= items.len(),
    ensures
        bulk_strings(items.subrange(0, k)).len() <= bulk_strings(items).len(),
        bulk_strings(items).subrange(0, bulk_strings(items.subrange(0, k)).len() as int)
            == bulk_strings(items.subrange(0, k)),
    decreases items.len() - k,
{
    if k == items.len() {
        assert(items.subrange(0, k) =~= items);
        assert(bulk_strings(items).subrange(0, bulk_strings(items).len() as int) =~= bulk_strings(
            items,
        ));
    } else {
        lemma_bulk_strings_prefix(items, k + 1);
        let longer = items.subrange(0, k + 1);
        assert(longer.drop_last() =~= items.subrange(0, k));
        let a = bulk_strings(items.subrange(0, k));
        let b = bulk_strings(longer);
        assert(b == a + bulk_string(longer.last()));
        assert(bulk_strings(items).subrange(0, a.len() as int) =~= b.subrange(0, a.len() as int));
        assert(b.subrange(0, a.len() as int) =~= a);
    }
}

/// The elements of an encoded frame, from the `k`-th on, are scanned as
/// themselves.
pub proof fn lemma_scan_items_round_trip(buf: Seq<u8>, start: int, frame: Seq<Seq<u8>>, k: int)
    requires
        0 <= k <= frame.len(),
        forall|i: int| 0 <= i < frame.len() ==> (#[trigger] frame[i]).len() <= u64::MAX,
        0 <= start,
        start + bulk_strings(frame).len() <= buf.len(),
        buf.subrange(start, start + bulk_strings(frame).len()) == bulk_strings(frame),
    ensures
        scan_items(
            buf,
            start + bulk_strings(frame.subrange(0, k)).len(),
            (frame.len() - k) as nat,
            frame.subrange(0, k),
        ) == (ItemsScan::Done { items: frame, next: start + bulk_strings(frame).len() }),
    decreases frame.len() - k,
{
    let all = bulk_strings(frame);
    if k == frame.len() {
        assert(frame.subrange(0, k) =~= frame);
    } else {
        let shorter = frame.subrange(0, k);
        let longer = frame.subrange(0, k + 1);
        assert(longer.drop_last() =~= shorter);
        assert(longer.last() == frame[k]);
        let a = bulk_strings(shorter);
        let b = bulk_strings(longer);
        let x = frame[k];
        assert(b == a + bulk_string(x));
        lemma_bulk_strings_prefix(frame, k + 1);
        let at = start + a.len();
        assert(buf.subrange(at, at + bulk_string(x).len()) =~= bulk_string(x)) by {
            assert forall|i: int| 0 <= i < bulk_string(x).len() implies buf[at + i] == bulk_string(
                x,
            )[i] by {
                assert(buf.subrange(start, start + all.len())[a.len() + i] == buf[at + i]);
                assert(all.subrange(0, b.len() as int)[a.len() + i] == all[a.len() + i]);
                assert(b[a.len() + i] == bulk_string(x)[i]);
            }
        }
        lemma_scan_bulk_item(buf, at, x);
        assert(shorter.push(x) =~= longer);
        lemma_scan_items_round_trip(buf, start, frame, k + 1);
    }
}

/// A command frame that was encoded as an array of bulk strings is scanned
/// as that frame, whatever stands before and after it. The elements may hold
/// any bytes, line ends among them.
pub proof fn lemma_frame_round_trip(before: Seq<u8>, frame: Seq<Seq<u8>>, after: Seq<u8>)
    requires
        frame.len() <= u64::MAX,
        forall|i: int| 0 <= i < frame.len() ==> (#[trigger] frame[i]).len() <= u64::MAX,
    ensures
        scan(before + resp_array(frame) + after, before.len() as int) == (Scan::Frame {
            elements: frame,
            next: (before.len() + resp_array(frame).len()) as int,
        }),
{
    let buf = before + resp_array(frame) + after;
    let pos = before.len() as int;
    let head = array_header(frame.len());
    let body = bulk_strings(frame);
    assert(buf.subrange(pos, pos + head.len()) =~= head);
    lemma_decimal_round_trip(frame.len());
    lemma_header_line(buf, pos, STAR, frame.len());
    let start = pos + head.len();
    assert(buf.subrange(start, start + body.len()) =~= body);
    assert(frame.subrange(0, 0) =~= Seq::<Seq<u8>>::empty());
    assert(bulk_strings(frame.subrange(0, 0)).len() == 0);
    lemma_scan_items_round_trip(buf, start, frame, 0);
}

/// Decoding the encoding of one command frame gives that frame and nothing
/// else, and leaves the cursor at the end.
pub proof fn lemma_parse_encoded_frame(frame: Seq<Seq<u8>>, offset: nat)
    requires
        frame.len() <= u64::MAX,
        forall|i: int| 0 <= i < frame.len() ==> (#[trigger] frame[i]).len() <= u64::MAX,
    ensures
        parse_all(resp_array(frame), 0, offset, Seq::empty()) == (Parsed {
            frames: seq![frame],
            position: resp_array(frame).len() as int,
            offset,
        }),
{
    let buf = resp_array(frame);
    lemma_frame_round_trip(Seq::empty(), frame, Seq::empty());
    assert(Seq::<u8>::empty() + buf + Seq::<u8>::empty() =~= buf);
    let end = buf.len() as int;
    lemma_decimal_round_trip(frame.len());
    assert(scan(buf, end) == Scan::Incomplete);
    assert(Seq::<Seq<Seq<u8>>>::empty().push(frame) =~= seq![frame]);
    assert(parse_all(buf, end, offset, seq![frame]) == (Parsed {
        frames: seq![frame],
        position: end,
        offset,
    }));
}

} // verus!
