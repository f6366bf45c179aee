//! Append-only streams: entries with strictly increasing identifiers, a
//! counter per millisecond for identifiers that the server makes up, and the
//! connections that wait for the next entry.

use std::collections::HashMap;
use vstd::prelude::*;
use vstd::slice::slice_subrange;
use vstd::string::StringSliceAdditionalSpecFns;
use crate::bytes::{clone_bytes, decimal, find_byte, index_of, parse_decimal, parse_u64,
    push_decimal, text};
use crate::constants::{SMALLER_ERROR, ZERO_ERROR};
use crate::utils::{bulk_string, get_bulk_string, message_views};

verus! {

broadcast use vstd::std_specs::hash::group_hash_axioms;

/// ASCII `-`, which parts the two numbers of an identifier.
pub const DASH: u8 = 45;

/// An entry's identifier: a time in milliseconds and a sequence number.
#[derive(Debug, Clone, Copy, PartialEq, Eq)]
pub struct StreamId {
    pub ms: u64,
    pub seq: u64,
}

impl StreamId {
    /// Whether this identifier is smaller than `other`: by time, then by
    /// sequence number.
    pub open spec fn lt(self, other: StreamId) -> bool {
        self.ms < other.ms || (self.ms == other.ms && self.seq < other.seq)
    }

    /// Whether this identifier is `other` or smaller.
    pub open spec fn le(self, other: StreamId) -> bool {
        self.lt(other) || self == other
    }

    /// The identifier as text: the two numbers in decimal with a dash
    /// between them.
    pub open spec fn text(self) -> Seq<u8> {
        decimal(self.ms as nat) + seq![DASH] + decimal(self.seq as nat)
    }

    /// Whether this identifier is smaller than `other`.
    pub fn is_before(&self, other: &StreamId) -> (r: bool)
        ensures
            r == self.lt(*other),
    {
        self.ms < other.ms || (self.ms == other.ms && self.seq < other.seq)
    }

    /// Whether this identifier is `other`.
    pub fn is(&self, other: &StreamId) -> (r: bool)
        ensures
            r == (*self == *other),
    {
        self.ms == other.ms && self.seq == other.seq
    }

    /// The identifier as text.
    pub fn to_bytes(&self) -> (r: Vec<u8>)
        ensures
            r@ == self.text(),
    {
        let mut out: Vec<u8> = Vec::new();
        push_decimal(&mut out, self.ms);
        out.push(DASH);
        push_decimal(&mut out, self.seq);
        assert(out@ =~= self.text());
        out
    }
}

/// The smallest identifier.
pub open spec fn min_id() -> StreamId {
    StreamId { ms: 0, seq: 0 }
}

/// The largest identifier.
pub open spec fn max_id() -> StreamId {
    StreamId { ms: u64::MAX, seq: u64::MAX }
}

/// What a client asks for as the identifier of a new entry.
#[derive(Debug, Clone, Copy, PartialEq, Eq)]
pub enum IdRequest {
    /// `*`: the current time, sequence number zero.
    Auto,
    /// `<ms>-*`: the given time, the next sequence number of that time.
    AutoSeq(u64),
    /// `<ms>-<seq>`.
    Explicit(StreamId),
    /// Anything else.
    Malformed,
}

/// The text before the first dash of `s`; all of `s` when it has none.
pub open spec fn before_dash(s: Seq<u8>) -> Seq<u8> {
    s.subrange(0, find_byte(s, DASH, 0))
}

/// The text after the first dash of `s`; `None` when it has none.
pub open spec fn after_dash(s: Seq<u8>) -> Option<Seq<u8>> {
    if find_byte(s, DASH, 0) < s.len() {
        Some(s.subrange(find_byte(s, DASH, 0) + 1, s.len() as int))
    } else {
        None
    }
}

/// Reads the identifier that a client gave for a new entry.
pub open spec fn id_request(s: Seq<u8>) -> IdRequest {
    if s == seq![42u8] {
        IdRequest::Auto
    } else {
        match (parse_decimal(before_dash(s)), after_dash(s)) {
            (Some(ms), Some(rest)) => if rest == seq![42u8] {
                IdRequest::AutoSeq(ms)
            } else {
                match parse_decimal(rest) {
                    Some(seq) => IdRequest::Explicit(StreamId { ms, seq }),
                    None => IdRequest::Malformed,
                }
            },
            _ => IdRequest::Malformed,
        }
    }
}

/// Reads a bound of a range. `missing_seq` stands for a sequence number
/// that the text leaves out.
pub open spec fn parse_bound(s: Seq<u8>, missing_seq: u64) -> Option<StreamId> {
    match (parse_decimal(before_dash(s)), after_dash(s)) {
        (Some(ms), Some(rest)) => match parse_decimal(rest) {
            Some(seq) => Some(StreamId { ms, seq }),
            None => None,
        },
        (Some(ms), None) => Some(StreamId { ms, seq: missing_seq }),
        _ => None,
    }
}

/// The lower bound of an inclusive range: `-` is the smallest identifier,
/// a missing sequence number is zero.
pub open spec fn range_start(s: Seq<u8>) -> Option<StreamId> {
    if s == seq![DASH] {
        Some(min_id())
    } else {
        parse_bound(s, 0)
    }
}

/// The upper bound of an inclusive range: `+` is the largest identifier,
/// a missing sequence number is the largest.
pub open spec fn range_end(s: Seq<u8>) -> Option<StreamId> {
    if s == seq![43u8] {
        Some(max_id())
    } else {
        parse_bound(s, u64::MAX)
    }
}

/// The identifier after which a read starts: `$` is the identifier that
/// was given out last, `-` the smallest identifier, a missing sequence
/// number is zero.
pub open spec fn read_start(s: Seq<u8>, last: StreamId) -> Option<StreamId> {
    if s == seq![36u8] {
        Some(last)
    } else if s == seq![DASH] {
        Some(min_id())
    } else {
        parse_bound(s, 0)
    }
}

/// Whether `s` is the single byte `b`.
fn is_byte(s: &[u8], b: u8) -> (r: bool)
    ensures
        r == (s@ == seq![b]),
{
    if s.len() == 1 && s[0] == b {
        assert(s@ =~= seq![b]);
        true
    } else {
        false
    }
}

/// Reads the identifier that a client gave for a new entry.
pub fn parse_id_request(s: &[u8]) -> (r: IdRequest)
    ensures
        r == id_request(s@),
{
    if is_byte(s, 42) {
        return IdRequest::Auto;
    }
    let dash = index_of(s, DASH, 0);
    let head = slice_subrange(s, 0, dash);
    let ms = match parse_u64(head) {
        Some(v) => v,
        None => {
            return IdRequest::Malformed;
        },
    };
    if dash >= s.len() {
        return IdRequest::Malformed;
    }
    let rest = slice_subrange(s, dash + 1, s.len());
    if is_byte(rest, 42) {
        return IdRequest::AutoSeq(ms);
    }
    match parse_u64(rest) {
        Some(seq) => IdRequest::Explicit(StreamId { ms, seq }),
        None => IdRequest::Malformed,
    }
}

/// Reads a bound of a range.
pub fn read_bound(s: &[u8], missing_seq: u64) -> (r: Option<StreamId>)
    ensures
        r == parse_bound(s@, missing_seq),
{
    let dash = index_of(s, DASH, 0);
    let head = slice_subrange(s, 0, dash);
    let ms = match parse_u64(head) {
        Some(v) => v,
        None => {
            return None;
        },
    };
    if dash >= s.len() {
        return Some(StreamId { ms, seq: missing_seq });
    }
    let rest = slice_subrange(s, dash + 1, s.len());
    match parse_u64(rest) {
        Some(seq) => Some(StreamId { ms, seq }),
        None => None,
    }
}

/// Field and value pairs, in the order given.
pub type Fields = Seq<(Seq<u8>, Seq<u8>)>;

/// The pairs that a vector of pairs holds.
pub open spec fn field_views(v: Seq<(Vec<u8>, Vec<u8>)>) -> Fields {
    Seq::new(v.len(), |i: int| (v[i].0@, v[i].1@))
}

/// One entry of a stream.
#[derive(Debug, PartialEq, Eq)]
pub struct RedisEntry {
    /// The entry's identifier.
    pub id: StreamId,
    /// The entry's fields with their values, in the order given.
    pub values: Vec<(Vec<u8>, Vec<u8>)>,
    /// The identifier of the entry that follows this one.
    pub next_sequence_id: Option<StreamId>,
    /// The identifier of the entry that precedes this one.
    pub prev_entry_id: Option<StreamId>,
    /// When the entry was added, in milliseconds since the epoch.
    pub insertion_time: u64,
}

/// What an entry holds, as mathematical values.
pub struct EntryModel {
    pub id: StreamId,
    pub values: Fields,
    pub next_sequence_id: Option<StreamId>,
    pub prev_entry_id: Option<StreamId>,
    pub insertion_time: u64,
}

impl View for RedisEntry {
    type V = EntryModel;

    open spec fn view(&self) -> EntryModel {
        EntryModel {
            id: self.id,
            values: field_views(self.values@),
            next_sequence_id: self.next_sequence_id,
            prev_entry_id: self.prev_entry_id,
            insertion_time: self.insertion_time,
        }
    }
}

/// The entries that a vector of entries holds.
pub open spec fn entry_views(v: Seq<RedisEntry>) -> Seq<EntryModel> {
    Seq::new(v.len(), |i: int| v[i]@)
}

/// A copy of field and value pairs.
pub fn clone_fields(v: &Vec<(Vec<u8>, Vec<u8>)>) -> (r: Vec<(Vec<u8>, Vec<u8>)>)
    ensures
        field_views(r@) == field_views(v@),
{
    let mut out: Vec<(Vec<u8>, Vec<u8>)> = Vec::new();
    let mut i: usize = 0;
    while i < v.len()
        invariant
            i <= v.len(),
            out.len() == i,
            forall|j: int| 0 <= j < i ==> out@[j].0@ == v@[j].0@ && out@[j].1@ == v@[j].1@,
        decreases v.len() - i,
    {
        out.push((v[i].0.clone(), v[i].1.clone()));
        i += 1;
    }
    assert(field_views(out@) =~= field_views(v@));
    out
}

impl RedisEntry {
    /// An entry with the given fields that follows the entry `prev_entry_id`
    /// and has no successor yet.
    pub fn new(
        id: StreamId,
        v: Vec<(Vec<u8>, Vec<u8>)>,
        prev_entry_id: Option<StreamId>,
        insertion_time: u64,
    ) -> (r: Self)
        ensures
            r@ == (EntryModel {
                id,
                values: field_views(v@),
                next_sequence_id: None,
                prev_entry_id,
                insertion_time,
            }),
    {
        RedisEntry { id, values: v, next_sequence_id: None, prev_entry_id, insertion_time }
    }

    /// A copy of the entry.
    pub fn duplicate(&self) -> (r: Self)
        ensures
            r@ == self@,
    {
        RedisEntry {
            id: self.id,
            values: clone_fields(&self.values),
            next_sequence_id: self.next_sequence_id,
            prev_entry_id: self.prev_entry_id,
            insertion_time: self.insertion_time,
        }
    }

    /// The entry's fields and values as an array of bulk strings.
    pub fn entry_resp_array(&self) -> (r: Vec<u8>)
        ensures
            r@ == fields_reply(self@.values),
    {
        let mut out: Vec<u8> = Vec::new();
        push_fields_reply(&mut out, &self.values);
        assert(out@ =~= fields_reply(self@.values));
        out
    }
}

/// Fields and values as bulk strings, one after the other.
pub open spec fn field_strings(fields: Fields) -> Seq<u8>
    decreases fields.len(),
{
    if fields.len() == 0 {
        Seq::<u8>::empty()
    } else {
        field_strings(fields.drop_last()) + bulk_string(fields.last().0) + bulk_string(
            fields.last().1,
        )
    }
}

/// Fields and values as an array of bulk strings: each field followed by
/// its value.
pub open spec fn fields_reply(fields: Fields) -> Seq<u8> {
    crate::utils::array_header(2 * fields.len()) + field_strings(fields)
}

/// An entry as an array of two elements: its identifier and its fields.
pub open spec fn entry_reply(e: EntryModel) -> Seq<u8> {
    crate::utils::array_header(2) + bulk_string(e.id.text()) + fields_reply(e.values)
}

/// Entries as replies, one after the other.
pub open spec fn entry_replies(entries: Seq<EntryModel>) -> Seq<u8>
    decreases entries.len(),
{
    if entries.len() == 0 {
        Seq::<u8>::empty()
    } else {
        entry_replies(entries.drop_last()) + entry_reply(entries.last())
    }
}

/// The reply that lists the given entries: the null bulk string when there
/// are none, otherwise an array with one element for each.
pub open spec fn stream_reply(entries: Seq<EntryModel>) -> Seq<u8> {
    if entries.len() == 0 {
        crate::constants::RESP_NULL.spec_bytes()
    } else {
        crate::utils::array_header(entries.len()) + entry_replies(entries)
    }
}

/// Appends fields and values as an array of bulk strings.
pub fn push_fields_reply(out: &mut Vec<u8>, values: &Vec<(Vec<u8>, Vec<u8>)>)
    ensures
        final(out)@ == old(out)@ + fields_reply(field_views(values@)),
{
    let ghost before = out@;
    let ghost fields = field_views(values@);
    crate::utils::push_array_header_wide(out, 2 * (values.len() as u128));
    let ghost head = out@;
    let mut i: usize = 0;
    assert(fields.subrange(0, 0) =~= Seq::<(Seq<u8>, Seq<u8>)>::empty());
    while i < values.len()
        invariant
            i <= values.len(),
            fields == field_views(values@),
            out@ == head + field_strings(fields.subrange(0, i as int)),
        decreases values.len() - i,
    {
        crate::utils::push_bulk_string(out, values[i].0.as_slice());
        crate::utils::push_bulk_string(out, values[i].1.as_slice());
        proof {
            let grown = fields.subrange(0, i + 1);
            assert(grown.drop_last() =~= fields.subrange(0, i as int));
            assert(grown.last() == fields[i as int]);
        }
        i += 1;
    }
    assert(fields.subrange(0, i as int) =~= fields);
    assert(out@ =~= before + fields_reply(fields));
}

/// Whether an entry is wanted by a read: its identifier lies from `lo`
/// (itself included if `inclusive`) up to `hi`, and it was added from
/// `from_ms` up to `until_ms`.
pub open spec fn wanted(
    e: EntryModel,
    lo: StreamId,
    inclusive: bool,
    hi: StreamId,
    from_ms: u64,
    until_ms: u64,
) -> bool {
    &&& if inclusive {
        lo.le(e.id)
    } else {
        lo.lt(e.id)
    }
    &&& e.id.le(hi)
    &&& from_ms <= e.insertion_time <= until_ms
}

/// The wanted entries among `entries`, in order.
pub open spec fn matching(
    entries: Seq<EntryModel>,
    lo: StreamId,
    inclusive: bool,
    hi: StreamId,
    from_ms: u64,
    until_ms: u64,
) -> Seq<EntryModel>
    decreases entries.len(),
{
    if entries.len() == 0 {
        Seq::<EntryModel>::empty()
    } else {
        let rest = matching(entries.drop_last(), lo, inclusive, hi, from_ms, until_ms);
        if wanted(entries.last(), lo, inclusive, hi, from_ms, until_ms) {
            rest.push(entries.last())
        } else {
            rest
        }
    }
}

/// The entries with identifiers from `lo` to `hi`, both included.
pub open spec fn between(entries: Seq<EntryModel>, lo: StreamId, hi: StreamId) -> Seq<EntryModel> {
    matching(entries, lo, true, hi, 0, u64::MAX)
}

/// The entries with identifiers larger than `start`.
pub open spec fn after(entries: Seq<EntryModel>, start: StreamId) -> Seq<EntryModel> {
    matching(entries, start, false, max_id(), 0, u64::MAX)
}

/// The entries with identifiers larger than `start` that were added from
/// `from_ms` up to `until_ms`.
pub open spec fn after_within(
    entries: Seq<EntryModel>,
    start: StreamId,
    from_ms: u64,
    until_ms: u64,
) -> Seq<EntryModel> {
    matching(entries, start, false, max_id(), from_ms, until_ms)
}

/// The identifier that a request asks for, given the time and the counter
/// of the request's millisecond.
pub open spec fn candidate(request: IdRequest, now_ms: u64, counter: u64) -> Option<StreamId> {
    match request {
        IdRequest::Auto => Some(StreamId { ms: now_ms, seq: 0 }),
        IdRequest::AutoSeq(ms) => Some(
            StreamId {
                ms,
                seq: if ms == 0 && counter == 0 {
                    1
                } else {
                    counter
                },
            },
        ),
        IdRequest::Explicit(id) => Some(id),
        IdRequest::Malformed => None,
    }
}

/// Whether a new entry may take the identifier: it must not be `0-0` and
/// must be larger than the identifier that was given out last.
pub open spec fn acceptable(id: Option<StreamId>, last: StreamId) -> bool {
    id is Some && id->0 != min_id() && last.lt(id->0)
}

/// The reply to a request for an identifier.
pub open spec fn id_reply(id: Option<StreamId>, last: StreamId) -> Seq<u8> {
    if id == Some(min_id()) {
        ZERO_ERROR.spec_bytes()
    } else if acceptable(id, last) {
        bulk_string(id->0.text())
    } else {
        SMALLER_ERROR.spec_bytes()
    }
}

/// The counters after a request was read: `*` sets the counter of the
/// current millisecond to one, `<ms>-*` raises the counter of `ms` by one
/// (up to the largest number), other requests leave the counters alone.
pub open spec fn counters_after(counters: Map<u64, u64>, request: IdRequest, now_ms: u64) -> Map<
    u64,
    u64,
> {
    match request {
        IdRequest::Auto => counters.insert(now_ms, 1),
        IdRequest::AutoSeq(ms) => counters.insert(ms, bump(counter_of(counters, ms))),
        _ => counters,
    }
}

/// The counter of millisecond `ms`: zero until it was first asked for.
pub open spec fn counter_of(counters: Map<u64, u64>, ms: u64) -> u64 {
    if counters.dom().contains(ms) {
        counters[ms]
    } else {
        0
    }
}

/// A counter raised by one, up to the largest number.
pub open spec fn bump(n: u64) -> u64 {
    if n == u64::MAX {
        n
    } else {
        (n + 1) as u64
    }
}

/// The entries of one stream in the reply to a read: the stream's name
/// and an array of its entries.
pub open spec fn stream_section(name: Seq<u8>, entries: Seq<EntryModel>) -> Seq<u8> {
    crate::utils::array_header(2) + bulk_string(name) + crate::utils::array_header(entries.len())
        + entry_replies(entries)
}

/// The sections of the given streams, one after the other.
pub open spec fn stream_sections(streams: Seq<(Seq<u8>, Seq<EntryModel>)>) -> Seq<u8>
    decreases streams.len(),
{
    if streams.len() == 0 {
        Seq::<u8>::empty()
    } else {
        stream_sections(streams.drop_last()) + stream_section(
            streams.last().0,
            streams.last().1,
        )
    }
}

/// The reply to a read over several streams: the null bulk string when no
/// stream has an entry for it, otherwise an array with one section for each
/// stream.
pub open spec fn xread_reply(streams: Seq<(Seq<u8>, Seq<EntryModel>)>) -> Seq<u8> {
    if streams.len() == 0 {
        crate::constants::RESP_NULL.spec_bytes()
    } else {
        crate::utils::array_header(streams.len()) + stream_sections(streams)
    }
}

/// The entry that an accepted request adds.
pub open spec fn new_entry(
    id: StreamId,
    values: Fields,
    prev: Option<StreamId>,
    now_ms: u64,
) -> EntryModel {
    EntryModel { id, values, next_sequence_id: None, prev_entry_id: prev, insertion_time: now_ms }
}

/// The entries after `e` was added: the entry that was last is linked to
/// `e`, and `e` stands at the end.
pub open spec fn appended(entries: Seq<EntryModel>, e: EntryModel) -> Seq<EntryModel> {
    if entries.len() == 0 {
        seq![e]
    } else {
        entries.update(
            entries.len() - 1,
            EntryModel { next_sequence_id: Some(e.id), ..entries.last() },
        ).push(e)
    }
}

/// What is sent to the connections that waited for an entry of the stream
/// `name`: to each the reply of a read that found just the new entry.
pub open spec fn wake_up(waiters: Seq<u64>, name: Seq<u8>, e: EntryModel) -> Seq<(u64, Seq<u8>)> {
    Seq::new(waiters.len(), |i: int| (waiters[i], xread_reply(seq![(name, seq![e])])))
}

/// What adding an entry does: the stream afterwards, the reply, and what
/// is sent to which waiting connection. `id` is what the client gave as the
/// identifier, `now_ms` the time in milliseconds since the epoch. Where the
/// identifier is refused no entry is added and nobody is woken.
pub open spec fn add_outcome(
    before: StreamModel,
    name: Seq<u8>,
    id: Seq<u8>,
    values: Fields,
    now_ms: u64,
) -> (StreamModel, Seq<u8>, Seq<(u64, Seq<u8>)>) {
    let request = id_request(id);
    let wish = candidate(request, now_ms, counter_of(before.sequences, request->AutoSeq_0));
    let added = new_entry(wish->0, values, before.last_sequence_id, now_ms);
    let counters = counters_after(before.sequences, request, now_ms);
    if acceptable(wish, before.last_id) {
        (
            StreamModel {
                entries: appended(before.entries, added),
                last_id: wish->0,
                sequences: counters,
                first_sequence_id: if before.entries.len() == 0 {
                    Some(wish->0)
                } else {
                    before.first_sequence_id
                },
                last_sequence_id: Some(wish->0),
                waiting_streams: Seq::empty(),
            },
            id_reply(wish, before.last_id),
            wake_up(before.waiting_streams, name, added),
        )
    } else {
        (
            StreamModel { sequences: counters, ..before },
            id_reply(wish, before.last_id),
            Seq::empty(),
        )
    }
}

/// The reply that tells a malformed range bound.
pub const INVALID_ID_ERROR: &'static str =
    "-ERR Invalid stream ID specified as stream command argument\r\n";

/// An append-only stream.
pub struct RedisEntryStream {
    pub(crate) entries: Vec<RedisEntry>,
    pub(crate) last_id: StreamId,
    pub(crate) sequences: HashMap<u64, u64>,
    pub(crate) first_sequence_id: Option<StreamId>,
    pub(crate) last_sequence_id: Option<StreamId>,
    pub(crate) waiting_streams: Vec<u64>,
}

/// The state of a stream, as mathematical values.
pub struct StreamModel {
    /// The entries, oldest first.
    pub entries: Seq<EntryModel>,
    /// The identifier that was given out last; `0-0` before the first.
    pub last_id: StreamId,
    /// The counters for made-up sequence numbers, by millisecond.
    pub sequences: Map<u64, u64>,
    /// The identifier of the oldest entry.
    pub first_sequence_id: Option<StreamId>,
    /// The identifier of the newest entry.
    pub last_sequence_id: Option<StreamId>,
    /// The connections that wait for the next entry.
    pub waiting_streams: Seq<u64>,
}

impl StreamModel {
    /// Identifiers increase strictly from entry to entry, none is `0-0` or
    /// larger than the identifier given out last, the stream knows its first
    /// and its last entry, and every entry is linked to its neighbours.
    pub open spec fn wf(&self) -> bool {
        &&& forall|i: int, j: int|
            0 <= i < j < self.entries.len() ==> self.entries[i].id.lt(self.entries[j].id)
        &&& forall|i: int|
            0 <= i < self.entries.len() ==> min_id().lt((#[trigger] self.entries[i]).id)
                && self.entries[i].id.le(self.last_id)
        &&& self.first_sequence_id == if self.entries.len() > 0 {
            Some(self.entries[0].id)
        } else {
            None
        }
        &&& self.last_sequence_id == if self.entries.len() > 0 {
            Some(self.entries.last().id)
        } else {
            None
        }
        &&& forall|i: int|
            0 <= i < self.entries.len() ==> (#[trigger] self.entries[i]).prev_entry_id == if i
                > 0 {
                Some(self.entries[i - 1].id)
            } else {
                None
            }
        &&& forall|i: int|
            0 <= i < self.entries.len() ==> (#[trigger] self.entries[i]).next_sequence_id == if i
                + 1 < self.entries.len() {
                Some(self.entries[i + 1].id)
            } else {
                None
            }
    }
}

impl View for RedisEntryStream {
    type V = StreamModel;

    closed spec fn view(&self) -> StreamModel {
        StreamModel {
            entries: entry_views(self.entries@),
            last_id: self.last_id,
            sequences: self.sequences@,
            first_sequence_id: self.first_sequence_id,
            last_sequence_id: self.last_sequence_id,
            waiting_streams: self.waiting_streams@,
        }
    }
}

/// The first entry's identifier is at most the last entry's.
pub proof fn lemma_first_before_last(m: StreamModel)
    requires
        m.wf(),
        m.entries.len() > 0,
    ensures
        m.first_sequence_id is Some,
        m.last_sequence_id is Some,
        m.first_sequence_id->0.le(m.last_sequence_id->0),
        m.last_sequence_id->0.le(m.last_id),
{
    if m.entries.len() > 1 {
        assert(m.entries[0].id.lt(m.entries[m.entries.len() - 1].id));
    }
    assert(m.entries[m.entries.len() - 1].id.le(m.last_id));
}

impl RedisEntryStream {
    #[verifier::type_invariant]
    pub closed spec fn inv(&self) -> bool {
        self@.wf()
    }

    /// An empty stream.
    pub fn new() -> (r: Self)
        ensures
            r@ == (StreamModel {
                entries: Seq::empty(),
                last_id: min_id(),
                sequences: Map::empty(),
                first_sequence_id: None,
                last_sequence_id: None,
                waiting_streams: Seq::empty(),
            }),
            r@.wf(),
    {
        let r = RedisEntryStream {
            entries: Vec::new(),
            last_id: StreamId { ms: 0, seq: 0 },
            sequences: HashMap::new(),
            first_sequence_id: None,
            last_sequence_id: None,
            waiting_streams: Vec::new(),
        };
        assert(r@.entries =~= Seq::<EntryModel>::empty());
        r
    }

    /// The number of entries.
    pub fn len(&self) -> (r: usize)
        ensures
            r == self@.entries.len(),
            self@.wf(),
    {
        proof {
            use_type_invariant(self);
        }
        self.entries.len()
    }

    /// The identifier that was given out last.
    pub fn last_id(&self) -> (r: StreamId)
        ensures
            r == self@.last_id,
            self@.wf(),
    {
        proof {
            use_type_invariant(self);
        }
        self.last_id
    }

    /// The counter of millisecond `seq`, which is then raised by one.
    pub fn get_next_sequence(&mut self, seq: u64) -> (r: u64)
        ensures
            r == counter_of(old(self)@.sequences, seq),
            final(self)@ == (StreamModel {
                sequences: old(self)@.sequences.insert(seq, bump(r)),
                ..old(self)@
            }),
            final(self)@.wf(),
    {
        proof {
            use_type_invariant(&*self);
        }
        let mut taken = RedisEntryStream::new();
        core::mem::swap(self, &mut taken);
        let RedisEntryStream {
            entries,
            last_id,
            sequences: mut sequences,
            first_sequence_id,
            last_sequence_id,
            waiting_streams,
        } = taken;
        let current: u64 = match sequences.get(&seq) {
            Some(n) => *n,
            None => 0,
        };
        let raised: u64 = if current == u64::MAX {
            current
        } else {
            current + 1
        };
        sequences.insert(seq, raised);
        *self = RedisEntryStream {
            entries,
            last_id,
            sequences,
            first_sequence_id,
            last_sequence_id,
            waiting_streams,
        };
        current
    }

    /// Sets the counter of millisecond `ms` to one.
    fn restart_sequence(&mut self, ms: u64)
        ensures
            final(self)@ == (StreamModel {
                sequences: old(self)@.sequences.insert(ms, 1),
                ..old(self)@
            }),
    {
        proof {
            use_type_invariant(&*self);
        }
        let mut taken = RedisEntryStream::new();
        core::mem::swap(self, &mut taken);
        let RedisEntryStream {
            entries,
            last_id,
            sequences: mut sequences,
            first_sequence_id,
            last_sequence_id,
            waiting_streams,
        } = taken;
        sequences.insert(ms, 1);
        *self = RedisEntryStream {
            entries,
            last_id,
            sequences,
            first_sequence_id,
            last_sequence_id,
            waiting_streams,
        };
    }

    /// Decides on the identifier of a new entry. `id` is what the client
    /// gave and `now_ms` the time in milliseconds since the epoch. Returns
    /// whether the identifier was accepted, and the reply: the identifier as
    /// a bulk string, or the error that says why it was refused. An accepted
    /// identifier becomes the one that was given out last.
    pub fn stream_id_response(&mut self, id: &[u8], now_ms: u64) -> (r: (bool, Vec<u8>))
        ensures
            ({
                let request = id_request(id@);
                let wish = candidate(request, now_ms, counter_of(old(self)@.sequences, request->AutoSeq_0));
                &&& r.0 == acceptable(wish, old(self)@.last_id)
                &&& r.1@ == id_reply(wish, old(self)@.last_id)
                &&& final(self)@ == (StreamModel {
                    sequences: counters_after(old(self)@.sequences, request, now_ms),
                    last_id: if r.0 {
                        wish->0
                    } else {
                        old(self)@.last_id
                    },
                    ..old(self)@
                })
            }),
            final(self)@.wf(),
    {
        proof {
            use_type_invariant(&*self);
        }
        let request = parse_id_request(id);
        let wish: StreamId = match request {
            IdRequest::Auto => {
                self.restart_sequence(now_ms);
                StreamId { ms: now_ms, seq: 0 }
            },
            IdRequest::AutoSeq(ms) => {
                let counter = self.get_next_sequence(ms);
                StreamId {
                    ms,
                    seq: if ms == 0 && counter == 0 {
                        1
                    } else {
                        counter
                    },
                }
            },
            IdRequest::Explicit(id) => id,
            IdRequest::Malformed => {
                return (false, text(SMALLER_ERROR));
            },
        };
        if wish.ms == 0 && wish.seq == 0 {
            return (false, text(ZERO_ERROR));
        }
        proof {
            use_type_invariant(&*self);
        }
        if self.last_id.is_before(&wish) {
            self.last_id = wish;
            let shown = wish.to_bytes();
            (true, get_bulk_string(shown.as_slice()))
        } else {
            (false, text(SMALLER_ERROR))
        }
    }

    /// Registers the connection `conn` as waiting for the next entry. A
    /// connection that waits already is not registered twice.
    pub fn add_waiter(&mut self, conn: u64)
        ensures
            final(self)@ == (StreamModel {
                waiting_streams: if old(self)@.waiting_streams.contains(conn) {
                    old(self)@.waiting_streams
                } else {
                    old(self)@.waiting_streams.push(conn)
                },
                ..old(self)@
            }),
            final(self)@.wf(),
    {
        proof {
            use_type_invariant(&*self);
        }
        let ghost before = self@;
        if crate::redis_subscriber::holds_conn(&self.waiting_streams, conn) {
            assert(before.waiting_streams.contains(conn));
            return ;
        }
        assert(!before.waiting_streams.contains(conn));
        let mut taken = RedisEntryStream::new();
        core::mem::swap(self, &mut taken);
        let RedisEntryStream {
            entries,
            last_id,
            sequences,
            first_sequence_id,
            last_sequence_id,
            waiting_streams: mut waiting_streams,
        } = taken;
        waiting_streams.push(conn);
        assert(waiting_streams@ == before.waiting_streams.push(conn));
        assert(entry_views(entries@) == before.entries);
        let added = RedisEntryStream {
            entries,
            last_id,
            sequences,
            first_sequence_id,
            last_sequence_id,
            waiting_streams,
        };
        assert(added@ == (StreamModel {
            waiting_streams: before.waiting_streams.push(conn),
            ..before
        }));
        *self = added;
    }

    /// Takes the connection `conn` out of the connections that wait for the
    /// next entry.
    pub fn remove_waiter(&mut self, conn: u64)
        ensures
            final(self)@ == (StreamModel {
                waiting_streams: crate::redis_subscriber::without_conn(
                    old(self)@.waiting_streams,
                    conn,
                ),
                ..old(self)@
            }),
            final(self)@.wf(),
    {
        proof {
            use_type_invariant(&*self);
        }
        let mut taken = RedisEntryStream::new();
        core::mem::swap(self, &mut taken);
        let RedisEntryStream {
            entries,
            last_id,
            sequences,
            first_sequence_id,
            last_sequence_id,
            waiting_streams: mut waiting_streams,
        } = taken;
        crate::redis_subscriber::remove_conn(&mut waiting_streams, conn);
        *self = RedisEntryStream {
            entries,
            last_id,
            sequences,
            first_sequence_id,
            last_sequence_id,
            waiting_streams,
        };
    }

    /// Adds an entry with the fields `use_vec` to the stream `stream_name`,
    /// under the identifier that `entry_id` asks for, at `now_ms`
    /// milliseconds since the epoch. Returns the reply, and what is to be
    /// sent to which waiting connection. Where the identifier is refused no
    /// entry is added and nobody is woken.
    pub fn handle_add(
        &mut self,
        stream_name: &[u8],
        entry_id: &[u8],
        use_vec: Vec<(Vec<u8>, Vec<u8>)>,
        now_ms: u64,
    ) -> (r: (Vec<u8>, Vec<(u64, Vec<u8>)>))
        ensures
            (final(self)@, r.0@, message_views(r.1@)) == add_outcome(
                old(self)@,
                stream_name@,
                entry_id@,
                field_views(use_vec@),
                now_ms,
            ),
            final(self)@.wf(),
    {
        proof {
            use_type_invariant(&*self);
        }
        let (accepted, reply) = self.stream_id_response(entry_id, now_ms);
        if !accepted {
            let none: Vec<(u64, Vec<u8>)> = Vec::new();
            assert(message_views(none@) =~= Seq::<(u64, Seq<u8>)>::empty());
            return (reply, none);
        }
        let ghost before = self@;
        assert(before.entries == old(self)@.entries);
        assert forall|i: int| 0 <= i < before.entries.len() implies (
        #[trigger] before.entries[i]).id.lt(before.last_id) by {
            assert(old(self)@.entries[i].id.le(old(self)@.last_id));
        }
        let mut taken = RedisEntryStream::new();
        core::mem::swap(self, &mut taken);
        let RedisEntryStream {
            entries: mut entries,
            last_id,
            sequences,
            first_sequence_id,
            last_sequence_id,
            waiting_streams,
        } = taken;
        let entry = RedisEntry::new(last_id, use_vec, last_sequence_id, now_ms);
        let ghost added = entry@;
        let note = single_entry_note(stream_name, &entry);
        let messages = wake(&waiting_streams, &note);
        let first = if entries.len() == 0 {
            Some(last_id)
        } else {
            first_sequence_id
        };
        link_and_push(&mut entries, entry);
        proof {
            assert(before.wf()) by {
                assert(old(self)@.wf());
            }
            lemma_appended_wf(before, added);
        }
        *self = RedisEntryStream {
            entries,
            last_id,
            sequences,
            first_sequence_id: first,
            last_sequence_id: Some(last_id),
            waiting_streams: Vec::new(),
        };
        (reply, messages)
    }

    /// The wanted entries, in order.
    fn collect(
        &self,
        lo: StreamId,
        inclusive: bool,
        hi: StreamId,
        from_ms: u64,
        until_ms: u64,
    ) -> (r: Vec<RedisEntry>)
        ensures
            entry_views(r@) == matching(self@.entries, lo, inclusive, hi, from_ms, until_ms),
    {
        let mut out: Vec<RedisEntry> = Vec::new();
        let mut i: usize = 0;
        let ghost all = self@.entries;
        assert(all.subrange(0, 0) =~= Seq::<EntryModel>::empty());
        assert(entry_views(out@) =~= Seq::<EntryModel>::empty());
        while i < self.entries.len()
            invariant
                i <= self.entries.len(),
                all == self@.entries,
                all.len() == self.entries.len(),
                entry_views(out@) == matching(
                    all.subrange(0, i as int),
                    lo,
                    inclusive,
                    hi,
                    from_ms,
                    until_ms,
                ),
            decreases self.entries.len() - i,
        {
            let e = &self.entries[i];
            proof {
                let grown = all.subrange(0, i + 1);
                assert(grown.drop_last() =~= all.subrange(0, i as int));
                assert(grown.last() == e@);
            }
            let low_ok = if inclusive {
                lo.is_before(&e.id) || lo.is(&e.id)
            } else {
                lo.is_before(&e.id)
            };
            let high_ok = e.id.is_before(&hi) || e.id.is(&hi);
            if low_ok && high_ok && from_ms <= e.insertion_time && e.insertion_time <= until_ms {
                let copy = e.duplicate();
                proof {
                    assert(entry_views(out@.push(copy)) =~= entry_views(out@).push(copy@));
                }
                out.push(copy);
            }
            i += 1;
        }
        assert(all.subrange(0, i as int) =~= all);
        out
    }

    /// The reply that lists the given entries.
    pub fn get_stream_resp_array(&self, v: &Vec<RedisEntry>) -> (r: Vec<u8>)
        ensures
            r@ == stream_reply(entry_views(v@)),
    {
        if v.len() == 0 {
            return text(crate::constants::RESP_NULL);
        }
        let mut out: Vec<u8> = Vec::new();
        crate::utils::push_array_header(&mut out, v.len());
        push_entry_replies(&mut out, v);
        assert(out@ =~= stream_reply(entry_views(v@)));
        out
    }

    /// The reply to a range query: the entries with identifiers from `start`
    /// to `end`, both included. `-` as `start` is the smallest identifier,
    /// `+` as `end` the largest; a bound without a sequence number stands
    /// for the first, respectively the last, identifier of its millisecond.
    /// A stream without entries gives the null bulk string; a malformed
    /// bound gives an error.
    pub fn get_from_range(&self, start: &[u8], end: &[u8]) -> (r: Vec<u8>)
        ensures
            r@ == range_reply(self@.entries, start@, end@),
    {
        if self.entries.len() == 0 {
            assert(self@.entries.len() == 0);
            return text(crate::constants::RESP_NULL);
        }
        assert(self@.entries.len() > 0);
        let lo = if is_byte(start, DASH) {
            Some(StreamId { ms: 0, seq: 0 })
        } else {
            read_bound(start, 0)
        };
        let hi = if is_byte(end, 43) {
            Some(StreamId { ms: u64::MAX, seq: u64::MAX })
        } else {
            read_bound(end, u64::MAX)
        };
        match (lo, hi) {
            (Some(lo), Some(hi)) => {
                let found = self.collect(lo, true, hi, 0, u64::MAX);
                self.get_stream_resp_array(&found)
            },
            _ => text(INVALID_ID_ERROR),
        }
    }

    /// The entries that a read without blocking returns: those with
    /// identifiers larger than `start`, under the stream's name. `$` as
    /// `start` is the identifier that was given out last. `None` when there
    /// is no such entry or `start` is malformed.
    pub fn xread_range(&self, stream_name: &[u8], start: &[u8]) -> (r: Option<
        (Vec<u8>, Vec<RedisEntry>),
    >)
        ensures
            match r {
                Some((name, found)) => name@ == stream_name@ && read_start(
                    start@,
                    self@.last_id,
                ) is Some && entry_views(found@) == after(
                    self@.entries,
                    read_start(start@, self@.last_id)->0,
                ) && found@.len() > 0,
                None => read_start(start@, self@.last_id) is None || after(
                    self@.entries,
                    read_start(start@, self@.last_id)->0,
                ).len() == 0,
            },
    {
        let from = if is_byte(start, 36) {
            Some(self.last_id)
        } else if is_byte(start, DASH) {
            Some(StreamId { ms: 0, seq: 0 })
        } else {
            read_bound(start, 0)
        };
        match from {
            None => None,
            Some(from) => {
                let found = self.collect(
                    from,
                    false,
                    StreamId { ms: u64::MAX, seq: u64::MAX },
                    0,
                    u64::MAX,
                );
                if found.len() == 0 {
                    None
                } else {
                    Some((crate::bytes::copy_range(stream_name, 0, stream_name.len()), found))
                }
            },
        }
    }

    /// The entries that a read returns after it blocked for
    /// `time_to_block_for` milliseconds from `block_start_time`, under the
    /// stream's name: those with identifiers larger than `start`. `$` as
    /// `start` stands for the end of the stream when the block began, so the
    /// read then returns the entries that were added while the block lasted.
    /// `None` when there is no such entry or `start` is malformed.
    pub fn block_xread(
        &self,
        stream_name: &[u8],
        block_start_time: u64,
        time_to_block_for: u64,
        start: &[u8],
    ) -> (r: Option<(Vec<u8>, Vec<RedisEntry>)>)
        ensures
            match r {
                Some((name, found)) => name@ == stream_name@ && found@.len() > 0 && blocked_read(
                    self@.entries,
                    start@,
                    block_start_time,
                    time_to_block_for,
                ) == Some(entry_views(found@)),
                None => match blocked_read(
                    self@.entries,
                    start@,
                    block_start_time,
                    time_to_block_for,
                ) {
                    Some(entries) => entries.len() == 0,
                    None => true,
                },
            },
    {
        let found = if is_byte(start, 36) {
            let until: u64 = if time_to_block_for > u64::MAX - block_start_time {
                u64::MAX
            } else {
                block_start_time + time_to_block_for
            };
            self.collect(
                StreamId { ms: 0, seq: 0 },
                false,
                StreamId { ms: u64::MAX, seq: u64::MAX },
                block_start_time,
                until,
            )
        } else {
            let from = if is_byte(start, DASH) {
                Some(StreamId { ms: 0, seq: 0 })
            } else {
                read_bound(start, 0)
            };
            match from {
                None => {
                    return None;
                },
                Some(from) => self.collect(
                    from,
                    false,
                    StreamId { ms: u64::MAX, seq: u64::MAX },
                    0,
                    u64::MAX,
                ),
            }
        };
        if found.len() == 0 {
            None
        } else {
            Some((crate::bytes::copy_range(stream_name, 0, stream_name.len()), found))
        }
    }
}

/// What a read finds in `entries` after it blocked for `duration_ms`
/// milliseconds from `started_ms`: the entries with identifiers larger than
/// `start`, where `-` is the smallest identifier and a missing sequence
/// number is zero. `$` stands for the end of the stream when the block
/// began: the read then finds the entries that were added while the block
/// lasted. `None` for a malformed start.
pub open spec fn blocked_read(
    entries: Seq<EntryModel>,
    start: Seq<u8>,
    started_ms: u64,
    duration_ms: u64,
) -> Option<Seq<EntryModel>> {
    if start == seq![36u8] {
        Some(after_within(entries, min_id(), started_ms, block_end(started_ms, duration_ms)))
    } else {
        match range_start(start) {
            Some(from) => Some(after(entries, from)),
            None => None,
        }
    }
}

/// When a block that started at `start_ms` and lasts `duration_ms` ends, at
/// the latest at the largest time.
pub open spec fn block_end(start_ms: u64, duration_ms: u64) -> u64 {
    if start_ms + duration_ms > u64::MAX {
        u64::MAX
    } else {
        (start_ms + duration_ms) as u64
    }
}

/// The reply to a range query over `entries`.
pub open spec fn range_reply(entries: Seq<EntryModel>, start: Seq<u8>, end: Seq<u8>) -> Seq<u8> {
    if entries.len() == 0 {
        crate::constants::RESP_NULL.spec_bytes()
    } else {
        match (range_start(start), range_end(end)) {
            (Some(lo), Some(hi)) => stream_reply(between(entries, lo, hi)),
            _ => INVALID_ID_ERROR.spec_bytes(),
        }
    }
}

/// Appends an entry as an array of its identifier and its fields.
pub fn push_entry_reply(out: &mut Vec<u8>, e: &RedisEntry)
    ensures
        final(out)@ == old(out)@ + entry_reply(e@),
{
    let ghost before = out@;
    crate::utils::push_array_header(out, 2);
    let shown = e.id.to_bytes();
    crate::utils::push_bulk_string(out, shown.as_slice());
    push_fields_reply(out, &e.values);
    assert(out@ =~= before + entry_reply(e@));
}

/// Appends the given entries as replies, one after the other.
pub fn push_entry_replies(out: &mut Vec<u8>, v: &Vec<RedisEntry>)
    ensures
        final(out)@ == old(out)@ + entry_replies(entry_views(v@)),
{
    let ghost before = out@;
    let ghost all = entry_views(v@);
    let mut i: usize = 0;
    assert(all.subrange(0, 0) =~= Seq::<EntryModel>::empty());
    while i < v.len()
        invariant
            i <= v.len(),
            all == entry_views(v@),
            out@ == before + entry_replies(all.subrange(0, i as int)),
        decreases v.len() - i,
    {
        push_entry_reply(out, &v[i]);
        proof {
            let grown = all.subrange(0, i + 1);
            assert(grown.drop_last() =~= all.subrange(0, i as int));
            assert(grown.last() == v@[i as int]@);
        }
        i += 1;
    }
    assert(all.subrange(0, i as int) =~= all);
}

/// The reply of a read that found just `entry` in the stream `stream_name`.
fn single_entry_note(stream_name: &[u8], entry: &RedisEntry) -> (note: Vec<u8>)
    ensures
        note@ == xread_reply(seq![(stream_name@, seq![entry@])]),
{
    let mut note: Vec<u8> = Vec::new();
    crate::utils::push_array_header(&mut note, 1);
    crate::utils::push_array_header(&mut note, 2);
    crate::utils::push_bulk_string(&mut note, stream_name);
    crate::utils::push_array_header(&mut note, 1);
    push_entry_reply(&mut note, entry);
    proof {
        reveal_with_fuel(entry_replies, 2);
        reveal_with_fuel(stream_sections, 2);
        let one = seq![entry@];
        assert(one.drop_last() =~= Seq::<EntryModel>::empty());
        assert(entry_replies(one) =~= entry_reply(entry@));
        let streams = seq![(stream_name@, one)];
        assert(streams.drop_last() =~= Seq::<(Seq<u8>, Seq<EntryModel>)>::empty());
        assert(stream_sections(streams) =~= stream_section(stream_name@, one));
        assert(note@ =~= xread_reply(streams));
    }
    note
}

/// The same message for each of the given connections.
fn wake(waiters: &Vec<u64>, note: &Vec<u8>) -> (messages: Vec<(u64, Vec<u8>)>)
    ensures
        message_views(messages@) == Seq::new(waiters@.len(), |i: int| (waiters@[i], note@)),
{
    let mut messages: Vec<(u64, Vec<u8>)> = Vec::new();
    let mut i: usize = 0;
    while i < waiters.len()
        invariant
            i <= waiters.len(),
            messages.len() == i,
            forall|j: int|
                0 <= j < i ==> (#[trigger] messages@[j]).0 == waiters@[j] && messages@[j].1@
                    == note@,
        decreases waiters.len() - i,
    {
        let copy = clone_bytes(note);
        messages.push((waiters[i], copy));
        i += 1;
    }
    assert(message_views(messages@) =~= Seq::new(waiters@.len(), |i: int| (waiters@[i], note@)));
    messages
}

/// Links the entry that is last to `entry` and adds `entry` at the end.
fn link_and_push(entries: &mut Vec<RedisEntry>, entry: RedisEntry)
    ensures
        entry_views(final(entries)@) == appended(entry_views(old(entries)@), entry@),
{
    let ghost before = entry_views(entries@);
    match entries.pop() {
        Some(mut last) => {
            last.next_sequence_id = Some(entry.id);
            entries.push(last);
        },
        None => {},
    }
    entries.push(entry);
    assert(entry_views(entries@) =~= appended(before, entry@));
}

/// Adding an entry with a larger identifier than any before keeps a stream
/// well-formed.
pub proof fn lemma_appended_wf(m: StreamModel, added: EntryModel)
    requires
        m.wf(),
        forall|i: int| 0 <= i < m.entries.len() ==> (#[trigger] m.entries[i]).id.lt(added.id),
        min_id().lt(added.id),
        added.prev_entry_id == m.last_sequence_id,
        added.next_sequence_id is None,
    ensures
        (StreamModel {
            entries: appended(m.entries, added),
            last_id: added.id,
            first_sequence_id: if m.entries.len() == 0 {
                Some(added.id)
            } else {
                m.first_sequence_id
            },
            last_sequence_id: Some(added.id),
            ..m
        }).wf(),
{
    let before = m.entries;
    let now = appended(before, added);
    let n = before.len() as int;
    assert forall|i: int, j: int| 0 <= i < j < now.len() implies now[i].id.lt(now[j].id) by {
        if j < n {
            assert(before[i].id.lt(before[j].id));
        } else {
            assert(before[i].id.lt(added.id));
        }
    }
    assert forall|i: int| 0 <= i < now.len() implies min_id().lt((#[trigger] now[i]).id)
        && now[i].id.le(added.id) by {
        if i < n {
            assert(min_id().lt(before[i].id));
            assert(before[i].id.lt(added.id));
        }
    }
    assert forall|i: int| 0 <= i < now.len() implies (#[trigger] now[i]).prev_entry_id == if i
        > 0 {
        Some(now[i - 1].id)
    } else {
        None
    } by {
        if i < n {
            assert(before[i].prev_entry_id == if i > 0 {
                Some(before[i - 1].id)
            } else {
                None
            });
        }
    }
    assert forall|i: int| 0 <= i < now.len() implies (#[trigger] now[i]).next_sequence_id == if i
        + 1 < now.len() {
        Some(now[i + 1].id)
    } else {
        None
    } by {
        if i + 1 < n {
            assert(before[i].next_sequence_id == Some(before[i + 1].id));
        }
    }
}

/// Every stream that results from adding an entry to a well-formed stream
/// is well-formed: its identifiers still increase strictly, and its entries
/// are still linked to their neighbours.
pub proof fn lemma_add_keeps_order(
    before: StreamModel,
    name: Seq<u8>,
    id: Seq<u8>,
    values: Fields,
    now_ms: u64,
)
    requires
        before.wf(),
    ensures
        add_outcome(before, name, id, values, now_ms).0.wf(),
{
    let request = id_request(id);
    let wish = candidate(request, now_ms, counter_of(before.sequences, request->AutoSeq_0));
    if acceptable(wish, before.last_id) {
        let added = new_entry(wish->0, values, before.last_sequence_id, now_ms);
        assert forall|i: int| 0 <= i < before.entries.len() implies (
        #[trigger] before.entries[i]).id.lt(added.id) by {
            assert(before.entries[i].id.le(before.last_id));
        }
        lemma_appended_wf(before, added);
    }
}

} // verus!
