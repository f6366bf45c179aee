//! Helpers of the stream read command: pairing stream names with
//! identifiers, and the reply over several streams.

use vstd::prelude::*;
use crate::bytes::{clone_bytes, text, views};
use crate::entry_stream::{entry_views, push_entry_replies, stream_section, stream_sections,
    xread_reply, EntryModel, RedisEntry};
use crate::utils::{push_array_header, push_bulk_string};

verus! {

/// The names and identifiers of a read over several streams, paired: the
/// first half of `lines` holds the names, the second half the identifier
/// for each. An element left over at the end is dropped.
pub open spec fn stream_pairs(lines: Seq<Seq<u8>>) -> Seq<(Seq<u8>, Seq<u8>)> {
    Seq::new(lines.len() / 2, |i: int| (lines[i], lines[i + lines.len() / 2]))
}

/// Pairs of byte strings, as mathematical values.
pub open spec fn pair_views(v: Seq<(Vec<u8>, Vec<u8>)>) -> Seq<(Seq<u8>, Seq<u8>)> {
    Seq::new(v.len(), |i: int| (v[i].0@, v[i].1@))
}

/// Pairs each stream name in `lines` with its identifier.
pub fn get_all_stream_names(lines: &[Vec<u8>]) -> (r: Vec<(Vec<u8>, Vec<u8>)>)
    ensures
        pair_views(r@) == stream_pairs(views(lines@)),
{
    let count = lines.len() / 2;
    let mut out: Vec<(Vec<u8>, Vec<u8>)> = Vec::new();
    let ghost all = views(lines@);
    let mut i: usize = 0;
    while i < count
        invariant
            i <= count,
            count == lines.len() / 2,
            all == views(lines@),
            out.len() == i,
            forall|j: int|
                0 <= j < i ==> (#[trigger] out@[j]).0@ == all[j] && out@[j].1@ == all[j + count],
        decreases count - i,
    {
        let name = clone_bytes(&lines[i]);
        let id = clone_bytes(&lines[i + count]);
        out.push((name, id));
        i += 1;
    }
    assert(pair_views(out@) =~= stream_pairs(all));
    out
}

/// What a read found, stream by stream, as mathematical values.
pub open spec fn found_views(v: Seq<(Vec<u8>, Vec<RedisEntry>)>) -> Seq<(Seq<u8>, Seq<EntryModel>)> {
    Seq::new(v.len(), |i: int| (v[i].0@, entry_views(v[i].1@)))
}

/// The reply to a read over several streams: the null bulk string when
/// nothing was found, otherwise an array with, for each stream, its name
/// and its entries.
pub fn get_xread_resp_array(v: &Vec<(Vec<u8>, Vec<RedisEntry>)>) -> (r: Vec<u8>)
    ensures
        r@ == xread_reply(found_views(v@)),
{
    if v.len() == 0 {
        return text(crate::constants::RESP_NULL);
    }
    let mut out: Vec<u8> = Vec::new();
    push_array_header(&mut out, v.len());
    let ghost head = out@;
    let ghost all = found_views(v@);
    let mut i: usize = 0;
    assert(all.subrange(0, 0) =~= Seq::<(Seq<u8>, Seq<EntryModel>)>::empty());
    while i < v.len()
        invariant
            i <= v.len(),
            all == found_views(v@),
            out@ == head + stream_sections(all.subrange(0, i as int)),
        decreases v.len() - i,
    {
        let ghost so_far = out@;
        push_array_header(&mut out, 2);
        push_bulk_string(&mut out, v[i].0.as_slice());
        push_array_header(&mut out, v[i].1.len());
        push_entry_replies(&mut out, &v[i].1);
        proof {
            let grown = all.subrange(0, i + 1);
            assert(grown.drop_last() =~= all.subrange(0, i as int));
            assert(grown.last() == all[i as int]);
            assert(out@ =~= so_far + stream_section(all[i as int].0, all[i as int].1));
        }
        i += 1;
    }
    assert(all.subrange(0, i as int) =~= all);
    out
}

} // verus!
