//! Reply encodings of the wire protocol.

use rand::Rng;
use vstd::prelude::*;
use crate::byte_map::assoc_keys;
use crate::rdb::has_index;
use crate::types::{Entries, RdbFile};
use crate::bytes::{decimal, push_bytes, push_decimal, push_decimal_wide, push_signed_decimal,
    signed_decimal, views};

verus! {

/// Carriage return.
pub const CR: u8 = 13;

/// Line feed.
pub const LF: u8 = 10;

/// `$`, which announces a bulk string.
pub const DOLLAR: u8 = 36;

/// `*`, which announces an array.
pub const STAR: u8 = 42;

/// `:`, which announces an integer.
pub const COLON: u8 = 58;

/// `+`, which announces a simple string.
pub const PLUS_SIGN: u8 = 43;

/// The line terminator.
pub open spec fn crlf() -> Seq<u8> {
    seq![CR, LF]
}

/// A bulk string: `$`, the length in decimal, a line end, the bytes, a line end.
pub open spec fn bulk_string(s: Seq<u8>) -> Seq<u8> {
    seq![DOLLAR] + decimal(s.len()) + crlf() + s + crlf()
}

/// An integer reply: `:`, the number in decimal, a line end.
pub open spec fn integer_reply(n: int) -> Seq<u8> {
    seq![COLON] + signed_decimal(n) + crlf()
}

/// A simple string: `+`, the bytes, a line end.
pub open spec fn simple_string(s: Seq<u8>) -> Seq<u8> {
    seq![PLUS_SIGN] + s + crlf()
}

/// The first line of an array of `n` elements: `*`, `n` in decimal, a line end.
pub open spec fn array_header(n: nat) -> Seq<u8> {
    seq![STAR] + decimal(n) + crlf()
}

/// The given byte strings as bulk strings, one after the other.
pub open spec fn bulk_strings(items: Seq<Seq<u8>>) -> Seq<u8>
    decreases items.len(),
{
    if items.len() == 0 {
        Seq::<u8>::empty()
    } else {
        bulk_strings(items.drop_last()) + bulk_string(items.last())
    }
}

/// An array of bulk strings: the form of every command frame.
pub open spec fn resp_array(items: Seq<Seq<u8>>) -> Seq<u8> {
    array_header(items.len()) + bulk_strings(items)
}

/// The given byte strings, one after the other.
pub open spec fn concat(parts: Seq<Seq<u8>>) -> Seq<u8>
    decreases parts.len(),
{
    if parts.len() == 0 {
        Seq::<u8>::empty()
    } else {
        concat(parts.drop_last()) + parts.last()
    }
}

/// Messages for connections, each with the connection it is for, as
/// mathematical values.
pub open spec fn message_views(v: Seq<(u64, Vec<u8>)>) -> Seq<(u64, Seq<u8>)> {
    Seq::new(v.len(), |i: int| (v[i].0, v[i].1@))
}

/// Appends a line end.
pub fn push_crlf(out: &mut Vec<u8>)
    ensures
        final(out)@ == old(out)@ + crlf(),
{
    let ghost before = out@;
    out.push(CR);
    out.push(LF);
    assert(out@ =~= before + crlf());
}

/// Appends `s` as a bulk string.
pub fn push_bulk_string(out: &mut Vec<u8>, s: &[u8])
    ensures
        final(out)@ == old(out)@ + bulk_string(s@),
{
    let ghost before = out@;
    out.push(DOLLAR);
    push_decimal(out, s.len() as u64);
    push_crlf(out);
    push_bytes(out, s);
    push_crlf(out);
    assert(out@ =~= before + bulk_string(s@));
}

/// Appends the first line of an array of `n` elements.
pub fn push_array_header(out: &mut Vec<u8>, n: usize)
    ensures
        final(out)@ == old(out)@ + array_header(n as nat),
{
    let ghost before = out@;
    out.push(STAR);
    push_decimal(out, n as u64);
    push_crlf(out);
    assert(out@ =~= before + array_header(n as nat));
}

/// Appends the first line of an array of `n` elements, where `n` may exceed
/// what a `usize` holds.
pub fn push_array_header_wide(out: &mut Vec<u8>, n: u128)
    ensures
        final(out)@ == old(out)@ + array_header(n as nat),
{
    let ghost before = out@;
    out.push(STAR);
    push_decimal_wide(out, n);
    push_crlf(out);
    assert(out@ =~= before + array_header(n as nat));
}

/// Appends `n` as an integer reply.
pub fn push_integer(out: &mut Vec<u8>, n: i64)
    ensures
        final(out)@ == old(out)@ + integer_reply(n as int),
{
    let ghost before = out@;
    out.push(COLON);
    push_signed_decimal(out, n);
    push_crlf(out);
    assert(out@ =~= before + integer_reply(n as int));
}

/// `res` as a bulk string.
pub fn get_bulk_string(res: &[u8]) -> (r: Vec<u8>)
    ensures
        r@ == bulk_string(res@),
{
    let mut out: Vec<u8> = Vec::new();
    push_bulk_string(&mut out, res);
    assert(out@ =~= bulk_string(res@));
    out
}

/// `n` as an integer reply.
pub fn get_redis_int(n: i32) -> (r: Vec<u8>)
    ensures
        r@ == integer_reply(n as int),
{
    let mut out: Vec<u8> = Vec::new();
    push_integer(&mut out, n as i64);
    assert(out@ =~= integer_reply(n as int));
    out
}

/// A count as an integer reply.
pub fn get_redis_count(n: usize) -> (r: Vec<u8>)
    ensures
        r@ == integer_reply(n as int),
{
    let mut out: Vec<u8> = Vec::new();
    out.push(COLON);
    push_decimal(&mut out, n as u64);
    push_crlf(&mut out);
    assert(out@ =~= integer_reply(n as int));
    out
}

/// `s` as a simple string.
pub fn get_simple_str(s: &[u8]) -> (r: Vec<u8>)
    ensures
        r@ == simple_string(s@),
{
    let mut out: Vec<u8> = Vec::new();
    out.push(PLUS_SIGN);
    push_bytes(&mut out, s);
    push_crlf(&mut out);
    assert(out@ =~= simple_string(s@));
    out
}

/// Appends the byte strings of `elements[from..to]` as bulk strings.
pub fn push_bulk_strings(out: &mut Vec<u8>, elements: &Vec<Vec<u8>>, from: usize, to: usize)
    requires
        from <= to <= elements.len(),
    ensures
        final(out)@ == old(out)@ + bulk_strings(views(elements@).subrange(from as int, to as int)),
{
    let ghost before = out@;
    let ghost items = views(elements@).subrange(from as int, to as int);
    let mut i: usize = from;
    assert(items.subrange(0, 0) =~= Seq::<Seq<u8>>::empty());
    while i < to
        invariant
            from <= i <= to <= elements.len(),
            items == views(elements@).subrange(from as int, to as int),
            out@ == before + bulk_strings(items.subrange(0, i - from)),
        decreases to - i,
    {
        push_bulk_string(out, elements[i].as_slice());
        proof {
            let grown = items.subrange(0, i + 1 - from);
            assert(grown.drop_last() =~= items.subrange(0, i - from));
            assert(grown.last() == elements@[i as int]@);
        }
        i += 1;
    }
    assert(items.subrange(0, to - from) =~= items);
}

/// The byte strings of `elements` as an array of bulk strings.
pub fn format_resp_array(elements: &Vec<Vec<u8>>) -> (r: Vec<u8>)
    ensures
        r@ == resp_array(views(elements@)),
{
    let mut out: Vec<u8> = Vec::new();
    push_array_header(&mut out, elements.len());
    push_bulk_strings(&mut out, elements, 0, elements.len());
    assert(views(elements@).subrange(0, elements.len() as int) =~= views(elements@));
    assert(out@ =~= resp_array(views(elements@)));
    out
}

/// The byte strings of `elements` as an array of bulk strings.
pub fn get_resp_from_string(elements: &Vec<Vec<u8>>) -> (r: Vec<u8>)
    ensures
        r@ == resp_array(views(elements@)),
{
    format_resp_array(elements)
}

/// The characters of an identifier: the capital letters, the small letters
/// and the digits.
pub open spec fn charset() -> Seq<u8> {
    Seq::new(
        62,
        |i: int|
            if i < 26 {
                (65 + i) as u8
            } else if i < 52 {
                (97 + i - 26) as u8
            } else {
                (48 + i - 52) as u8
            },
    )
}

/// The number of characters of an identifier.
pub const ID_LEN: usize = 40;

/// The character of the charset at `index`.
pub fn charset_byte(index: usize) -> (r: u8)
    requires
        index < 62,
    ensures
        r == charset()[index as int],
{
    if index < 26 {
        (65 + index) as u8
    } else if index < 52 {
        (97 + index - 26) as u8
    } else {
        (48 + index - 52) as u8
    }
}

/// A number below `bound`, drawn at random. This is `Rng::random_range` of
/// the `rand` crate on the thread's generator; the contract states what
/// holds of every draw from `0..bound`, which is that it lies in that range.
#[verifier::external_body]
fn random_index(bound: usize) -> (r: usize)
    requires
        bound > 0,
    ensures
        r < bound,
{
    rand::rng().random_range(0..bound)
}

/// The identifier that the given draws spell: for each draw the character
/// of the charset at that index.
pub fn id_from_picks(picks: &Vec<usize>) -> (id: Vec<u8>)
    requires
        forall|i: int| 0 <= i < picks@.len() ==> picks@[i] < 62,
    ensures
        id@.len() == picks@.len(),
        forall|i: int| 0 <= i < id@.len() ==> id@[i] == charset()[picks@[i] as int],
{
    let mut id: Vec<u8> = Vec::new();
    let mut i: usize = 0;
    while i < picks.len()
        invariant
            i <= picks.len(),
            id@.len() == i,
            forall|j: int| 0 <= j < picks@.len() ==> picks@[j] < 62,
            forall|j: int| 0 <= j < i ==> id@[j] == charset()[picks@[j] as int],
        decreases picks.len() - i,
    {
        id.push(charset_byte(picks[i]));
        i += 1;
    }
    id
}

/// A replication identifier: forty characters of the charset, each drawn
/// at random.
pub fn random_id_gen() -> (id: Vec<u8>)
    ensures
        id@.len() == ID_LEN,
        forall|i: int| 0 <= i < id@.len() ==> charset().contains(#[trigger] id@[i]),
{
    let mut picks: Vec<usize> = Vec::new();
    let mut i: usize = 0;
    while i < ID_LEN
        invariant
            i <= ID_LEN,
            picks@.len() == i,
            forall|j: int| 0 <= j < i ==> picks@[j] < 62,
        decreases ID_LEN - i,
    {
        picks.push(random_index(62));
        i += 1;
    }
    let id = id_from_picks(&picks);
    assert forall|i: int| 0 <= i < id@.len() implies charset().contains(#[trigger] id@[i]) by {
        assert(charset()[picks@[i] as int] == id@[i]);
    }
    id
}

/// Whether the key `k` matches the pattern `p`, in which `*` stands for
/// any run of bytes, the empty one too, and every other byte for itself.
pub open spec fn glob_match(p: Seq<u8>, k: Seq<u8>) -> bool
    decreases p.len(), k.len(),
{
    if p.len() == 0 {
        k.len() == 0
    } else if p[0] == STAR {
        glob_match(p.skip(1), k) || (k.len() > 0 && glob_match(p, k.skip(1)))
    } else {
        k.len() > 0 && p[0] == k[0] && glob_match(p.skip(1), k.skip(1))
    }
}

/// Whether `key[k..]` matches `pattern[p..]`.
fn glob_from(pattern: &[u8], p: usize, key: &[u8], k: usize) -> (r: bool)
    requires
        p <= pattern.len(),
        k <= key.len(),
    ensures
        r == glob_match(pattern@.skip(p as int), key@.skip(k as int)),
    decreases pattern.len() - p, key.len() - k,
{
    let ghost ps = pattern@.skip(p as int);
    let ghost ks = key@.skip(k as int);
    if p == pattern.len() {
        return k == key.len();
    }
    proof {
        assert(ps.skip(1) =~= pattern@.skip(p + 1));
        if k < key.len() {
            assert(ks.skip(1) =~= key@.skip(k + 1));
        }
    }
    if pattern[p] == STAR {
        if glob_from(pattern, p + 1, key, k) {
            return true;
        }
        k < key.len() && glob_from(pattern, p, key, k + 1)
    } else {
        k < key.len() && pattern[p] == key[k] && glob_from(pattern, p + 1, key, k + 1)
    }
}

/// Whether `key` matches `pattern`.
pub fn matches_pattern(pattern: &[u8], key: &[u8]) -> (r: bool)
    ensures
        r == glob_match(pattern@, key@),
{
    assert(pattern@.skip(0) =~= pattern@);
    assert(key@.skip(0) =~= key@);
    glob_from(pattern, 0, key, 0)
}

/// The keys among `keys` that match `pattern`, in order.
pub open spec fn matching_keys(keys: Seq<Seq<u8>>, pattern: Seq<u8>) -> Seq<Seq<u8>>
    decreases keys.len(),
{
    if keys.len() == 0 {
        Seq::<Seq<u8>>::empty()
    } else if glob_match(pattern, keys.last()) {
        matching_keys(keys.drop_last(), pattern).push(keys.last())
    } else {
        matching_keys(keys.drop_last(), pattern)
    }
}

/// The keys of the first database with index zero.
pub open spec fn keys_of_first_database(dbs: Seq<(u8, Entries)>) -> Seq<Seq<u8>>
    decreases dbs.len(),
{
    if dbs.len() == 0 {
        Seq::<Seq<u8>>::empty()
    } else if dbs[0].0 == 0 {
        assoc_keys(dbs[0].1)
    } else {
        keys_of_first_database(dbs.skip(1))
    }
}

/// The keys of the snapshot's database zero that match the pattern
/// `search_key`, in the order in which the database holds them. A snapshot
/// without a database zero has no keys.
pub fn read_rdb_keys(rdb: &RdbFile, search_key: &[u8]) -> (r: Vec<Vec<u8>>)
    ensures
        views(r@) == matching_keys(keys_of_first_database(rdb@.databases), search_key@),
{
    let mut ret_keys: Vec<Vec<u8>> = Vec::new();
    assert(views(ret_keys@) =~= Seq::<Seq<u8>>::empty());
    match rdb.database(0) {
        None => {
            proof {
                lemma_no_first_database(rdb@.databases);
            }
        },
        Some(db) => {
            proof {
                crate::rdb::lemma_first_with_index(rdb@.databases, 0, 0);
                lemma_first_database(
                    rdb@.databases,
                    crate::rdb::first_with_index(rdb@.databases, 0, 0),
                );
            }
            let ghost keys = assoc_keys(db@);
            let n = db.data.len();
            assert(keys =~= db.data.keys());
            let mut i: usize = 0;
            assert(keys.subrange(0, 0) =~= Seq::<Seq<u8>>::empty());
            while i < n
                invariant
                    i <= n,
                    n == keys.len(),
                    keys == db.data.keys(),
                    views(ret_keys@) == matching_keys(keys.subrange(0, i as int), search_key@),
                decreases n - i,
            {
                let key = db.data.key_at(i);
                proof {
                    let grown = keys.subrange(0, i + 1);
                    assert(grown.drop_last() =~= keys.subrange(0, i as int));
                    assert(grown.last() == key@);
                }
                if matches_pattern(search_key, key.as_slice()) {
                    let copy = crate::bytes::clone_bytes(key);
                    proof {
                        assert(views(ret_keys@.push(copy)) =~= views(ret_keys@).push(copy@));
                    }
                    ret_keys.push(copy);
                }
                i += 1;
            }
            assert(keys.subrange(0, i as int) =~= keys);
        },
    }
    ret_keys
}

/// Databases without index zero have no first database zero.
pub proof fn lemma_no_first_database(dbs: Seq<(u8, Entries)>)
    requires
        !has_index(dbs, 0),
    ensures
        keys_of_first_database(dbs) == Seq::<Seq<u8>>::empty(),
    decreases dbs.len(),
{
    if dbs.len() > 0 {
        assert(dbs[0].0 != 0);
        assert(!has_index(dbs.skip(1), 0)) by {
            if has_index(dbs.skip(1), 0) {
                let i = choose|i: int| 0 <= i < dbs.skip(1).len() && dbs.skip(1)[i].0 == 0;
                assert(dbs[i + 1].0 == 0);
            }
        }
        lemma_no_first_database(dbs.skip(1));
    }
}

/// The first database zero is the one before which no database has index
/// zero.
pub proof fn lemma_first_database(dbs: Seq<(u8, Entries)>, at: int)
    requires
        0 <= at < dbs.len(),
        dbs[at].0 == 0,
        forall|j: int| 0 <= j < at ==> dbs[j].0 != 0,
    ensures
        keys_of_first_database(dbs) == assoc_keys(dbs[at].1),
    decreases dbs.len(),
{
    if at > 0 {
        assert(dbs[0].0 != 0);
        let rest = dbs.skip(1);
        assert(rest[at - 1] == dbs[at]);
        assert forall|j: int| 0 <= j < at - 1 implies rest[j].0 != 0 by {
            assert(rest[j] == dbs[j + 1]);
        }
        lemma_first_database(rest, at - 1);
    }
}

} // verus!
