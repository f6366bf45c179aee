//! Sorted sets: members ordered by score and then by name, with a second
//! map from each member to its score.
//!
//! A score is held as the integer that stands for it in the total order of
//! scores: a smaller score has a smaller integer.

use vstd::prelude::*;
use crate::byte_map::{distinct, has_key, position, ByteMap, lemma_position_unique};
use crate::bytes::{clone_bytes, views};

use crate::utils::{format_resp_array, resp_array};

verus! {

/// Whether the byte string `a` comes before `b`: at the first index where
/// they differ `a` has the smaller byte, or `a` ends there and `b` goes on.
pub open spec fn bytes_lt(a: Seq<u8>, b: Seq<u8>) -> bool
    decreases a.len(),
{
    if b.len() == 0 {
        false
    } else if a.len() == 0 {
        true
    } else if a[0] != b[0] {
        a[0] < b[0]
    } else {
        bytes_lt(a.skip(1), b.skip(1))
    }
}

/// No byte string comes before itself.
pub proof fn lemma_bytes_lt_irreflexive(a: Seq<u8>)
    ensures
        !bytes_lt(a, a),
    decreases a.len(),
{
    if a.len() > 0 {
        lemma_bytes_lt_irreflexive(a.skip(1));
    }
}

/// Of two different byte strings one comes before the other.
pub proof fn lemma_bytes_lt_total(a: Seq<u8>, b: Seq<u8>)
    ensures
        a == b || bytes_lt(a, b) || bytes_lt(b, a),
    decreases a.len(),
{
    if a.len() > 0 && b.len() > 0 && a[0] == b[0] {
        lemma_bytes_lt_total(a.skip(1), b.skip(1));
        if a.skip(1) == b.skip(1) {
            assert(a =~= seq![a[0]] + a.skip(1));
            assert(b =~= seq![b[0]] + b.skip(1));
        }
    } else if a.len() == 0 && b.len() == 0 {
        assert(a =~= b);
    }
}

/// Coming before is transitive.
pub proof fn lemma_bytes_lt_transitive(a: Seq<u8>, b: Seq<u8>, c: Seq<u8>)
    requires
        bytes_lt(a, b),
        bytes_lt(b, c),
    ensures
        bytes_lt(a, c),
    decreases a.len(),
{
    if a.len() > 0 && b.len() > 0 && c.len() > 0 && a[0] == b[0] && b[0] == c[0] {
        lemma_bytes_lt_transitive(a.skip(1), b.skip(1), c.skip(1));
    }
}

/// Whether `a` comes before `b`.
pub fn name_before(a: &[u8], b: &[u8]) -> (r: bool)
    ensures
        r == bytes_lt(a@, b@),
{
    let mut i: usize = 0;
    assert(a@.skip(0) =~= a@);
    assert(b@.skip(0) =~= b@);
    while i < a.len() && i < b.len()
        invariant
            i <= a.len(),
            i <= b.len(),
            bytes_lt(a@, b@) == bytes_lt(a@.skip(i as int), b@.skip(i as int)),
        decreases a.len() - i,
    {
        if a[i] != b[i] {
            return a[i] < b[i];
        }
        proof {
            assert(a@.skip(i as int).skip(1) =~= a@.skip(i + 1));
            assert(b@.skip(i as int).skip(1) =~= b@.skip(i + 1));
        }
        i += 1;
    }
    i < b.len()
}

/// A member with its score.
#[derive(Debug)]
pub struct UserScore {
    pub score: u64,
    pub name: Vec<u8>,
}

/// A member with its score, as mathematical values.
pub struct ScoreModel {
    pub score: u64,
    pub name: Seq<u8>,
}

impl View for UserScore {
    type V = ScoreModel;

    open spec fn view(&self) -> ScoreModel {
        ScoreModel { score: self.score, name: self.name@ }
    }
}

impl ScoreModel {
    /// Whether this member stands before `other`: by score, then by name.
    pub open spec fn lt(self, other: ScoreModel) -> bool {
        self.score < other.score || (self.score == other.score && bytes_lt(self.name, other.name))
    }
}

impl UserScore {
    /// The member `name` with the score `score`.
    pub fn new(score: u64, name: Vec<u8>) -> (r: Self)
        ensures
            r@ == (ScoreModel { score, name: name@ }),
    {
        UserScore { score, name }
    }

    /// Whether this member stands before `other`: by score, then by name.
    pub fn stands_before(&self, other: &UserScore) -> (r: bool)
        ensures
            r == self@.lt(other@),
    {
        self.score < other.score || (self.score == other.score && name_before(
            self.name.as_slice(),
            other.name.as_slice(),
        ))
    }
}

/// The members that a vector holds.
pub open spec fn score_views(v: Seq<UserScore>) -> Seq<ScoreModel> {
    Seq::new(v.len(), |i: int| v[i]@)
}

/// Whether every member stands before the members after it.
pub open spec fn sorted(items: Seq<ScoreModel>) -> bool {
    forall|i: int, j: int| 0 <= i < j < items.len() ==> items[i].lt(items[j])
}

/// Whether no two members have the same name.
pub open spec fn names_distinct(items: Seq<ScoreModel>) -> bool {
    forall|i: int, j: int| 0 <= i < j < items.len() ==> items[i].name != items[j].name
}

/// The score under which `items` holds the member `name`.
pub open spec fn score_in(items: Seq<ScoreModel>, name: Seq<u8>) -> Option<u64>
    decreases items.len(),
{
    if items.len() == 0 {
        None
    } else if items.last().name == name {
        Some(items.last().score)
    } else {
        score_in(items.drop_last(), name)
    }
}

/// The value that `keys` with `vals` binds to `name`.
pub open spec fn value_in(keys: Seq<Seq<u8>>, vals: Seq<u64>, name: Seq<u8>) -> Option<u64>
    decreases keys.len(),
{
    if keys.len() == 0 || keys.len() != vals.len() {
        None
    } else if keys.last() == name {
        Some(vals.last())
    } else {
        value_in(keys.drop_last(), vals.drop_last(), name)
    }
}

/// How many members stand before `item`.
pub open spec fn count_before(items: Seq<ScoreModel>, item: ScoreModel) -> int
    decreases items.len(),
{
    if items.len() == 0 {
        0
    } else {
        count_before(items.drop_last(), item) + if items.last().lt(item) {
            1int
        } else {
            0int
        }
    }
}

/// The index at which `items` holds the member `name`.
pub open spec fn rank_of(items: Seq<ScoreModel>, name: Seq<u8>) -> Option<int>
    decreases items.len(),
{
    if items.len() == 0 {
        None
    } else if items.last().name == name {
        Some(items.len() - 1)
    } else {
        rank_of(items.drop_last(), name)
    }
}

/// The members without the member `name`.
pub open spec fn without(items: Seq<ScoreModel>, name: Seq<u8>) -> Seq<ScoreModel> {
    match rank_of(items, name) {
        Some(i) => items.remove(i),
        None => items,
    }
}

/// The members with `item` added at its place in the order.
pub open spec fn with(items: Seq<ScoreModel>, item: ScoreModel) -> Seq<ScoreModel> {
    items.insert(count_before(items, item), item)
}

/// The order of members is transitive.
pub proof fn lemma_lt_transitive(a: ScoreModel, b: ScoreModel, c: ScoreModel)
    requires
        a.lt(b),
        b.lt(c),
    ensures
        a.lt(c),
{
    if a.score == b.score && b.score == c.score {
        lemma_bytes_lt_transitive(a.name, b.name, c.name);
    }
}

/// Of two members with different names one stands before the other, and
/// not both.
pub proof fn lemma_lt_total(a: ScoreModel, b: ScoreModel)
    requires
        a.name != b.name,
    ensures
        a.lt(b) != b.lt(a),
{
    lemma_bytes_lt_total(a.name, b.name);
    if bytes_lt(a.name, b.name) && bytes_lt(b.name, a.name) {
        lemma_bytes_lt_transitive(a.name, b.name, a.name);
        lemma_bytes_lt_irreflexive(a.name);
    }
}

/// Where the members before index `p` stand before `item` and the others
/// do not, `p` members stand before `item`.
pub proof fn lemma_count_before(items: Seq<ScoreModel>, item: ScoreModel, p: int)
    requires
        0 <= p <= items.len(),
        forall|i: int| 0 <= i < p ==> (#[trigger] items[i]).lt(item),
        forall|i: int| p <= i < items.len() ==> !(#[trigger] items[i]).lt(item),
    ensures
        count_before(items, item) == p,
    decreases items.len(),
{
    if items.len() > 0 {
        let front = items.drop_last();
        if p == items.len() {
            assert(items[items.len() - 1].lt(item));
            assert forall|i: int| 0 <= i < p - 1 implies (#[trigger] front[i]).lt(item) by {
                assert(items[i].lt(item));
            }
            lemma_count_before(front, item, p - 1);
        } else {
            assert(!items[items.len() - 1].lt(item));
            assert forall|i: int| 0 <= i < p implies (#[trigger] front[i]).lt(item) by {
                assert(items[i].lt(item));
            }
            assert forall|i: int| p <= i < front.len() implies !(#[trigger] front[i]).lt(item) by {
                assert(!items[i].lt(item));
            }
            lemma_count_before(front, item, p);
        }
    }
}

/// What the lookups say of a member that stands at index `i`.
pub proof fn lemma_member_at(items: Seq<ScoreModel>, i: int)
    requires
        names_distinct(items),
        0 <= i < items.len(),
    ensures
        score_in(items, items[i].name) == Some(items[i].score),
        rank_of(items, items[i].name) == Some(i),
    decreases items.len(),
{
    if i < items.len() - 1 {
        assert(items[i].name != items[items.len() - 1].name);
        let front = items.drop_last();
        assert forall|a: int, b: int| 0 <= a < b < front.len() implies front[a].name
            != front[b].name by {
            assert(items[a].name != items[b].name);
        }
        assert(front[i] == items[i]);
        lemma_member_at(front, i);
    }
}

/// What the lookups say of a name: it has a score exactly when it has a
/// rank, and then the member at that rank has the name and the score.
pub proof fn lemma_lookup(items: Seq<ScoreModel>, name: Seq<u8>)
    ensures
        match rank_of(items, name) {
            Some(i) => 0 <= i < items.len() && items[i].name == name && score_in(items, name)
                == Some(items[i].score),
            None => score_in(items, name) is None && forall|i: int|
                0 <= i < items.len() ==> (#[trigger] items[i]).name != name,
        },
    decreases items.len(),
{
    if items.len() > 0 && items.last().name != name {
        let front = items.drop_last();
        lemma_lookup(front, name);
        match rank_of(front, name) {
            Some(i) => {
                assert(front[i] == items[i]);
            },
            None => {
                assert forall|i: int| 0 <= i < items.len() implies (#[trigger] items[i]).name
                    != name by {
                    if i < front.len() {
                        assert(front[i].name != name);
                    }
                }
            },
        }
    }
}

/// What the map lookup says of a name: the value at the name's position.
pub proof fn lemma_value_in(keys: Seq<Seq<u8>>, vals: Seq<u64>, name: Seq<u8>)
    requires
        keys.len() == vals.len(),
        distinct(keys),
    ensures
        value_in(keys, vals, name) == match position(keys, name) {
            Some(k) => Some(vals[k]),
            None => None,
        },
    decreases keys.len(),
{
    if keys.len() > 0 {
        let n = keys.len() - 1;
        if keys[n] == name {
            lemma_position_unique(keys, name, n);
        } else {
            let fk = keys.drop_last();
            let fv = vals.drop_last();
            assert forall|a: int, b: int| 0 <= a < b < fk.len() implies fk[a] != fk[b] by {
                assert(keys[a] != keys[b]);
            }
            lemma_value_in(fk, fv, name);
            if has_key(fk, name) {
                let k = choose|k: int| 0 <= k < fk.len() && fk[k] == name;
                assert(keys[k] == name);
                lemma_position_unique(keys, name, k);
                lemma_position_unique(fk, name, k);
            } else {
                if has_key(keys, name) {
                    let k = choose|k: int| 0 <= k < keys.len() && keys[k] == name;
                    assert(fk[k] == name);
                }
            }
        }
    }
}

/// Adding a member with a new name changes the lookup of that name only.
pub proof fn lemma_score_in_insert(items: Seq<ScoreModel>, p: int, item: ScoreModel, name: Seq<u8>)
    requires
        0 <= p <= items.len(),
    ensures
        score_in(items.insert(p, item), name) == if score_in(items.subrange(p, items.len() as int), name) is Some {
            score_in(items, name)
        } else if name == item.name {
            Some(item.score)
        } else {
            score_in(items, name)
        },
    decreases items.len() - p,
{
    let grown = items.insert(p, item);
    if p == items.len() {
        assert(grown.drop_last() =~= items);
        assert(items.subrange(p, items.len() as int) =~= Seq::<ScoreModel>::empty());
    } else {
        let front = items.drop_last();
        assert(grown.drop_last() =~= front.insert(p, item));
        assert(grown.last() == items.last());
        let tail = items.subrange(p, items.len() as int);
        assert(tail.drop_last() =~= front.subrange(p, front.len() as int));
        assert(tail.last() == items.last());
        lemma_score_in_insert(front, p, item, name);
    }
}

/// Among members with distinct names, the members from index `p` on do not
/// hold a name that is new.
pub proof fn lemma_score_in_part(items: Seq<ScoreModel>, p: int, name: Seq<u8>)
    requires
        0 <= p <= items.len(),
        score_in(items, name) is None,
    ensures
        score_in(items.subrange(p, items.len() as int), name) is None,
    decreases items.len(),
{
    let tail = items.subrange(p, items.len() as int);
    if p < items.len() {
        let front = items.drop_last();
        assert(tail.drop_last() =~= front.subrange(p, front.len() as int));
        assert(tail.last() == items.last());
        lemma_score_in_part(front, p, name);
    }
}

/// Taking a member out changes the lookup of its name only.
pub proof fn lemma_score_in_remove(items: Seq<ScoreModel>, i: int, name: Seq<u8>)
    requires
        names_distinct(items),
        0 <= i < items.len(),
    ensures
        score_in(items.remove(i), name) == if name == items[i].name {
            None
        } else {
            score_in(items, name)
        },
    decreases items.len(),
{
    let fewer = items.remove(i);
    let n = items.len() - 1;
    if i == n {
        assert(fewer =~= items.drop_last());
        if name == items[i].name {
            lemma_lookup(fewer, name);
            match rank_of(fewer, name) {
                Some(k) => {
                    assert(fewer[k] == items[k]);
                    assert(items[k].name != items[n].name);
                },
                None => {},
            }
        }
    } else {
        let front = items.drop_last();
        assert(fewer.drop_last() =~= front.remove(i));
        assert(fewer.last() == items.last());
        assert forall|a: int, b: int| 0 <= a < b < front.len() implies front[a].name
            != front[b].name by {
            assert(items[a].name != items[b].name);
        }
        assert(front[i] == items[i]);
        assert(items[i].name != items[n].name);
        lemma_score_in_remove(front, i, name);
    }
}

/// Taking a key out of a map changes the lookup of that key only.
pub proof fn lemma_value_in_remove(keys: Seq<Seq<u8>>, vals: Seq<u64>, k: int, name: Seq<u8>)
    requires
        keys.len() == vals.len(),
        distinct(keys),
        0 <= k < keys.len(),
    ensures
        value_in(keys.remove(k), vals.remove(k), name) == if name == keys[k] {
            None
        } else {
            value_in(keys, vals, name)
        },
        distinct(keys.remove(k)),
{
    let fk = keys.remove(k);
    let fv = vals.remove(k);
    assert forall|a: int, b: int| 0 <= a < b < fk.len() implies fk[a] != fk[b] by {
        let a0 = if a < k { a } else { a + 1 };
        let b0 = if b < k { b } else { b + 1 };
        assert(keys[a0] != keys[b0]);
    }
    lemma_value_in(keys, vals, name);
    lemma_value_in(fk, fv, name);
    if has_key(fk, name) {
        let j = choose|j: int| 0 <= j < fk.len() && fk[j] == name;
        let j0 = if j < k { j } else { j + 1 };
        assert(keys[j0] == name);
        lemma_position_unique(keys, name, j0);
        lemma_position_unique(fk, name, j);
        assert(keys[j0] != keys[k]);
    } else if has_key(keys, name) {
        let j = choose|j: int| 0 <= j < keys.len() && keys[j] == name;
        if j != k {
            let j1 = if j < k { j } else { j - 1 };
            assert(fk[j1] == name);
        } else {
            lemma_position_unique(keys, name, k);
        }
    }
}

/// Taking out a member keeps the others in order and their names distinct.
pub proof fn lemma_remove_keeps_order(items: Seq<ScoreModel>, i: int)
    requires
        sorted(items),
        names_distinct(items),
        0 <= i < items.len(),
    ensures
        sorted(items.remove(i)),
        names_distinct(items.remove(i)),
{
    let fewer = items.remove(i);
    assert forall|a: int, b: int| 0 <= a < b < fewer.len() implies fewer[a].lt(fewer[b])
        && fewer[a].name != fewer[b].name by {
        let a0 = if a < i { a } else { a + 1 };
        let b0 = if b < i { b } else { b + 1 };
        assert(items[a0].lt(items[b0]));
        assert(items[a0].name != items[b0].name);
    }
}

/// Adding a member with a new name at its place keeps the members in order
/// and their names distinct.
pub proof fn lemma_insert_keeps_order(items: Seq<ScoreModel>, p: int, item: ScoreModel)
    requires
        sorted(items),
        names_distinct(items),
        0 <= p <= items.len(),
        forall|i: int| 0 <= i < p ==> (#[trigger] items[i]).lt(item),
        forall|i: int| p <= i < items.len() ==> !(#[trigger] items[i]).lt(item),
        forall|i: int| 0 <= i < items.len() ==> (#[trigger] items[i]).name != item.name,
    ensures
        sorted(items.insert(p, item)),
        names_distinct(items.insert(p, item)),
{
    let grown = items.insert(p, item);
    assert forall|a: int, b: int| 0 <= a < b < grown.len() implies grown[a].lt(grown[b])
        && grown[a].name != grown[b].name by {
        if a == p {
            assert(grown[b] == items[b - 1]);
            assert(!items[b - 1].lt(item));
            assert(items[b - 1].name != item.name);
            lemma_lt_total(item, items[b - 1]);
        } else if b == p {
            assert(grown[a] == items[a]);
            assert(items[a].lt(item));
            assert(items[a].name != item.name);
        } else {
            let a0 = if a < p { a } else { a - 1 };
            let b0 = if b < p { b } else { b - 1 };
            assert(items[a0].lt(items[b0]));
            assert(items[a0].name != items[b0].name);
        }
    }
}

/// Among ordered members, those that stand before `item` come first: they
/// are the members before index `count_before(items, item)`.
pub proof fn lemma_count_before_parts(items: Seq<ScoreModel>, item: ScoreModel)
    requires
        sorted(items),
    ensures
        0 <= count_before(items, item) <= items.len(),
        forall|i: int| 0 <= i < count_before(items, item) ==> (#[trigger] items[i]).lt(item),
        forall|i: int|
            count_before(items, item) <= i < items.len() ==> !(#[trigger] items[i]).lt(item),
    decreases items.len(),
{
    if items.len() > 0 {
        let front = items.drop_last();
        let last = items.last();
        assert forall|a: int, b: int| 0 <= a < b < front.len() implies front[a].lt(front[b]) by {
            assert(items[a].lt(items[b]));
        }
        lemma_count_before_parts(front, item);
        if last.lt(item) {
            assert forall|i: int| 0 <= i < front.len() implies (#[trigger] front[i]).lt(item) by {
                assert(items[i].lt(items[items.len() - 1]));
                lemma_lt_transitive(front[i], last, item);
            }
            lemma_count_before(front, item, front.len() as int);
            assert forall|i: int| 0 <= i < count_before(items, item) implies (
            #[trigger] items[i]).lt(item) by {
                if i < front.len() {
                    assert(front[i].lt(item));
                }
            }
        } else {
            assert forall|i: int| 0 <= i < count_before(items, item) implies (
            #[trigger] items[i]).lt(item) by {
                assert(front[i].lt(item));
            }
            assert forall|i: int| count_before(items, item) <= i < items.len() implies !(
            #[trigger] items[i]).lt(item) by {
                if i < front.len() {
                    assert(!front[i].lt(item));
                }
            }
        }
    }
}

/// Giving a member a score keeps a sorted set in order: the members still
/// stand by score and then by name, no member occurs twice, the member has
/// the score, and the set has grown by one exactly when the member is new.
pub proof fn lemma_insert_keeps_order_of_set(items: Seq<ScoreModel>, item: ScoreModel)
    requires
        sorted(items),
        names_distinct(items),
    ensures
        sorted(with(without(items, item.name), item)),
        names_distinct(with(without(items, item.name), item)),
        score_in(with(without(items, item.name), item), item.name) == Some(item.score),
        with(without(items, item.name), item).len() == if rank_of(items, item.name) is None {
            items.len() + 1
        } else {
            items.len()
        },
{
    let base = without(items, item.name);
    lemma_lookup(items, item.name);
    match rank_of(items, item.name) {
        Some(i) => {
            lemma_remove_keeps_order(items, i);
            lemma_score_in_remove(items, i, item.name);
        },
        None => {},
    }
    lemma_lookup(base, item.name);
    lemma_count_before_parts(base, item);
    let p = count_before(base, item);
    lemma_insert_keeps_order(base, p, item);
    lemma_score_in_insert(base, p, item, item.name);
    lemma_score_in_part(base, p, item.name);
}

/// The index before which every member stands before `item` and from which
/// on none does.
fn bin_search(sub_vec: &Vec<UserScore>, search_item: &UserScore) -> (r: usize)
    requires
        sorted(score_views(sub_vec@)),
    ensures
        r <= sub_vec@.len(),
        forall|i: int| 0 <= i < r ==> (#[trigger] score_views(sub_vec@)[i]).lt(search_item@),
        forall|i: int|
            r <= i < sub_vec@.len() ==> !(#[trigger] score_views(sub_vec@)[i]).lt(search_item@),
        r == count_before(score_views(sub_vec@), search_item@),
{
    let ghost items = score_views(sub_vec@);
    let mut low: usize = 0;
    let mut high: usize = sub_vec.len();
    while low < high
        invariant
            low <= high <= sub_vec.len(),
            items == score_views(sub_vec@),
            sorted(items),
            forall|i: int| 0 <= i < low ==> (#[trigger] items[i]).lt(search_item@),
            forall|i: int| high <= i < items.len() ==> !(#[trigger] items[i]).lt(search_item@),
        decreases high - low,
    {
        let mid = low + (high - low) / 2;
        if sub_vec[mid].stands_before(search_item) {
            proof {
                assert forall|i: int| 0 <= i < mid + 1 implies (#[trigger] items[i]).lt(
                    search_item@,
                ) by {
                    if i < mid {
                        assert(items[i].lt(items[mid as int]));
                        lemma_lt_transitive(items[i], items[mid as int], search_item@);
                    }
                }
            }
            low = mid + 1;
        } else {
            proof {
                assert forall|i: int| mid <= i < items.len() implies !(#[trigger] items[i]).lt(
                    search_item@,
                ) by {
                    if i > mid && items[i].lt(search_item@) {
                        assert(items[mid as int].lt(items[i]));
                        lemma_lt_transitive(items[mid as int], items[i], search_item@);
                    }
                }
            }
            high = mid;
        }
    }
    proof {
        lemma_count_before(items, search_item@, low as int);
    }
    low
}

/// The index at which `search_item` stands or would stand.
fn get_pos(sub_vec: &Vec<UserScore>, search_item: &UserScore) -> (r: usize)
    requires
        sorted(score_views(sub_vec@)),
    ensures
        r <= sub_vec@.len(),
        forall|i: int| 0 <= i < r ==> (#[trigger] score_views(sub_vec@)[i]).lt(search_item@),
        forall|i: int|
            r <= i < sub_vec@.len() ==> !(#[trigger] score_views(sub_vec@)[i]).lt(search_item@),
        r == count_before(score_views(sub_vec@), search_item@),
{
    bin_search(sub_vec, search_item)
}

/// A sorted set.
pub struct RedisSortedSet {
    pub(crate) collection: Vec<UserScore>,
    pub(crate) user_map: ByteMap<u64>,
}

/// The state of a sorted set, as mathematical values.
pub struct SortedSetModel {
    /// The members with their scores, in order.
    pub collection: Seq<ScoreModel>,
    /// The names in the map from member to score.
    pub map_keys: Seq<Seq<u8>>,
    /// The scores in the map from member to score, each at the index of its
    /// name.
    pub map_vals: Seq<u64>,
}

impl SortedSetModel {
    /// The ordered members and the map have the same size, no member occurs
    /// twice, the members are ordered by score and then by name, and the map
    /// gives every member the score it is ordered by, and nothing else a
    /// score.
    pub open spec fn wf(&self) -> bool {
        &&& self.collection.len() == self.map_keys.len()
        &&& self.map_keys.len() == self.map_vals.len()
        &&& distinct(self.map_keys)
        &&& names_distinct(self.collection)
        &&& sorted(self.collection)
        &&& forall|name: Seq<u8>|
            #[trigger] score_in(self.collection, name) == value_in(
                self.map_keys,
                self.map_vals,
                name,
            )
    }
}

impl View for RedisSortedSet {
    type V = SortedSetModel;

    closed spec fn view(&self) -> SortedSetModel {
        SortedSetModel {
            collection: score_views(self.collection@),
            map_keys: self.user_map.keys(),
            map_vals: self.user_map.vals(),
        }
    }
}

/// Indexes of a range, counted from the end where negative: the first and
/// the last index that the range holds in a sequence of `len` elements, or
/// `None` for an empty range.
pub open spec fn index_range(len: int, start: int, end: int) -> Option<(int, int)> {
    let from = if start < 0 {
        if len + start < 0 {
            0
        } else {
            len + start
        }
    } else {
        start
    };
    let to = if end < 0 {
        len + end
    } else {
        end
    };
    if from >= len || from > to || to < 0 {
        None
    } else {
        Some((from, if to >= len {
            len - 1
        } else {
            to
        }))
    }
}

/// The names of the given members, in order.
pub open spec fn names(items: Seq<ScoreModel>) -> Seq<Seq<u8>> {
    Seq::new(items.len(), |i: int| items[i].name)
}

/// The reply that lists the names of a range of byte strings: the empty
/// array for an empty range.
pub open spec fn range_reply(items: Seq<Seq<u8>>, start: int, end: int) -> Seq<u8> {
    match index_range(items.len() as int, start, end) {
        Some((from, to)) => resp_array(items.subrange(from, to + 1)),
        None => resp_array(Seq::empty()),
    }
}

/// The first and the last index of a range in a sequence of `len` elements.
pub fn resolve_range(len: usize, start: i64, end: i64) -> (r: Option<(usize, usize)>)
    ensures
        match (r, index_range(len as int, start as int, end as int)) {
            (Some((from, to)), Some((f, t))) => from == f && to == t && from <= to < len,
            (None, None) => true,
            _ => false,
        },
{
    let n: i128 = len as i128;
    let from: i128 = if start < 0 {
        if n + (start as i128) < 0 {
            0
        } else {
            n + start as i128
        }
    } else {
        start as i128
    };
    let to: i128 = if end < 0 {
        n + end as i128
    } else {
        end as i128
    };
    if from >= n || from > to || to < 0 {
        None
    } else {
        let last: i128 = if to >= n {
            n - 1
        } else {
            to
        };
        Some((from as usize, last as usize))
    }
}

impl RedisSortedSet {
    #[verifier::type_invariant]
    pub closed spec fn inv(&self) -> bool {
        self@.wf()
    }

    /// An empty sorted set.
    pub fn new() -> (r: Self)
        ensures
            r@.collection == Seq::<ScoreModel>::empty(),
            r@.wf(),
    {
        let r = RedisSortedSet { collection: Vec::new(), user_map: ByteMap::new() };
        assert(r@.collection =~= Seq::<ScoreModel>::empty());
        r
    }

    /// The number of members.
    pub fn len(&self) -> (r: usize)
        ensures
            r == self@.collection.len(),
            self@.wf(),
    {
        proof {
            use_type_invariant(self);
        }
        self.collection.len()
    }

    /// The rank of the member `member_name`: the number of members that
    /// stand before it. `None` when the set does not hold the member.
    pub fn rank(&self, member_name: &[u8]) -> (r: Option<usize>)
        ensures
            self@.wf(),
            match r {
                Some(i) => rank_of(self@.collection, member_name@) == Some(i as int),
                None => rank_of(self@.collection, member_name@) is None,
            },
    {
        proof {
            use_type_invariant(self);
            lemma_value_in(self@.map_keys, self@.map_vals, member_name@);
            lemma_lookup(self@.collection, member_name@);
            assert(score_in(self@.collection, member_name@) == value_in(
                self@.map_keys,
                self@.map_vals,
                member_name@,
            ));
        }
        match self.user_map.find(member_name) {
            None => None,
            Some(k) => {
                let score = *self.user_map.value_at(k);
                let probe = UserScore {
                    score,
                    name: crate::bytes::copy_range(member_name, 0, member_name.len()),
                };
                assert(probe.name@ =~= member_name@);
                let pos = get_pos(&self.collection, &probe);
                proof {
                    let items = self@.collection;
                    let i = rank_of(items, member_name@)->0;
                    assert(items[i] == probe@);
                    lemma_bytes_lt_irreflexive(probe@.name);
                    assert(!items[i].lt(probe@));
                    if pos < i {
                        assert(items[pos as int].lt(items[i]));
                    }
                }
                Some(pos)
            },
        }
    }

    /// Gives the member `name` the score `score`. A member that the set
    /// holds already moves to the place of its new score. Returns whether
    /// the member is new.
    pub fn insert(&mut self, score: u64, name: &[u8]) -> (r: bool)
        ensures
            r == (rank_of(old(self)@.collection, name@) is None),
            final(self)@.collection == with(
                without(old(self)@.collection, name@),
                ScoreModel { score, name: name@ },
            ),
            final(self)@.wf(),
    {
        proof {
            use_type_invariant(&*self);
        }
        let ghost before = self@;
        let ghost item = ScoreModel { score, name: name@ };
        let existing = self.rank(name);
        let mut taken = RedisSortedSet::new();
        core::mem::swap(self, &mut taken);
        let RedisSortedSet { collection: mut collection, user_map: mut user_map } = taken;
        proof {
            lemma_lookup(before.collection, name@);
            lemma_value_in(before.map_keys, before.map_vals, name@);
            assert(score_in(before.collection, name@) == value_in(
                before.map_keys,
                before.map_vals,
                name@,
            ));
        }
        match existing {
            Some(i) => {
                let k = match user_map.find(name) {
                    Some(k) => k,
                    None => 0,
                };
                let _ = collection.remove(i);
                let _ = user_map.remove_at(k);
                proof {
                    assert(score_views(collection@) =~= before.collection.remove(i as int));
                    lemma_remove_keeps_order(before.collection, i as int);
                    assert forall|n: Seq<u8>|
                        #[trigger] score_in(score_views(collection@), n) == value_in(
                            user_map.keys(),
                            user_map.vals(),
                            n,
                        ) by {
                        lemma_score_in_remove(before.collection, i as int, n);
                        lemma_value_in_remove(before.map_keys, before.map_vals, k as int, n);
                        assert(score_in(before.collection, n) == value_in(
                            before.map_keys,
                            before.map_vals,
                            n,
                        ));
                    }
                    lemma_value_in_remove(before.map_keys, before.map_vals, k as int, name@);
                }
            },
            None => {},
        }
        let ghost base = score_views(collection@);
        let ghost base_keys = user_map.keys();
        let ghost base_vals = user_map.vals();
        assert(base == without(before.collection, name@));
        let entry = UserScore { score, name: crate::bytes::copy_range(name, 0, name.len()) };
        assert(entry.name@ =~= name@);
        assert(entry@ == item);
        let pos = bin_search(&collection, &entry);
        proof {
            lemma_lookup(base, name@);
            assert(score_in(base, name@) == value_in(base_keys, base_vals, name@));
            assert(score_in(base, name@) is None) by {
                match existing {
                    Some(i) => {
                        lemma_score_in_remove(before.collection, i as int, name@);
                    },
                    None => {},
                }
            }
            lemma_value_in(base_keys, base_vals, name@);
            lemma_insert_keeps_order(base, pos as int, item);
        }
        collection.insert(pos, entry);
        let key = crate::bytes::copy_range(name, 0, name.len());
        assert(key@ =~= name@);
        user_map.push(key, score);
        proof {
            assert(score_views(collection@) =~= base.insert(pos as int, item));
            assert forall|n: Seq<u8>|
                #[trigger] score_in(score_views(collection@), n) == value_in(
                    user_map.keys(),
                    user_map.vals(),
                    n,
                ) by {
                lemma_score_in_insert(base, pos as int, item, n);
                lemma_score_in_part(base, pos as int, name@);
                assert(score_in(base, n) == value_in(base_keys, base_vals, n));
                assert(user_map.keys().drop_last() =~= base_keys);
                assert(user_map.vals().drop_last() =~= base_vals);
            }
        }
        *self = RedisSortedSet { collection, user_map };
        existing.is_none()
    }

    /// The reply that lists the names of the members with ranks from
    /// `start` to `end`, both included; a negative rank counts from the end.
    pub fn range_resp_array(&self, start: i64, end: i64) -> (r: Vec<u8>)
        ensures
            r@ == range_reply(names(self@.collection), start as int, end as int),
    {
        let mut picked: Vec<Vec<u8>> = Vec::new();
        match resolve_range(self.collection.len(), start, end) {
            None => {
                assert(views(picked@) =~= Seq::<Seq<u8>>::empty());
            },
            Some((from, to)) => {
                let mut i: usize = from;
                let ghost all = names(self@.collection);
                assert(all.subrange(from as int, from as int) =~= views(picked@));
                while i <= to
                    invariant
                        from <= i <= to + 1,
                        to < self.collection.len(),
                        all == names(self@.collection),
                        views(picked@) == all.subrange(from as int, i as int),
                    decreases to + 1 - i,
                {
                    let copy = clone_bytes(&self.collection[i].name);
                    proof {
                        assert(all[i as int] == self.collection@[i as int].name@);
                        assert(views(picked@.push(copy)) =~= views(picked@).push(copy@));
                        assert(all.subrange(from as int, i as int).push(all[i as int])
                            =~= all.subrange(from as int, i + 1));
                    }
                    picked.push(copy);
                    i += 1;
                }
            },
        }
        format_resp_array(&picked)
    }
}

} // verus!
