//! The query fragment of a request target, as a mapping from each key to the
//! one or many values given for it.

use super::text::{
    first_of, is_piece, lemma_first_of, lemma_first_of_unique, lemma_piece_of_piece,
    lemma_split_gives_pieces, same_text, split_at_first, split_first,
};
use vstd::prelude::*;

verus! {

/// What a query string holds for one key.
#[derive(Debug)]
pub enum Value<'buf> {
    /// The key occurred once.
    Single(&'buf str),
    /// The key occurred more than once; the values stand in order of occurrence.
    Multiple(Vec<&'buf str>),
}

/// The mathematical model of a [`Value`].
pub enum ValueView {
    Single(Seq<char>),
    Multiple(Seq<Seq<char>>),
}

impl<'buf> View for Value<'buf> {
    type V = ValueView;

    open spec fn view(&self) -> ValueView {
        match self {
            Value::Single(s) => ValueView::Single(s@),
            Value::Multiple(v) => ValueView::Multiple(v@.map_values(|s: &str| s@)),
        }
    }
}

/// A key and the value that one sub-fragment gives it.
pub type Pair = (Seq<char>, Seq<char>);

/// The model of a query string.
pub type QueryMap = Map<Seq<char>, ValueView>;

/// The value of a key after one more occurrence with the value `s`.
pub open spec fn grown(v: ValueView, s: Seq<char>) -> ValueView {
    match v {
        ValueView::Single(p) => ValueView::Multiple(seq![p, s]),
        ValueView::Multiple(ps) => ValueView::Multiple(ps.push(s)),
    }
}

/// The pair that a sub-fragment stands for: the text before its first `=` is
/// the key and the text after it the value; without `=` the whole
/// sub-fragment is the key and the value is empty.
pub open spec fn pair_of(sub: Seq<char>) -> Pair {
    match split_first(sub, '=', '=') {
        Some((key, value)) => (key, value),
        None => (sub, Seq::empty()),
    }
}

/// The pairs of a fragment, one for each of its `&`-separated sub-fragments,
/// in order.
pub open spec fn pairs(fragment: Seq<char>) -> Seq<Pair>
    decreases fragment.len(),
{
    match first_of(fragment, '&', '&') {
        Some(i) => if 0 <= i < fragment.len() {
            seq![pair_of(fragment.subrange(0, i))] + pairs(
                fragment.subrange(i + 1, fragment.len() as int),
            )
        } else {
            seq![pair_of(fragment)]
        },
        None => seq![pair_of(fragment)],
    }
}

/// The mapping after one more pair: a new key gets a single value, a key with
/// a single value gets the list of both, a key with a list gets it extended.
pub open spec fn insert_pair(m: QueryMap, p: Pair) -> QueryMap {
    if m.contains_key(p.0) {
        m.insert(p.0, grown(m[p.0], p.1))
    } else {
        m.insert(p.0, ValueView::Single(p.1))
    }
}

/// The mapping after the pairs `ps`, taken from left to right.
pub open spec fn insert_all(m: QueryMap, ps: Seq<Pair>) -> QueryMap
    decreases ps.len(),
{
    if ps.len() == 0 {
        m
    } else {
        insert_all(insert_pair(m, ps[0]), ps.drop_first())
    }
}

/// The mapping that a query fragment stands for.
pub open spec fn query_map(fragment: Seq<char>) -> QueryMap {
    insert_all(Map::empty(), pairs(fragment))
}

/// The values that the pairs `ps` give to the key `k`, in order.
pub open spec fn occurrences(ps: Seq<Pair>, k: Seq<char>) -> Seq<Seq<char>>
    decreases ps.len(),
{
    if ps.len() == 0 {
        Seq::empty()
    } else if ps[0].0 == k {
        seq![ps[0].1] + occurrences(ps.drop_first(), k)
    } else {
        occurrences(ps.drop_first(), k)
    }
}

/// The values that a mapping holds for the key `k`, in order.
pub open spec fn values_of(m: QueryMap, k: Seq<char>) -> Seq<Seq<char>> {
    if m.contains_key(k) {
        match m[k] {
            ValueView::Single(v) => seq![v],
            ValueView::Multiple(vs) => vs,
        }
    } else {
        Seq::empty()
    }
}

/// Every list in the mapping holds at least two values.
pub open spec fn lists_are_plural(m: QueryMap) -> bool {
    forall|k: Seq<char>| #[trigger]
        m.contains_key(k) ==> match m[k] {
            ValueView::Single(_) => true,
            ValueView::Multiple(vs) => vs.len() >= 2,
        }
}

/// A sub-fragment without `=` is a key with the empty value.
pub proof fn lemma_key_without_value(sub: Seq<char>)
    requires
        forall|i: int| 0 <= i < sub.len() ==> sub[i] != '=',
    ensures
        pair_of(sub) == (sub, Seq::<char>::empty()),
{
    lemma_first_of(sub, '=', '=');
}

/// A fragment that is one sub-fragment without `=` maps that sub-fragment,
/// and nothing else, to the single empty value.
pub proof fn lemma_lone_key(fragment: Seq<char>)
    requires
        forall|i: int| 0 <= i < fragment.len() ==> fragment[i] != '=' && fragment[i] != '&',
    ensures
        query_map(fragment) == Map::<Seq<char>, ValueView>::empty().insert(
            fragment,
            ValueView::Single(Seq::empty()),
        ),
{
    lemma_first_of(fragment, '=', '=');
    lemma_first_of(fragment, '&', '&');
    let ps = pairs(fragment);
    assert(ps =~= seq![(fragment, Seq::<char>::empty())]);
    assert(ps.drop_first() =~= Seq::<Pair>::empty());
    assert(insert_all(insert_pair(Map::empty(), ps[0]), ps.drop_first()) == insert_pair(
        Map::empty(),
        ps[0],
    ));
}

/// Entering pairs group by group gives what entering them all in one go
/// gives: how a list of pairs is cut into groups does not matter.
pub proof fn lemma_grouping(m: QueryMap, ps: Seq<Pair>, qs: Seq<Pair>)
    ensures
        insert_all(insert_all(m, ps), qs) == insert_all(m, ps + qs),
    decreases ps.len(),
{
    if ps.len() == 0 {
        assert(ps + qs =~= qs);
    } else {
        assert((ps + qs)[0] == ps[0]);
        assert((ps + qs).drop_first() =~= ps.drop_first() + qs);
        lemma_grouping(insert_pair(m, ps[0]), ps.drop_first(), qs);
    }
}

/// The pairs of two fragments joined by `&` are the pairs of the first
/// followed by the pairs of the second.
pub proof fn lemma_pairs_of_joined(x: Seq<char>, y: Seq<char>)
    ensures
        pairs(x + seq!['&'] + y) == pairs(x) + pairs(y),
    decreases x.len(),
{
    let joined = x + seq!['&'] + y;
    lemma_first_of(x, '&', '&');
    match first_of(x, '&', '&') {
        Some(i) => {
            lemma_first_of_unique(joined, '&', '&', i);
            let tail = x.subrange(i + 1, x.len() as int);
            assert(joined.subrange(0, i) =~= x.subrange(0, i));
            assert(joined.subrange(i + 1, joined.len() as int) =~= tail + seq!['&'] + y);
            lemma_pairs_of_joined(tail, y);
            assert(pairs(joined) =~= pairs(x) + pairs(y));
        },
        None => {
            lemma_first_of_unique(joined, '&', '&', x.len() as int);
            assert(joined.subrange(0, x.len() as int) =~= x);
            assert(joined.subrange(x.len() as int + 1, joined.len() as int) =~= y);
        },
    }
}

/// Parsing two fragments joined by `&` gives what entering the pairs of the
/// second into the mapping of the first gives.
pub proof fn lemma_query_of_joined(x: Seq<char>, y: Seq<char>)
    ensures
        query_map(x + seq!['&'] + y) == insert_all(query_map(x), pairs(y)),
{
    lemma_pairs_of_joined(x, y);
    lemma_grouping(Map::empty(), pairs(x), pairs(y));
}

/// Entering pairs appends, for every key, the values that the pairs give it
/// to those it had, in order, and keeps every list plural.
pub proof fn lemma_values_in_order(m: QueryMap, ps: Seq<Pair>, k: Seq<char>)
    requires
        lists_are_plural(m),
    ensures
        lists_are_plural(insert_all(m, ps)),
        values_of(insert_all(m, ps), k) == values_of(m, k) + occurrences(ps, k),
    decreases ps.len(),
{
    if ps.len() == 0 {
        assert(values_of(m, k) + occurrences(ps, k) =~= values_of(m, k));
    } else {
        let p = ps[0];
        let next = insert_pair(m, p);
        assert(lists_are_plural(next)) by {
            assert forall|j: Seq<char>| #[trigger] next.contains_key(j) implies match next[j] {
                ValueView::Single(_) => true,
                ValueView::Multiple(vs) => vs.len() >= 2,
            } by {
                if j != p.0 {
                    assert(m.contains_key(j));
                } else if m.contains_key(j) {
                }
            }
        }
        if p.0 == k {
            assert(values_of(next, k) =~= values_of(m, k) + seq![p.1]);
        } else {
            assert(values_of(next, k) == values_of(m, k));
        }
        lemma_values_in_order(next, ps.drop_first(), k);
        assert(values_of(m, k) + occurrences(ps, k) =~= values_of(next, k) + occurrences(
            ps.drop_first(),
            k,
        ));
    }
}

/// What a fragment's mapping holds for a key is decided by the values that
/// the fragment's pairs give that key, in their order: none and the key is
/// absent, one and it is single, more and they are the list.
pub proof fn lemma_value_of_key(fragment: Seq<char>, k: Seq<char>)
    ensures
        ({
            let m = query_map(fragment);
            let vs = occurrences(pairs(fragment), k);
            &&& m.contains_key(k) <==> vs.len() > 0
            &&& vs.len() == 1 ==> m[k] == ValueView::Single(vs[0])
            &&& vs.len() >= 2 ==> m[k] == ValueView::Multiple(vs)
        }),
{
    let empty = Map::<Seq<char>, ValueView>::empty();
    lemma_values_in_order(empty, pairs(fragment), k);
    let m = query_map(fragment);
    let vs = occurrences(pairs(fragment), k);
    assert(values_of(m, k) =~= vs);
    if m.contains_key(k) {
        match m[k] {
            ValueView::Single(v) => {
                assert(vs =~= seq![v]);
            },
            ValueView::Multiple(l) => {},
        }
    }
}

/// The key and the value of every pair of a fragment are contiguous pieces
/// of the fragment: parsing makes no text of its own.
pub proof fn lemma_pairs_are_pieces(fragment: Seq<char>, n: int)
    requires
        0 <= n < pairs(fragment).len(),
    ensures
        is_piece(pairs(fragment)[n].0, fragment),
        is_piece(pairs(fragment)[n].1, fragment),
    decreases fragment.len(),
{
    lemma_first_of(fragment, '&', '&');
    lemma_split_gives_pieces(fragment, '&', '&');
    match first_of(fragment, '&', '&') {
        Some(i) => {
            let head = fragment.subrange(0, i);
            let tail = fragment.subrange(i + 1, fragment.len() as int);
            if n == 0 {
                lemma_split_gives_pieces(head, '=', '=');
                lemma_piece_of_piece(pair_of(head).0, head, fragment);
                lemma_piece_of_piece(pair_of(head).1, head, fragment);
            } else {
                lemma_pairs_are_pieces(tail, n - 1);
                assert(pairs(fragment)[n] == pairs(tail)[n - 1]);
                lemma_piece_of_piece(pairs(tail)[n - 1].0, tail, fragment);
                lemma_piece_of_piece(pairs(tail)[n - 1].1, tail, fragment);
            }
        },
        None => {
            lemma_split_gives_pieces(fragment, '=', '=');
        },
    }
}

/// Every value that the pairs give to a key is the value of one of the pairs.
pub proof fn lemma_occurrences_are_values(ps: Seq<Pair>, k: Seq<char>, n: int)
    requires
        0 <= n < occurrences(ps, k).len(),
    ensures
        exists|i: int| 0 <= i < ps.len() && #[trigger] ps[i].1 == occurrences(ps, k)[n],
    decreases ps.len(),
{
    if ps.len() > 0 {
        let rest = ps.drop_first();
        if ps[0].0 == k && n == 0 {
            assert(ps[0].1 == occurrences(ps, k)[n]);
        } else {
            let m = if ps[0].0 == k {
                n - 1
            } else {
                n
            };
            lemma_occurrences_are_values(rest, k, m);
            let i = choose|i: int| 0 <= i < rest.len() && #[trigger] rest[i].1 == occurrences(rest, k)[m];
            assert(ps[i + 1].1 == occurrences(ps, k)[n]);
        }
    }
}

/// Every value that a fragment's mapping holds is a contiguous piece of the
/// fragment.
pub proof fn lemma_values_are_pieces(fragment: Seq<char>, k: Seq<char>, n: int)
    requires
        0 <= n < values_of(query_map(fragment), k).len(),
    ensures
        is_piece(values_of(query_map(fragment), k)[n], fragment),
{
    let ps = pairs(fragment);
    lemma_values_in_order(Map::empty(), ps, k);
    assert(values_of(query_map(fragment), k) =~= occurrences(ps, k));
    lemma_occurrences_are_values(ps, k, n);
    let i = choose|i: int| 0 <= i < ps.len() && #[trigger] ps[i].1 == occurrences(ps, k)[n];
    lemma_pairs_are_pieces(fragment, i);
}

impl<'buf> Value<'buf> {
    /// Records one more occurrence of the key, with the value `val`.
    fn grow(&mut self, val: &'buf str)
        ensures
            final(self)@ == grown(old(self)@, val@),
    {
        match self {
            Value::Single(prev) => {
                let first: &'buf str = *prev;
                let both = vec![first, val];
                assert(both@.map_values(|s: &str| s@) =~= seq![first@, val@]);
                *self = Value::Multiple(both);
            },
            Value::Multiple(values) => {
                let ghost before = values@;
                values.push(val);
                assert(values@.map_values(|s: &str| s@) =~= before.map_values(|s: &str| s@).push(
                    val@,
                ));
            },
        }
    }
}

/// A key with its value, as stored.
type Entry<'buf> = (&'buf str, Value<'buf>);

/// No key stands in two entries.
spec fn distinct_keys(es: Seq<Entry<'_>>) -> bool {
    forall|i: int, j: int| 0 <= i < j < es.len() ==> es[i].0@ != es[j].0@
}

/// The entry at `i` is the one for the key `k`.
spec fn at_key(es: Seq<Entry<'_>>, k: Seq<char>, i: int) -> bool {
    0 <= i < es.len() && es[i].0@ == k
}

/// Some entry is the one for the key `k`.
spec fn has_key(es: Seq<Entry<'_>>, k: Seq<char>) -> bool {
    exists|i: int| at_key(es, k, i)
}

/// The index of the entry for the key `k`, where there is one.
spec fn index_of(es: Seq<Entry<'_>>, k: Seq<char>) -> int {
    choose|i: int| at_key(es, k, i)
}

/// The mapping that a list of entries with distinct keys stands for.
spec fn entries_map(es: Seq<Entry<'_>>) -> QueryMap {
    Map::new(|k: Seq<char>| has_key(es, k), |k: Seq<char>| es[index_of(es, k)].1@)
}

/// With distinct keys, each entry is the one found for its key.
proof fn lemma_index_of(es: Seq<Entry<'_>>, i: int)
    requires
        distinct_keys(es),
        0 <= i < es.len(),
    ensures
        has_key(es, es[i].0@),
        index_of(es, es[i].0@) == i,
        entries_map(es).contains_key(es[i].0@),
        entries_map(es)[es[i].0@] == es[i].1@,
{
    assert(at_key(es, es[i].0@, i));
    let j = index_of(es, es[i].0@);
    assert(at_key(es, es[i].0@, j));
    if j < i {
        assert(es[j].0@ != es[i].0@);
    } else if i < j {
        assert(es[i].0@ != es[j].0@);
    }
}

/// The index of the entry for `key`, if there is one.
fn position(entries: &Vec<Entry<'_>>, key: &str) -> (r: Option<usize>)
    ensures
        match r {
            Some(i) => at_key(entries@, key@, i as int),
            None => !has_key(entries@, key@),
        },
{
    let mut i: usize = 0;
    while i < entries.len()
        invariant
            i <= entries.len(),
            forall|j: int| 0 <= j < i ==> !at_key(entries@, key@, j),
        decreases entries.len() - i,
    {
        if same_text(entries[i].0, key) {
            return Some(i);
        }
        i = i + 1;
    }
    None
}

/// Enters the pair of one sub-fragment.
fn record<'buf>(entries: &mut Vec<Entry<'buf>>, sub: &'buf str)
    requires
        distinct_keys(old(entries)@),
    ensures
        distinct_keys(final(entries)@),
        entries_map(final(entries)@) == insert_pair(entries_map(old(entries)@), pair_of(sub@)),
{
    let (key, val) = match split_at_first(sub, '=', '=') {
        Some((k, v)) => (k, v),
        None => {
            proof {
                reveal_strlit("");
            }
            assert(""@ =~= Seq::<char>::empty());
            (sub, "")
        },
    };
    assert(pair_of(sub@) == (key@, val@));
    let ghost before = entries@;
    match position(entries, key) {
        Some(i) => {
            entries[i].1.grow(val);
            proof {
                let after = entries@;
                lemma_index_of(before, i as int);
                assert(distinct_keys(after)) by {
                    assert forall|a: int, b: int| 0 <= a < b < after.len() implies after[a].0@
                        != after[b].0@ by {
                        assert(after[a].0@ == before[a].0@ && after[b].0@ == before[b].0@);
                    }
                }
                assert forall|k: Seq<char>| has_key(after, k) == has_key(before, k) by {
                    if has_key(after, k) {
                        let j = index_of(after, k);
                        assert(at_key(before, k, j));
                    }
                    if has_key(before, k) {
                        let j = index_of(before, k);
                        assert(at_key(after, k, j));
                    }
                }
                assert forall|k: Seq<char>| has_key(after, k) implies #[trigger] entries_map(
                    after,
                )[k] == insert_pair(entries_map(before), (key@, val@))[k] by {
                    let j = index_of(after, k);
                    assert(at_key(after, k, j));
                    lemma_index_of(after, j);
                    lemma_index_of(before, j);
                }
                assert(entries_map(after) =~= insert_pair(entries_map(before), (key@, val@)));
            }
        },
        None => {
            entries.push((key, Value::Single(val)));
            proof {
                let after = entries@;
                let n = before.len() as int;
                assert(distinct_keys(after)) by {
                    assert forall|a: int, b: int| 0 <= a < b < after.len() implies after[a].0@
                        != after[b].0@ by {
                        if b == n {
                            assert(!at_key(before, key@, a));
                        } else {
                            assert(after[a].0@ == before[a].0@ && after[b].0@ == before[b].0@);
                        }
                    }
                }
                assert forall|k: Seq<char>| has_key(after, k) == (has_key(before, k) || k == key@) by {
                    if has_key(after, k) {
                        let j = index_of(after, k);
                        if j < n {
                            assert(at_key(before, k, j));
                        }
                    }
                    if has_key(before, k) {
                        let j = index_of(before, k);
                        assert(at_key(after, k, j));
                    }
                    if k == key@ {
                        assert(at_key(after, k, n));
                    }
                }
                assert forall|k: Seq<char>| has_key(after, k) implies #[trigger] entries_map(
                    after,
                )[k] == insert_pair(entries_map(before), (key@, val@))[k] by {
                    let j = index_of(after, k);
                    assert(at_key(after, k, j));
                    lemma_index_of(after, j);
                    if j < n {
                        lemma_index_of(before, j);
                    }
                }
                assert(entries_map(after) =~= insert_pair(entries_map(before), (key@, val@)));
            }
        },
    }
}

/// A parsed query fragment. All of its text is borrowed from the fragment.
/// The entries stand in a list, one for each key, which a lookup walks.
#[derive(Debug)]
pub struct QueryString<'buf> {
    entries: Vec<(&'buf str, Value<'buf>)>,
}

impl<'buf> View for QueryString<'buf> {
    type V = QueryMap;

    closed spec fn view(&self) -> QueryMap {
        entries_map(self.entries@)
    }
}

impl<'buf> QueryString<'buf> {
    #[verifier::type_invariant]
    spec fn well_formed(self) -> bool {
        distinct_keys(self.entries@)
    }

    /// Parses the text that follows the `?` of a request target. Every text
    /// is accepted; nothing is decoded or unescaped.
    pub fn from(s: &'buf str) -> (r: QueryString<'buf>)
        ensures
            r@ == query_map(s@),
    {
        let mut entries: Vec<(&'buf str, Value<'buf>)> = Vec::new();
        let mut rest = s;
        assert(entries_map(entries@) =~= Map::empty());
        loop
            invariant
                distinct_keys(entries@),
                insert_all(entries_map(entries@), pairs(rest@)) == query_map(s@),
            decreases rest@.len(),
        {
            let ghost before = entries@;
            match split_at_first(rest, '&', '&') {
                Some((head, tail)) => {
                    record(&mut entries, head);
                    proof {
                        lemma_first_of(rest@, '&', '&');
                        let ps = pairs(rest@);
                        assert(ps.drop_first() =~= pairs(tail@));
                    }
                    rest = tail;
                },
                None => {
                    record(&mut entries, rest);
                    proof {
                        let ps = pairs(rest@);
                        assert(ps.drop_first() =~= Seq::<Pair>::empty());
                        assert(insert_all(entries_map(before), ps) == insert_all(
                            entries_map(entries@),
                            ps.drop_first(),
                        ));
                    }
                    return QueryString { entries };
                },
            }
        }
    }

    /// The value recorded for `key`, if the key occurred.
    pub fn get(&self, key: &str) -> (r: Option<&Value<'buf>>)
        ensures
            match r {
                Some(v) => self@.contains_key(key@) && self@[key@] == v@,
                None => !self@.contains_key(key@),
            },
    {
        proof {
            use_type_invariant(self);
        }
        match position(&self.entries, key) {
            Some(i) => {
                proof {
                    lemma_index_of(self.entries@, i as int);
                }
                Some(&self.entries[i].1)
            },
            None => None,
        }
    }
}

} // verus!
