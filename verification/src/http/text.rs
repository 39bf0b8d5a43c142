//! Text primitives shared by the parsers: searching, splitting and comparing,
//! and what is taken on trust of UTF-8 decoding. Text is modelled as a
//! sequence of characters.

use vstd::prelude::*;
use vstd::std_specs::iter::IteratorSpec;
use vstd::string::*;
use vstd::utf8::valid_utf8;

verus! {

/// `core::str::Utf8Error`, the error of `core::str::from_utf8`. It is only
/// carried through; nothing is claimed of what it holds.
#[verifier::external_type_specification]
#[verifier::external_body]
pub struct ExUtf8Error(core::str::Utf8Error);

/// `core::str::from_utf8` succeeds exactly on well-formed UTF-8, and the text
/// it then returns is encoded by the very bytes it was given. Nothing is said
/// of the error value.
pub assume_specification[ core::str::from_utf8 ](v: &[u8]) -> (r: Result<
    &str,
    core::str::Utf8Error,
>)
    ensures
        r is Ok <==> valid_utf8(v@),
        r is Ok ==> r->Ok_0.spec_bytes() == v@,
;

/// Position of the first character at or after `from` that equals `a` or `b`,
/// or the length of `s` when there is none.
pub open spec fn scan(s: Seq<char>, a: char, b: char, from: int) -> int
    decreases s.len() - from,
{
    if from < 0 || from >= s.len() {
        s.len() as int
    } else if s[from] == a || s[from] == b {
        from
    } else {
        scan(s, a, b, from + 1)
    }
}

/// Position of the first occurrence of `a` or `b` in `s`, if either occurs.
pub open spec fn first_of(s: Seq<char>, a: char, b: char) -> Option<int> {
    if scan(s, a, b, 0) < s.len() {
        Some(scan(s, a, b, 0))
    } else {
        None
    }
}

/// The text before and the text after the first occurrence of `a` or `b`;
/// the delimiter itself belongs to neither part.
pub open spec fn split_first(s: Seq<char>, a: char, b: char) -> Option<(Seq<char>, Seq<char>)> {
    match first_of(s, a, b) {
        Some(i) => Some((s.subrange(0, i), s.subrange(i + 1, s.len() as int))),
        None => None,
    }
}

/// What `scan` computes: the least matching position not below `from`.
pub proof fn lemma_scan(s: Seq<char>, a: char, b: char, from: int)
    requires
        0 <= from <= s.len(),
    ensures
        from <= scan(s, a, b, from) <= s.len(),
        scan(s, a, b, from) < s.len() ==> s[scan(s, a, b, from)] == a || s[scan(s, a, b, from)]
            == b,
        forall|j: int| from <= j < scan(s, a, b, from) ==> s[j] != a && s[j] != b,
    decreases s.len() - from,
{
    if from < s.len() && !(s[from] == a || s[from] == b) {
        lemma_scan(s, a, b, from + 1);
    }
}

/// `first_of` is `Some(i)` exactly when `i` is a matching position with no
/// matching position before it, and `None` exactly when nothing matches.
pub proof fn lemma_first_of(s: Seq<char>, a: char, b: char)
    ensures
        match first_of(s, a, b) {
            Some(i) => 0 <= i < s.len() && (s[i] == a || s[i] == b) && forall|j: int|
                0 <= j < i ==> s[j] != a && s[j] != b,
            None => forall|j: int| 0 <= j < s.len() ==> s[j] != a && s[j] != b,
        },
{
    lemma_scan(s, a, b, 0);
}

/// A matching position with no matching position before it is the one that
/// `first_of` gives.
pub proof fn lemma_first_of_unique(s: Seq<char>, a: char, b: char, i: int)
    requires
        0 <= i < s.len(),
        s[i] == a || s[i] == b,
        forall|j: int| 0 <= j < i ==> s[j] != a && s[j] != b,
    ensures
        first_of(s, a, b) == Some(i),
{
    lemma_scan(s, a, b, 0);
}

/// A text without `a` and `b`, then one of them, then any text: the split
/// gives back the first and the last.
pub proof fn lemma_split_first_joined(x: Seq<char>, c: char, y: Seq<char>, a: char, b: char)
    requires
        forall|i: int| 0 <= i < x.len() ==> x[i] != a && x[i] != b,
        c == a || c == b,
    ensures
        split_first(x + seq![c] + y, a, b) == Some((x, y)),
{
    let joined = x + seq![c] + y;
    lemma_first_of_unique(joined, a, b, x.len() as int);
    assert(joined.subrange(0, x.len() as int) =~= x);
    assert(joined.subrange(x.len() as int + 1, joined.len() as int) =~= y);
}

/// Whether `part` is a contiguous piece of `whole`.
pub open spec fn is_piece(part: Seq<char>, whole: Seq<char>) -> bool {
    exists|i: int, j: int| 0 <= i <= j <= whole.len() && part == #[trigger] whole.subrange(i, j)
}

/// A piece of a piece is a piece.
pub proof fn lemma_piece_of_piece(x: Seq<char>, y: Seq<char>, z: Seq<char>)
    requires
        is_piece(x, y),
        is_piece(y, z),
    ensures
        is_piece(x, z),
{
    let (i, j) = choose|i: int, j: int|
        0 <= i <= j <= y.len() && x == #[trigger] y.subrange(i, j);
    let (k, l) = choose|k: int, l: int|
        0 <= k <= l <= z.len() && y == #[trigger] z.subrange(k, l);
    assert(x =~= z.subrange(k + i, k + j));
}

/// Both parts of a split are pieces of the text that was split, and so is
/// the text itself.
pub proof fn lemma_split_gives_pieces(s: Seq<char>, a: char, b: char)
    ensures
        is_piece(s, s),
        is_piece(Seq::empty(), s),
        match split_first(s, a, b) {
            Some((head, tail)) => is_piece(head, s) && is_piece(tail, s) && tail.len() < s.len(),
            None => true,
        },
{
    lemma_first_of(s, a, b);
    assert(s =~= s.subrange(0, s.len() as int));
    assert(Seq::<char>::empty() =~= s.subrange(0, 0));
    match first_of(s, a, b) {
        Some(i) => {
            assert(s.subrange(0, i) == s.subrange(0, i));
            assert(s.subrange(i + 1, s.len() as int) == s.subrange(i + 1, s.len() as int));
        },
        None => {},
    }
}

/// Whether two texts hold the same characters.
pub fn same_text(x: &str, y: &str) -> (r: bool)
    ensures
        r == (x@ == y@),
{
    broadcast use group_string_axioms;

    let mut p = x.chars();
    let mut q = y.chars();
    let ghost mut n: int = 0;
    loop
        invariant
            0 <= n <= x@.len(),
            n <= y@.len(),
            p.remaining() == x@.subrange(n, x@.len() as int),
            q.remaining() == y@.subrange(n, y@.len() as int),
            x@.subrange(0, n) == y@.subrange(0, n),
        decreases x@.len() - n,
    {
        let c = p.next();
        let d = q.next();
        if c != d {
            proof {
                if n < x@.len() && n < y@.len() {
                    assert(x@[n] != y@[n]);
                } else {
                    assert(x@.len() != y@.len());
                }
            }
            return false;
        }
        if c.is_none() {
            assert(x@ =~= x@.subrange(0, n));
            assert(y@ =~= y@.subrange(0, n));
            return true;
        }
        proof {
            assert(x@.subrange(0, n + 1) =~= x@.subrange(0, n).push(x@[n]));
            assert(y@.subrange(0, n + 1) =~= y@.subrange(0, n).push(y@[n]));
            assert(p.remaining() =~= x@.subrange(n + 1, x@.len() as int));
            assert(q.remaining() =~= y@.subrange(n + 1, y@.len() as int));
            n = n + 1;
        }
    }
}

/// Splits `s` at the first occurrence of `a` or `b`.
pub fn split_at_first<'a>(s: &'a str, a: char, b: char) -> (r: Option<(&'a str, &'a str)>)
    ensures
        match r {
            Some((head, tail)) => split_first(s@, a, b) == Some((head@, tail@)),
            None => split_first(s@, a, b) is None,
        },
{
    broadcast use group_string_axioms;

    let len = s.unicode_len();
    let mut it = s.chars();
    let mut i: usize = 0;
    while i < len
        invariant
            i <= len == s@.len(),
            it.remaining() == s@.subrange(i as int, len as int),
            scan(s@, a, b, 0) == scan(s@, a, b, i as int),
        decreases len - i,
    {
        match it.next() {
            Some(c) => {
                if c == a || c == b {
                    return Some((s.substring_char(0, i), s.substring_char(i + 1, len)));
                }
            },
            None => {},
        }
        i = i + 1;
    }
    None
}

} // verus!
