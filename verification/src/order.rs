use vstd::prelude::*;
use vstd::relations::{sorted_by, total_ordering};
use crate::text::{lemma_seq_lt_irreflexive, lemma_seq_lt_total, lemma_seq_lt_transitive, seq_lt};

verus! {

/// Strict order on strings given by a three-part rank, compared part by
/// part, with the string itself deciding between equal ranks.
pub open spec fn ranked_lt(
    rank: spec_fn(Seq<char>) -> (int, int, int),
    a: Seq<char>,
    b: Seq<char>,
) -> bool {
    let (x1, x2, x3) = rank(a);
    let (y1, y2, y3) = rank(b);
    ||| x1 < y1
    ||| x1 == y1 && x2 < y2
    ||| x1 == y1 && x2 == y2 && x3 < y3
    ||| x1 == y1 && x2 == y2 && x3 == y3 && seq_lt(a, b)
}

/// The reflexive closure of `ranked_lt`.
pub open spec fn ranked_leq(rank: spec_fn(Seq<char>) -> (int, int, int)) -> spec_fn(
    Seq<char>,
    Seq<char>,
) -> bool {
    |a: Seq<char>, b: Seq<char>| a == b || ranked_lt(rank, a, b)
}

pub proof fn lemma_ranked_lt_irreflexive(rank: spec_fn(Seq<char>) -> (int, int, int), a: Seq<char>)
    ensures
        !ranked_lt(rank, a, a),
{
    lemma_seq_lt_irreflexive(a);
}

pub proof fn lemma_ranked_lt_transitive(
    rank: spec_fn(Seq<char>) -> (int, int, int),
    a: Seq<char>,
    b: Seq<char>,
    c: Seq<char>,
)
    requires
        ranked_lt(rank, a, b),
        ranked_lt(rank, b, c),
    ensures
        ranked_lt(rank, a, c),
{
    if rank(a) == rank(b) && rank(b) == rank(c) {
        lemma_seq_lt_transitive(a, b, c);
    }
}

pub proof fn lemma_ranked_lt_total(
    rank: spec_fn(Seq<char>) -> (int, int, int),
    a: Seq<char>,
    b: Seq<char>,
)
    requires
        a != b,
    ensures
        ranked_lt(rank, a, b) || ranked_lt(rank, b, a),
{
    lemma_seq_lt_total(a, b);
}

pub proof fn lemma_ranked_lt_asymmetric(
    rank: spec_fn(Seq<char>) -> (int, int, int),
    a: Seq<char>,
    b: Seq<char>,
)
    requires
        ranked_lt(rank, a, b),
    ensures
        !ranked_lt(rank, b, a),
{
    if ranked_lt(rank, b, a) {
        lemma_ranked_lt_transitive(rank, a, b, a);
        lemma_ranked_lt_irreflexive(rank, a);
    }
}

/// `ranked_leq` is a total order, for every rank.
pub proof fn lemma_ranked_total_ordering(rank: spec_fn(Seq<char>) -> (int, int, int))
    ensures
        total_ordering(ranked_leq(rank)),
{
    let leq = ranked_leq(rank);
    assert forall|x: Seq<char>, y: Seq<char>| #[trigger] leq(x, y) && #[trigger] leq(y, x) implies x
        == y by {
        if x != y {
            lemma_ranked_lt_asymmetric(rank, x, y);
        }
    }
    assert forall|x: Seq<char>, y: Seq<char>, z: Seq<char>| #[trigger] leq(x, y) && #[trigger] leq(
        y,
        z,
    ) implies leq(x, z) by {
        if x != y && y != z {
            lemma_ranked_lt_transitive(rank, x, y, z);
        }
    }
    assert forall|x: Seq<char>, y: Seq<char>| #[trigger] leq(x, y) || #[trigger] leq(y, x) by {
        if x != y {
            lemma_ranked_lt_total(rank, x, y);
        }
    }
}

/// An element that is `leq` every element of `s` and belongs to `s`.
pub open spec fn is_least_of(leq: spec_fn(Seq<char>, Seq<char>) -> bool, m: Seq<char>, s: Seq<Seq<char>>) -> bool {
    &&& s.contains(m)
    &&& forall|i: int| 0 <= i < s.len() ==> #[trigger] leq(m, s[i])
}

/// The least element of a sequence is unique.
pub proof fn lemma_least_unique(
    rank: spec_fn(Seq<char>) -> (int, int, int),
    m1: Seq<char>,
    m2: Seq<char>,
    s: Seq<Seq<char>>,
)
    requires
        is_least_of(ranked_leq(rank), m1, s),
        is_least_of(ranked_leq(rank), m2, s),
    ensures
        m1 == m2,
{
    let i1 = choose|i: int| 0 <= i < s.len() && s[i] == m1;
    let i2 = choose|i: int| 0 <= i < s.len() && s[i] == m2;
    assert(ranked_leq(rank)(m1, s[i2]));
    assert(ranked_leq(rank)(m2, s[i1]));
    if m1 != m2 {
        lemma_ranked_lt_asymmetric(rank, m1, m2);
    }
}


/// Inserting `x` after every element it does not precede, and before the
/// first one it precedes, keeps a sorted sequence sorted.
pub proof fn lemma_insert_sorted(
    rank: spec_fn(Seq<char>) -> (int, int, int),
    s: Seq<Seq<char>>,
    p: int,
    x: Seq<char>,
)
    requires
        sorted_by(s, ranked_leq(rank)),
        0 <= p <= s.len(),
        forall|k: int| 0 <= k < p ==> !ranked_lt(rank, x, #[trigger] s[k]),
        p < s.len() ==> ranked_lt(rank, x, s[p]),
    ensures
        sorted_by(s.insert(p, x), ranked_leq(rank)),
{
    let leq = ranked_leq(rank);
    let t = s.insert(p, x);
    assert forall|a: int, b: int| 0 <= a < b < t.len() implies #[trigger] leq(t[a], t[b]) by {
        if b < p {
            assert(leq(s[a], s[b]));
        } else if b == p {
            assert(!ranked_lt(rank, x, s[a]));
            if s[a] != x {
                lemma_ranked_lt_total(rank, s[a], x);
            }
        } else if a < p {
            assert(leq(s[a], s[b - 1]));
        } else if a == p {
            assert(ranked_lt(rank, x, s[p]));
            if p < b - 1 {
                assert(leq(s[p], s[b - 1]));
                if s[p] != s[b - 1] {
                    lemma_ranked_lt_transitive(rank, x, s[p], s[b - 1]);
                }
            }
        } else {
            assert(leq(s[a - 1], s[b - 1]));
        }
    }
}

} // verus!
