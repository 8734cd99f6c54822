//! Stable ranking of scored entries by descending score.
use vstd::prelude::*;

verus! {

/// The first position at or after `i` whose score is below `v`.
pub open spec fn first_below(s: Seq<(Seq<char>, int)>, v: int, i: int) -> int
    decreases s.len() - i,
{
    if 0 <= i < s.len() && s[i].1 >= v {
        first_below(s, v, i + 1)
    } else {
        i
    }
}

/// Inserts `x` after every entry whose score is at least its own.
pub open spec fn insert_ranked(s: Seq<(Seq<char>, int)>, x: (Seq<char>, int)) -> Seq<(Seq<char>, int)> {
    s.insert(first_below(s, x.1, 0), x)
}

/// The entries in descending order of score; entries of equal score keep
/// their order.
pub open spec fn rank(s: Seq<(Seq<char>, int)>) -> Seq<(Seq<char>, int)>
    decreases s.len(),
{
    if s.len() == 0 {
        s
    } else {
        insert_ranked(rank(s.drop_last()), s.last())
    }
}

/// The entries whose score is `v`, in order.
pub open spec fn with_score(s: Seq<(Seq<char>, int)>, v: int) -> Seq<(Seq<char>, int)>
    decreases s.len(),
{
    if s.len() == 0 {
        s
    } else if s.last().1 == v {
        with_score(s.drop_last(), v).push(s.last())
    } else {
        with_score(s.drop_last(), v)
    }
}

/// Scores never increase along the sequence.
pub open spec fn descending(s: Seq<(Seq<char>, int)>) -> bool {
    forall|i: int, j: int| 0 <= i < j < s.len() ==> s[i].1 >= s[j].1
}

proof fn lemma_first_below(s: Seq<(Seq<char>, int)>, v: int, i: int)
    requires
        0 <= i <= s.len(),
        forall|k: int| 0 <= k < i ==> s[k].1 >= v,
    ensures
        i <= first_below(s, v, i) <= s.len(),
        forall|k: int| 0 <= k < first_below(s, v, i) ==> s[k].1 >= v,
        first_below(s, v, i) < s.len() ==> s[first_below(s, v, i)].1 < v,
    decreases s.len() - i,
{
    if i < s.len() && s[i].1 >= v {
        lemma_first_below(s, v, i + 1);
    }
}

proof fn lemma_with_score_add(a: Seq<(Seq<char>, int)>, b: Seq<(Seq<char>, int)>, v: int)
    ensures
        with_score(a + b, v) == with_score(a, v) + with_score(b, v),
    decreases b.len(),
{
    if b.len() == 0 {
        assert(a + b =~= a);
        assert(with_score(a, v) + with_score(b, v) =~= with_score(a, v));
    } else {
        lemma_with_score_add(a, b.drop_last(), v);
        assert((a + b).drop_last() =~= a + b.drop_last());
        if b.last().1 == v {
            assert(with_score(a, v) + with_score(b, v) =~= (with_score(a, v) + with_score(
                b.drop_last(),
                v,
            )).push(b.last()));
        }
    }
}

proof fn lemma_with_score_none(s: Seq<(Seq<char>, int)>, v: int)
    requires
        forall|k: int| 0 <= k < s.len() ==> s[k].1 != v,
    ensures
        with_score(s, v) == Seq::<(Seq<char>, int)>::empty(),
    decreases s.len(),
{
    if s.len() > 0 {
        lemma_with_score_none(s.drop_last(), v);
    }
}

proof fn lemma_with_score_contains(s: Seq<(Seq<char>, int)>, x: (Seq<char>, int))
    ensures
        s.contains(x) <==> with_score(s, x.1).contains(x),
    decreases s.len(),
{
    if s.len() > 0 {
        lemma_with_score_contains(s.drop_last(), x);
        let w = with_score(s.drop_last(), x.1);
        if s.contains(x) && !s.drop_last().contains(x) {
            let k = choose|k: int| 0 <= k < s.len() && s[k] == x;
            if k < s.len() - 1 {
                assert(s.drop_last()[k] == x);
            }
            assert(with_score(s, x.1).last() == x);
        }
        if s.drop_last().contains(x) {
            let k = choose|k: int| 0 <= k < s.drop_last().len() && s.drop_last()[k] == x;
            assert(s[k] == x);
        }
        if w.contains(x) {
            let k = choose|k: int| 0 <= k < w.len() && w[k] == x;
            if s.last().1 == x.1 {
                assert(w.push(s.last())[k] == x);
            }
        }
        if with_score(s, x.1).contains(x) && !w.contains(x) {
            assert(s.last() == x);
            assert(s[s.len() - 1] == x);
        }
    }
}

proof fn lemma_insert_ranked(a: Seq<(Seq<char>, int)>, x: (Seq<char>, int), v: int)
    requires
        descending(a),
    ensures
        descending(insert_ranked(a, x)),
        with_score(insert_ranked(a, x), v) == if x.1 == v {
            with_score(a, v).push(x)
        } else {
            with_score(a, v)
        },
{
    lemma_first_below(a, x.1, 0);
    let p = first_below(a, x.1, 0);
    let r = insert_ranked(a, x);
    assert forall|k: int| p <= k < a.len() implies a[k].1 < x.1 by {
        if k > p {
            assert(a[p].1 >= a[k].1);
        }
    }
    assert forall|i: int, j: int| 0 <= i < j < r.len() implies r[i].1 >= r[j].1 by {
        if i < p && j < p {
            assert(r[i] == a[i] && r[j] == a[j]);
        } else if i > p && j > p {
            assert(r[i] == a[i - 1] && r[j] == a[j - 1]);
        } else if i < p {
            assert(r[i] == a[i]);
        } else {
            assert(r[j] == a[j - 1]);
        }
    }
    let lo = a.subrange(0, p);
    let hi = a.subrange(p, a.len() as int);
    assert(a =~= lo + hi);
    assert(r =~= lo + seq![x] + hi);
    lemma_with_score_add(lo, hi, v);
    lemma_with_score_add(lo + seq![x], hi, v);
    lemma_with_score_add(lo, seq![x], v);
    let e = Seq::<(Seq<char>, int)>::empty();
    assert(seq![x].drop_last() =~= e);
    assert(with_score(e, v) == e);
    assert(seq![x].last() == x);
    if x.1 == v {
        assert(with_score(seq![x], v) =~= seq![x]);
    } else {
        assert(with_score(seq![x], v) =~= e);
    }
    if x.1 == v {
        lemma_with_score_none(hi, v);
        assert(with_score(lo, v) + with_score(hi, v) =~= with_score(lo, v));
        assert(with_score(lo, v) + with_score(seq![x], v) + with_score(hi, v) =~= with_score(
            lo,
            v,
        ).push(x));
    } else {
        assert(with_score(lo, v) + with_score(seq![x], v) =~= with_score(lo, v));
    }
}

/// Ranking orders by descending score: an entry of higher score comes first.
/// Entries of equal score appear in the ranking in the same order as in the
/// input, and nothing is added or lost.
pub proof fn lemma_rank_ordered_and_stable(s: Seq<(Seq<char>, int)>)
    ensures
        descending(rank(s)),
        forall|v: int| #[trigger] with_score(rank(s), v) == with_score(s, v),
        forall|x: (Seq<char>, int)| #[trigger] rank(s).contains(x) <==> s.contains(x),
        rank(s).len() == s.len(),
    decreases s.len(),
{
    if s.len() > 0 {
        lemma_rank_ordered_and_stable(s.drop_last());
        let a = rank(s.drop_last());
        lemma_first_below(a, s.last().1, 0);
        assert forall|v: int| #[trigger] with_score(rank(s), v) == with_score(s, v) by {
            lemma_insert_ranked(a, s.last(), v);
        }
        lemma_insert_ranked(a, s.last(), 0);
        assert forall|x: (Seq<char>, int)| #[trigger] rank(s).contains(x) <==> s.contains(x) by {
            lemma_with_score_contains(rank(s), x);
            lemma_with_score_contains(s, x);
        }
    }
}

} // verus!
