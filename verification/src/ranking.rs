//! Ordering by descending score, keeping ties in the order in which they
//! came.

use vstd::prelude::*;
use vstd::seq_lib::*;

verus! {

/// A value that carries a relevance score.
pub trait Scored {
    /// The score of the value.
    spec fn score_of(&self) -> u32;

    /// The score of the value.
    fn score(&self) -> (s: u32)
        ensures
            s == self.score_of(),
    ;
}

/// The first position at or after `from` whose score is not above `score`,
/// or the length of `s` where every score is above it.
pub open spec fn first_not_above<T: Scored>(s: Seq<T>, score: u32, from: int) -> int
    decreases s.len() - from,
{
    if from < 0 || from >= s.len() {
        s.len() as int
    } else if s[from].score_of() <= score {
        from
    } else {
        first_not_above(s, score, from + 1)
    }
}

/// `s` in order of descending score, values of equal score in the order in
/// which `s` has them: each value stands before the first later one whose
/// score is not above its own.
pub open spec fn ranked<T: Scored>(s: Seq<T>) -> Seq<T>
    decreases s.len(),
{
    if s.len() == 0 {
        Seq::empty()
    } else {
        let rest = ranked(s.drop_first());
        rest.insert(first_not_above(rest, s[0].score_of(), 0), s[0])
    }
}

/// No value of `s` has a greater score than one before it.
pub open spec fn descending<T: Scored>(s: Seq<T>) -> bool {
    forall|i: int, j: int| 0 <= i < j < s.len() ==> s[i].score_of() >= s[j].score_of()
}

/// The position that `first_not_above` finds: every score before it, from
/// `from` on, is above `score`; the score at it, if there is one, is not.
pub proof fn lemma_first_not_above<T: Scored>(s: Seq<T>, score: u32, from: int)
    requires
        0 <= from <= s.len(),
    ensures
        from <= first_not_above(s, score, from) <= s.len(),
        forall|i: int| from <= i < first_not_above(s, score, from) ==> s[i].score_of() > score,
        first_not_above(s, score, from) < s.len() ==> s[first_not_above(
            s,
            score,
            from,
        )].score_of() <= score,
    decreases s.len() - from,
{
    if from < s.len() && s[from].score_of() > score {
        lemma_first_not_above(s, score, from + 1);
    }
}

/// Ranking keeps the number of values.
pub proof fn lemma_ranked_len<T: Scored>(s: Seq<T>)
    ensures
        ranked(s).len() == s.len(),
    decreases s.len(),
{
    if s.len() > 0 {
        lemma_ranked_len(s.drop_first());
        lemma_first_not_above(ranked(s.drop_first()), s[0].score_of(), 0);
    }
}

/// A ranked sequence is in order of descending score.
pub proof fn lemma_ranked_descending<T: Scored>(s: Seq<T>)
    ensures
        descending(ranked(s)),
    decreases s.len(),
{
    if s.len() > 0 {
        let rest = ranked(s.drop_first());
        lemma_ranked_descending(s.drop_first());
        let at = first_not_above(rest, s[0].score_of(), 0);
        lemma_first_not_above(rest, s[0].score_of(), 0);
        let out = rest.insert(at, s[0]);
        assert forall|i: int, j: int| 0 <= i < j < out.len() implies out[i].score_of()
            >= out[j].score_of() by {
            if j < at {
                assert(out[i] == rest[i] && out[j] == rest[j]);
            } else if j == at {
                assert(out[i] == rest[i]);
            } else if i < at {
                assert(out[i] == rest[i] && out[j] == rest[j - 1]);
            } else if i == at {
                assert(out[j] == rest[j - 1]);
                assert(rest[at].score_of() >= rest[j - 1].score_of() || at == j - 1);
            } else {
                assert(out[i] == rest[i - 1] && out[j] == rest[j - 1]);
            }
        }
    }
}

/// Putting a value into a sequence adds it to what the sequence holds.
pub proof fn lemma_insert_to_multiset<T>(s: Seq<T>, at: int, x: T)
    requires
        0 <= at <= s.len(),
    ensures
        s.insert(at, x).to_multiset() == s.to_multiset().insert(x),
{
    let out = s.insert(at, x);
    assert(out.remove(at) =~= s);
    assert(out[at] == x);
    to_multiset_remove(out, at);
    out.to_multiset_ensures();
    assert(out.contains(x));
    assert(out.to_multiset() =~= s.to_multiset().insert(x));
}

/// A ranked sequence holds the values of the sequence it was made from,
/// each as often.
pub proof fn lemma_ranked_permutes<T: Scored>(s: Seq<T>)
    ensures
        ranked(s).to_multiset() == s.to_multiset(),
    decreases s.len(),
{
    if s.len() == 0 {
        assert(ranked(s) =~= s);
    } else {
        let rest = ranked(s.drop_first());
        lemma_ranked_permutes(s.drop_first());
        lemma_first_not_above(rest, s[0].score_of(), 0);
        lemma_insert_to_multiset(rest, first_not_above(rest, s[0].score_of(), 0), s[0]);
        lemma_insert_to_multiset(s.drop_first(), 0, s[0]);
        assert(s.drop_first().insert(0, s[0]) =~= s);
    }
}

/// Whatever the order in which the same values arrive, ranking gives a
/// sequence in descending order that holds exactly those values.
pub proof fn lemma_ranking_ignores_arrival_order<T: Scored>(a: Seq<T>, b: Seq<T>)
    requires
        a.to_multiset() == b.to_multiset(),
    ensures
        ranked(a).to_multiset() == ranked(b).to_multiset(),
        descending(ranked(a)),
        descending(ranked(b)),
{
    lemma_ranked_permutes(a);
    lemma_ranked_permutes(b);
    lemma_ranked_descending(a);
    lemma_ranked_descending(b);
}

/// Orders `list` by descending score. Values of equal score keep the order
/// in which `list` has them.
pub fn rank<T: Scored>(list: Vec<T>) -> (out: Vec<T>)
    ensures
        out@ == ranked(list@),
        out@.len() == list@.len(),
        descending(out@),
        out@.to_multiset() == list@.to_multiset(),
{
    let ghost all = list@;
    let mut list = list;
    let mut out: Vec<T> = Vec::new();
    assert(all.skip(all.len() as int) =~= Seq::<T>::empty());
    while list.len() > 0
        invariant
            list@ == all.take(list@.len() as int),
            list@.len() <= all.len(),
            out@ == ranked(all.skip(list@.len() as int)),
        decreases list.len(),
    {
        let ghost n = list@.len() as int;
        let x = list.pop().unwrap();
        let score = x.score();
        let ghost rest = out@;
        proof {
            lemma_first_not_above(rest, score, 0);
        }
        let mut at: usize = 0;
        while at < out.len() && out[at].score() > score
            invariant
                at <= out.len(),
                out@ == rest,
                first_not_above(rest, score, 0) == first_not_above(rest, score, at as int),
            decreases out.len() - at,
        {
            at += 1;
        }
        out.insert(at, x);
        proof {
            assert(x == all[n - 1]);
            assert(all.skip(n - 1).drop_first() =~= all.skip(n));
            assert(all.skip(n - 1)[0] == x);
            assert(list@ =~= all.take(n - 1));
        }
    }
    proof {
        assert(all.skip(0) =~= all);
        lemma_ranked_len(all);
        lemma_ranked_descending(all);
        lemma_ranked_permutes(all);
    }
    out
}

} // verus!
