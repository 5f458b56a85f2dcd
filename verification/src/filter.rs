//! The filter step: one pass of the match evaluator over a candidate list,
//! keeping exactly the consistent words in their original order.

use vstd::prelude::*;
use crate::matcher::matches_pattern;
use crate::matcher::spec_matches;

verus! {

/// The predicate that a single observation — a guess together with its
/// feedback pattern — imposes on a candidate word.
pub open spec fn match_pred(guess: Seq<char>, pattern: Seq<char>) -> spec_fn(String) -> bool {
    |w: String| spec_matches(w@, guess, pattern)
}

/// Extending a filtered prefix of `s` by its next element.
proof fn lemma_filter_take_step<A>(s: Seq<A>, pred: spec_fn(A) -> bool, i: int)
    requires
        0 <= i < s.len(),
    ensures
        s.take(i + 1).filter(pred) == (if pred(s[i]) {
            s.take(i).filter(pred).push(s[i])
        } else {
            s.take(i).filter(pred)
        }),
{
    reveal(Seq::filter);
    assert(s.take(i + 1).drop_last() =~= s.take(i));
}

/// One filter step: the words of `candidates` consistent with the
/// observation, in their original order.
#[verifier::loop_isolation(false)]
pub fn apply(candidates: &Vec<String>, guess: &str, pattern: &str) -> (r: Vec<String>)
    ensures
        r@ == candidates@.filter(match_pred(guess@, pattern@)),
{
    let ghost pred = match_pred(guess@, pattern@);
    let mut r: Vec<String> = Vec::new();
    let mut i: usize = 0;
    while i < candidates.len()
        invariant
            i <= candidates@.len(),
            r@ == candidates@.take(i as int).filter(pred),
        decreases candidates@.len() - i,
    {
        proof {
            lemma_filter_take_step(candidates@, pred, i as int);
        }
        let w = &candidates[i];
        if matches_pattern(w.as_str(), guess, pattern) {
            r.push(w.clone());
        }
        i = i + 1;
    }
    proof {
        assert(candidates@.take(candidates@.len() as int) =~= candidates@);
    }
    r
}

/// A sequence every element of which satisfies `pred` is unchanged by the
/// filter.
pub proof fn lemma_filter_all_hold<A>(s: Seq<A>, pred: spec_fn(A) -> bool)
    requires
        forall|i: int| 0 <= i < s.len() ==> pred(#[trigger] s[i]),
    ensures
        s.filter(pred) == s,
    decreases s.len(),
{
    reveal(Seq::filter);
    if s.len() > 0 {
        lemma_filter_all_hold(s.drop_last(), pred);
        assert(s.drop_last().push(s.last()) =~= s);
    }
}

/// Filtering twice with one predicate is filtering once, for any predicate.
proof fn lemma_filter_idempotent<A>(s: Seq<A>, pred: spec_fn(A) -> bool)
    ensures
        s.filter(pred).filter(pred) == s.filter(pred),
{
    assert forall|i: int| 0 <= i < s.filter(pred).len() implies pred(#[trigger] s.filter(pred)[i]) by {
        s.lemma_filter_pred(pred, i);
    }
    lemma_filter_all_hold(s.filter(pred), pred);
}

/// Law: applying the same observation's filter twice to a candidate list
/// yields the same result as applying it once.
pub proof fn lemma_apply_idempotent(candidates: Seq<String>, guess: Seq<char>, pattern: Seq<char>)
    ensures
        candidates.filter(match_pred(guess, pattern)).filter(match_pred(guess, pattern))
            == candidates.filter(match_pred(guess, pattern)),
{
    lemma_filter_idempotent(candidates, match_pred(guess, pattern));
}

/// `a` can be had from `b` by deleting elements, keeping the remaining
/// elements in their order.
pub open spec fn subsequence_of<A>(a: Seq<A>, b: Seq<A>) -> bool
    decreases a.len() + b.len(),
{
    if a.len() == 0 {
        true
    } else if b.len() == 0 {
        false
    } else if a.last() == b.last() {
        subsequence_of(a.drop_last(), b.drop_last())
    } else {
        subsequence_of(a, b.drop_last())
    }
}

/// A subsequence stays one when its own last element is dropped.
proof fn lemma_subsequence_shrink<A>(a: Seq<A>, b: Seq<A>)
    requires
        subsequence_of(a, b),
        a.len() > 0,
    ensures
        subsequence_of(a.drop_last(), b),
    decreases a.len() + b.len(),
{
    if a.last() == b.last() {
        if a.drop_last().len() > 0 && a.drop_last().last() == b.last() {
            lemma_subsequence_shrink(a.drop_last(), b.drop_last());
        }
    } else {
        lemma_subsequence_shrink(a, b.drop_last());
        if a.drop_last().len() > 0 && a.drop_last().last() == b.last() {
            lemma_subsequence_shrink(a.drop_last(), b.drop_last());
        }
    }
}

/// A subsequence stays one when the larger sequence grows at the end.
proof fn lemma_subsequence_extend<A>(a: Seq<A>, b: Seq<A>, x: A)
    requires
        subsequence_of(a, b),
    ensures
        subsequence_of(a, b.push(x)),
{
    if a.len() > 0 {
        assert(b.push(x).drop_last() =~= b);
        if a.last() == x {
            lemma_subsequence_shrink(a, b);
        }
    }
}

/// What a filter keeps is a subsequence of what it was given.
proof fn lemma_filter_subsequence<A>(s: Seq<A>, pred: spec_fn(A) -> bool)
    ensures
        subsequence_of(s.filter(pred), s),
    decreases s.len(),
{
    reveal(Seq::filter);
    if s.len() > 0 {
        let sub = s.drop_last().filter(pred);
        lemma_filter_subsequence(s.drop_last(), pred);
        if pred(s.last()) {
            assert(sub.push(s.last()).drop_last() =~= sub);
        } else {
            lemma_subsequence_extend(sub, s.drop_last(), s.last());
            assert(s.drop_last().push(s.last()) =~= s);
        }
    }
}

/// A word is consistent with a whole run of observations when it matches
/// every one of them, each evaluated independently.
pub open spec fn consistent_with_all(w: Seq<char>, obs: Seq<(Seq<char>, Seq<char>)>) -> bool {
    forall|k: int| 0 <= k < obs.len() ==> spec_matches(w, (#[trigger] obs[k]).0, obs[k].1)
}

/// The predicate that a whole run of observations imposes on a candidate.
pub open spec fn all_obs_pred(obs: Seq<(Seq<char>, Seq<char>)>) -> spec_fn(String) -> bool {
    |w: String| consistent_with_all(w@, obs)
}

/// Consistency with a run of observations extended by one more is
/// consistency with the run and with the new observation.
pub proof fn lemma_all_obs_pred_push(
    obs: Seq<(Seq<char>, Seq<char>)>,
    guess: Seq<char>,
    pattern: Seq<char>,
)
    ensures
        forall|w: String| #[trigger]
            all_obs_pred(obs.push((guess, pattern)))(w) == (all_obs_pred(obs)(w) && match_pred(
                guess,
                pattern,
            )(w)),
{
    let obs2 = obs.push((guess, pattern));
    assert forall|w: String| #[trigger]
        all_obs_pred(obs2)(w) == (all_obs_pred(obs)(w) && match_pred(guess, pattern)(w)) by {
        if consistent_with_all(w@, obs2) {
            assert forall|k: int| 0 <= k < obs.len() implies spec_matches(
                w@,
                (#[trigger] obs[k]).0,
                obs[k].1,
            ) by {
                assert(obs2[k] == obs[k]);
                assert(spec_matches(w@, obs2[k].0, obs2[k].1));
            }
            assert(obs2[obs.len() as int] == (guess, pattern));
            assert(spec_matches(w@, guess, pattern));
        }
        if consistent_with_all(w@, obs) && spec_matches(w@, guess, pattern) {
            assert forall|k: int| 0 <= k < obs2.len() implies spec_matches(
                w@,
                (#[trigger] obs2[k]).0,
                obs2[k].1,
            ) by {
                if k < obs.len() {
                    assert(obs2[k] == obs[k]);
                } else {
                    assert(obs2[k] == (guess, pattern));
                }
            }
        }
    }
}

/// Filtering a sequence extended at the end.
proof fn lemma_filter_push<A>(s: Seq<A>, pred: spec_fn(A) -> bool, x: A)
    ensures
        s.push(x).filter(pred) == (if pred(x) {
            s.filter(pred).push(x)
        } else {
            s.filter(pred)
        }),
{
    reveal(Seq::filter);
    assert(s.push(x).drop_last() =~= s);
}

/// Two filters in a row are one filter by the conjoined predicate.
pub proof fn lemma_filter_compose<A>(
    s: Seq<A>,
    p: spec_fn(A) -> bool,
    q: spec_fn(A) -> bool,
    r: spec_fn(A) -> bool,
)
    requires
        forall|x: A| #[trigger] r(x) == (p(x) && q(x)),
    ensures
        s.filter(p).filter(q) == s.filter(r),
    decreases s.len(),
{
    reveal(Seq::filter);
    if s.len() > 0 {
        lemma_filter_compose(s.drop_last(), p, q, r);
        if p(s.last()) {
            lemma_filter_push(s.drop_last().filter(p), q, s.last());
        }
    }
}

/// A filter keeps exactly the members that satisfy the predicate.
pub proof fn lemma_filter_membership<A>(s: Seq<A>, pred: spec_fn(A) -> bool, x: A)
    ensures
        s.filter(pred).contains(x) == (s.contains(x) && pred(x)),
    decreases s.len(),
{
    reveal(Seq::filter);
    if s.len() > 0 {
        let s1 = s.drop_last();
        lemma_filter_membership(s1, pred, x);
        assert(s.contains(x) == (s1.contains(x) || s.last() == x)) by {
            if s.contains(x) {
                let i = choose|i: int| 0 <= i < s.len() && s[i] == x;
                if i < s.len() - 1 {
                    assert(s1[i] == x);
                    assert(s1.contains(x));
                }
            }
            if s1.contains(x) {
                let i = choose|i: int| 0 <= i < s1.len() && s1[i] == x;
                assert(s[i] == x);
            }
            if s.last() == x {
                assert(s[s.len() - 1] == x);
            }
        }
        if pred(s.last()) {
            let f1 = s1.filter(pred);
            assert(f1.push(s.last()).contains(x) == (f1.contains(x) || s.last() == x)) by {
                let f2 = f1.push(s.last());
                if f2.contains(x) {
                    let i = choose|i: int| 0 <= i < f2.len() && f2[i] == x;
                    if i < f2.len() - 1 {
                        assert(f1[i] == x);
                        assert(f1.contains(x));
                    }
                }
                if f1.contains(x) {
                    let i = choose|i: int| 0 <= i < f1.len() && f1[i] == x;
                    assert(f2[i] == x);
                }
                if s.last() == x {
                    assert(f2[f2.len() - 1] == x);
                }
            }
        }
    }
}

/// Law: filtering never reorders the surviving candidates — the result is a
/// subsequence of the input list.
pub proof fn lemma_apply_preserves_order(
    candidates: Seq<String>,
    guess: Seq<char>,
    pattern: Seq<char>,
)
    ensures
        subsequence_of(candidates.filter(match_pred(guess, pattern)), candidates),
{
    lemma_filter_subsequence(candidates, match_pred(guess, pattern));
}

} // verus!
