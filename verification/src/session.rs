//! An interactive solving session: a dictionary, the candidate set still
//! consistent with every observation applied so far, and a reset back to the
//! full dictionary.

use vstd::prelude::*;
use crate::filter::all_obs_pred;
use crate::filter::apply;
use crate::filter::consistent_with_all;
use crate::filter::lemma_all_obs_pred_push;
use crate::filter::lemma_filter_all_hold;
use crate::filter::lemma_filter_compose;
use crate::filter::lemma_filter_membership;
use crate::filter::match_pred;

verus! {

/// Copies a list of words, element by element.
#[verifier::loop_isolation(false)]
fn clone_words(words: &Vec<String>) -> (r: Vec<String>)
    ensures
        r@ == words@,
{
    let mut r: Vec<String> = Vec::new();
    let mut i: usize = 0;
    while i < words.len()
        invariant
            i <= words@.len(),
            r@ == words@.take(i as int),
        decreases words@.len() - i,
    {
        r.push(words[i].clone());
        proof {
            assert(r@ =~= words@.take(i + 1));
        }
        i = i + 1;
    }
    proof {
        assert(words@.take(words@.len() as int) =~= words@);
    }
    r
}

/// One solving session. The dictionary never changes; the candidate set
/// shrinks with each observation and returns to the full dictionary on
/// reset.
pub struct Session {
    dictionary: Vec<String>,
    current: Vec<String>,
    observations: Ghost<Seq<(Seq<char>, Seq<char>)>>,
}

impl Session {
    /// The dictionary this session started from.
    pub closed spec fn dict(self) -> Seq<String> {
        self.dictionary@
    }

    /// The observations applied since the start or the last reset, in order.
    pub closed spec fn observations(self) -> Seq<(Seq<char>, Seq<char>)> {
        self.observations@
    }

    /// The current candidate set.
    pub closed spec fn candidates(self) -> Seq<String> {
        self.current@
    }

    /// Session invariant: the candidate set holds exactly the dictionary
    /// words consistent with every observation so far, in dictionary order.
    pub closed spec fn wf(self) -> bool {
        self.current@ == self.dictionary@.filter(all_obs_pred(self.observations@))
    }

    /// Opens a session on a dictionary; no observation is applied yet.
    pub fn new(dictionary: Vec<String>) -> (s: Session)
        ensures
            s.wf(),
            s.dict() == dictionary@,
            s.observations() == Seq::<(Seq<char>, Seq<char>)>::empty(),
            s.candidates() == dictionary@,
    {
        let current = clone_words(&dictionary);
        let s = Session { dictionary, current, observations: Ghost(Seq::empty()) };
        proof {
            lemma_filter_all_hold(s.dictionary@, all_obs_pred(s.observations@));
        }
        s
    }

    /// Applies one observation: the candidate set keeps exactly its words
    /// consistent with the guess and pattern, in their order, and the
    /// observation is recorded.
    pub fn apply_observation(&mut self, guess: &str, pattern: &str)
        requires
            old(self).wf(),
        ensures
            final(self).wf(),
            final(self).dict() == old(self).dict(),
            final(self).observations() == old(self).observations().push((guess@, pattern@)),
            final(self).candidates() == old(self).candidates().filter(
                match_pred(guess@, pattern@),
            ),
    {
        let ghost obs0 = self.observations@;
        let filtered = apply(&self.current, guess, pattern);
        self.current = filtered;
        self.observations = Ghost(obs0.push((guess@, pattern@)));
        proof {
            lemma_all_obs_pred_push(obs0, guess@, pattern@);
            lemma_filter_compose(
                self.dictionary@,
                all_obs_pred(obs0),
                match_pred(guess@, pattern@),
                all_obs_pred(obs0.push((guess@, pattern@))),
            );
        }
    }

    /// Forgets all observations: the candidate set is the full dictionary
    /// again.
    pub fn reset(&mut self)
        ensures
            final(self).wf(),
            final(self).dict() == old(self).dict(),
            final(self).observations() == Seq::<(Seq<char>, Seq<char>)>::empty(),
            final(self).candidates() == old(self).dict(),
    {
        self.current = clone_words(&self.dictionary);
        self.observations = Ghost(Seq::empty());
        proof {
            lemma_filter_all_hold(self.dictionary@, all_obs_pred(self.observations@));
        }
    }

    /// The current candidates, for display, in dictionary order.
    pub fn list(&self) -> (r: &Vec<String>)
        ensures
            r@ == self.candidates(),
    {
        &self.current
    }

    /// How many candidates remain.
    pub fn count(&self) -> (n: usize)
        ensures
            n == self.candidates().len(),
    {
        self.current.len()
    }
}

/// Law: a word is a member of the candidate set exactly when it is a member
/// of the dictionary and consistent with every observation applied so far.
pub proof fn lemma_candidate_set_invariant(s: Session, w: String)
    requires
        s.wf(),
    ensures
        s.candidates().contains(w) == (s.dict().contains(w) && consistent_with_all(
            w@,
            s.observations(),
        )),
{
    lemma_filter_membership(s.dict(), all_obs_pred(s.observations()), w);
}

} // verus!
