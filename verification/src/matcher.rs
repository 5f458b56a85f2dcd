//! The match evaluator: is one candidate word consistent with one
//! guess/feedback-pattern pair under Wordle's rules?
//!
//! Feedback is evaluated in three passes over the positions, sharing one
//! array of usage marks on the candidate word: Green positions claim their
//! own position, Yellow positions claim the leftmost unused occurrence of
//! the guessed letter elsewhere, and Black positions demand that no unused
//! occurrence of the guessed letter remains. Pattern symbols are compared
//! case-insensitively; a symbol outside {g, y, b} constrains nothing.

use vstd::prelude::*;

verus! {

/// The pattern symbol marking a position Green (letter correct and in place).
pub open spec fn is_green(c: char) -> bool {
    c == 'g' || c == 'G'
}

/// The pattern symbol marking a position Yellow (letter elsewhere in the word).
pub open spec fn is_yellow(c: char) -> bool {
    c == 'y' || c == 'Y'
}

/// The pattern symbol marking a position Black (no unclaimed occurrence left).
pub open spec fn is_black(c: char) -> bool {
    c == 'b' || c == 'B'
}

/// The green pass succeeds exactly when every Green position of the pattern
/// has the guessed letter standing at that same position of the word.
pub open spec fn greens_ok(word: Seq<char>, guess: Seq<char>, pattern: Seq<char>) -> bool {
    forall|i: int| 0 <= i < pattern.len() && is_green(pattern[i]) ==> word[i] == guess[i]
}

/// Usage marks left by a successful green pass: exactly the Green positions.
pub open spec fn green_marks(pattern: Seq<char>) -> Seq<bool> {
    Seq::new(pattern.len(), |i: int| is_green(pattern[i]))
}

/// The leftmost position of `word` at or after `from` that holds letter `c`,
/// is not marked used, and is not the excluded position `skip`.
pub open spec fn first_unused_match(
    word: Seq<char>,
    used: Seq<bool>,
    c: char,
    skip: int,
    from: int,
) -> Option<int>
    decreases word.len() - from,
{
    if !(0 <= from < word.len()) {
        None
    } else if !used[from] && word[from] == c && from != skip {
        Some(from)
    } else {
        first_unused_match(word, used, c, skip, from + 1)
    }
}

/// The yellow pass from position `i` on. Each Yellow position must hold a
/// letter different from the guess there (else it would have been Green) and
/// claims the leftmost unused occurrence of the guessed letter elsewhere in
/// the word. The result is the final usage marks, or `None` when some Yellow
/// position cannot be satisfied.
pub open spec fn yellow_pass(
    word: Seq<char>,
    guess: Seq<char>,
    pattern: Seq<char>,
    used: Seq<bool>,
    i: int,
) -> Option<Seq<bool>>
    decreases pattern.len() - i,
{
    if !(0 <= i < pattern.len()) {
        Some(used)
    } else if !is_yellow(pattern[i]) {
        yellow_pass(word, guess, pattern, used, i + 1)
    } else if word[i] == guess[i] {
        None
    } else {
        match first_unused_match(word, used, guess[i], i, 0) {
            Some(j) => yellow_pass(word, guess, pattern, used.update(j, true), i + 1),
            None => None,
        }
    }
}

/// Whether some position of `word` holds letter `c` and is not marked used.
pub open spec fn has_unused_occurrence(word: Seq<char>, used: Seq<bool>, c: char) -> bool {
    exists|j: int| 0 <= j < word.len() && !used[j] && word[j] == c
}

/// The black pass succeeds exactly when no Black position's guess letter
/// still has an unused occurrence anywhere in the word.
pub open spec fn blacks_ok(
    word: Seq<char>,
    guess: Seq<char>,
    pattern: Seq<char>,
    used: Seq<bool>,
) -> bool {
    forall|i: int|
        0 <= i < pattern.len() && is_black(pattern[i]) ==> !has_unused_occurrence(
            word,
            used,
            guess[i],
        )
}

/// Wordle consistency of `word` with the feedback `pattern` for `guess`:
/// the lengths agree and the three passes, run in order on usage marks that
/// start all clear, all succeed. Any length disagreement is a definite
/// non-match, never an error.
pub open spec fn spec_matches(word: Seq<char>, guess: Seq<char>, pattern: Seq<char>) -> bool {
    &&& word.len() == guess.len()
    &&& guess.len() == pattern.len()
    &&& greens_ok(word, guess, pattern)
    &&& match yellow_pass(word, guess, pattern, green_marks(pattern), 0) {
        Some(used) => blacks_ok(word, guess, pattern, used),
        None => false,
    }
}

/// Patterns whose symbols fall position by position into the same classes
/// (Green, Yellow, Black, or unconstrained) are interchangeable. In
/// particular an upper-case symbol falls into the same class as its
/// lower-case form, so `G`, `Y`, `B` behave exactly like `g`, `y`, `b`.
pub open spec fn same_pattern_symbols(p: Seq<char>, q: Seq<char>) -> bool {
    &&& p.len() == q.len()
    &&& forall|i: int|
        0 <= i < p.len() ==> is_green(p[i]) == is_green(q[i]) && is_yellow(p[i]) == is_yellow(
            q[i],
        ) && is_black(p[i]) == is_black(q[i])
}

/// Law: any disagreement among the three lengths is a definite non-match.
pub proof fn lemma_length_mismatch_no_match(word: Seq<char>, guess: Seq<char>, pattern: Seq<char>)
    requires
        word.len() != guess.len() || guess.len() != pattern.len(),
    ensures
        !spec_matches(word, guess, pattern),
{
}

/// The yellow pass changes nothing where no position from `i` on is Yellow.
proof fn lemma_yellow_pass_skips_non_yellows(
    word: Seq<char>,
    guess: Seq<char>,
    pattern: Seq<char>,
    used: Seq<bool>,
    i: int,
)
    requires
        forall|k: int| i <= k < pattern.len() ==> !is_yellow(pattern[k]),
    ensures
        yellow_pass(word, guess, pattern, used, i) == Some(used),
    decreases pattern.len() - i,
{
    if 0 <= i < pattern.len() {
        lemma_yellow_pass_skips_non_yellows(word, guess, pattern, used, i + 1);
    }
}

/// Law: a pattern that is Green at every position accepts the guess itself.
pub proof fn lemma_all_green_self_match(word: Seq<char>, pattern: Seq<char>)
    requires
        pattern.len() == word.len(),
        forall|i: int| 0 <= i < pattern.len() ==> is_green(pattern[i]),
    ensures
        spec_matches(word, word, pattern),
{
    lemma_yellow_pass_skips_non_yellows(word, word, pattern, green_marks(pattern), 0);
}

/// The yellow pass depends on the pattern only through its symbol classes.
proof fn lemma_yellow_pass_same_symbols(
    word: Seq<char>,
    guess: Seq<char>,
    p: Seq<char>,
    q: Seq<char>,
    used: Seq<bool>,
    i: int,
)
    requires
        same_pattern_symbols(p, q),
    ensures
        yellow_pass(word, guess, p, used, i) == yellow_pass(word, guess, q, used, i),
    decreases p.len() - i,
{
    if 0 <= i < p.len() {
        if !is_yellow(p[i]) {
            lemma_yellow_pass_same_symbols(word, guess, p, q, used, i + 1);
        } else if word[i] == guess[i] {
        } else {
            match first_unused_match(word, used, guess[i], i, 0) {
                Some(j) => {
                    lemma_yellow_pass_same_symbols(word, guess, p, q, used.update(j, true), i + 1);
                },
                None => {
                },
            }
        }
    }
}

/// Law: pattern symbols are case-insensitive. Two patterns whose symbols
/// agree class by class — as `GYB` does with `gyb` — accept exactly the same
/// word/guess pairs.
pub proof fn lemma_pattern_symbols_case_insensitive(
    word: Seq<char>,
    guess: Seq<char>,
    p: Seq<char>,
    q: Seq<char>,
)
    requires
        same_pattern_symbols(p, q),
    ensures
        spec_matches(word, guess, p) == spec_matches(word, guess, q),
{
    assert(green_marks(p) =~= green_marks(q));
    lemma_yellow_pass_same_symbols(word, guess, p, q, green_marks(p), 0);
    assert(greens_ok(word, guess, p) == greens_ok(word, guess, q));
    match yellow_pass(word, guess, p, green_marks(p), 0) {
        Some(used) => {
            assert(blacks_ok(word, guess, p, used) == blacks_ok(word, guess, q, used));
        },
        None => {
        },
    }
}

/// Where the green pass stops scanning, from position `i` on: the first
/// Green position at or after `i` whose word and guess letters disagree, or
/// the pattern's length when there is none.
pub open spec fn green_stop_from(
    word: Seq<char>,
    guess: Seq<char>,
    pattern: Seq<char>,
    i: int,
) -> int
    decreases pattern.len() - i,
{
    if !(0 <= i < pattern.len()) {
        pattern.len() as int
    } else if is_green(pattern[i]) && word[i] != guess[i] {
        i
    } else {
        green_stop_from(word, guess, pattern, i + 1)
    }
}

/// Where the green pass stops: the first Green position whose word and
/// guess letters disagree, or the pattern's length when the pass succeeds.
pub open spec fn green_stop(word: Seq<char>, guess: Seq<char>, pattern: Seq<char>) -> int {
    green_stop_from(word, guess, pattern, 0)
}

/// The usage marks the green pass leaves, whether it succeeds or fails:
/// exactly the Green positions strictly before where it stops.
pub open spec fn green_marks_upto(word: Seq<char>, guess: Seq<char>, pattern: Seq<char>) -> Seq<
    bool,
> {
    Seq::new(word.len(), |k: int| k < green_stop(word, guess, pattern) && is_green(pattern[k]))
}

/// Green pass over usage marks that start all clear: checks that every Green
/// position carries the guessed letter and marks those positions used. On
/// failure the marks are still pinned down: exactly the Green positions
/// strictly before the first mismatching Green position are marked.
#[verifier::loop_isolation(false)]
pub fn check_greens(
    word_chars: &Vec<char>,
    guess_chars: &Vec<char>,
    pattern_chars: &Vec<char>,
    used_in_word: &mut Vec<bool>,
) -> (ok: bool)
    requires
        word_chars@.len() == guess_chars@.len(),
        guess_chars@.len() == pattern_chars@.len(),
        old(used_in_word)@.len() == word_chars@.len(),
        forall|k: int| 0 <= k < old(used_in_word)@.len() ==> !old(used_in_word)@[k],
    ensures
        final(used_in_word)@.len() == word_chars@.len(),
        ok == greens_ok(word_chars@, guess_chars@, pattern_chars@),
        ok ==> final(used_in_word)@ == green_marks(pattern_chars@),
        final(used_in_word)@ == green_marks_upto(word_chars@, guess_chars@, pattern_chars@),
{
    let n: usize = word_chars.len();
    let mut i: usize = 0;
    while i < n
        invariant
            i <= n,
            used_in_word@.len() == n,
            forall|k: int|
                0 <= k < n ==> used_in_word@[k] == (k < i && is_green(pattern_chars@[k])),
            forall|k: int|
                0 <= k < i && is_green(pattern_chars@[k]) ==> word_chars@[k] == guess_chars@[k],
            green_stop_from(word_chars@, guess_chars@, pattern_chars@, 0) == green_stop_from(
                word_chars@,
                guess_chars@,
                pattern_chars@,
                i as int,
            ),
        decreases n - i,
    {
        let pc = pattern_chars[i];
        if pc == 'g' || pc == 'G' {
            if word_chars[i] != guess_chars[i] {
                proof {
                    assert(green_stop(word_chars@, guess_chars@, pattern_chars@) == i);
                    assert(used_in_word@ =~= green_marks_upto(
                        word_chars@,
                        guess_chars@,
                        pattern_chars@,
                    ));
                }
                return false;
            }
            used_in_word.set(i, true);
        }
        i = i + 1;
    }
    proof {
        assert(green_stop(word_chars@, guess_chars@, pattern_chars@) == n);
        assert(used_in_word@ =~= green_marks(pattern_chars@));
        assert(used_in_word@ =~= green_marks_upto(word_chars@, guess_chars@, pattern_chars@));
    }
    true
}

/// Scans for the leftmost unused occurrence of letter `c` in the word,
/// excluding position `skip`.
#[verifier::loop_isolation(false)]
fn find_unused(word_chars: &Vec<char>, used_in_word: &Vec<bool>, c: char, skip: usize) -> (r:
    Option<usize>)
    requires
        used_in_word@.len() == word_chars@.len(),
    ensures
        match r {
            Some(j) => j < word_chars@.len() && first_unused_match(
                word_chars@,
                used_in_word@,
                c,
                skip as int,
                0,
            ) == Some(j as int),
            None => first_unused_match(word_chars@, used_in_word@, c, skip as int, 0) is None,
        },
{
    let n: usize = word_chars.len();
    let mut j: usize = 0;
    while j < n
        invariant
            j <= n,
            first_unused_match(word_chars@, used_in_word@, c, skip as int, 0)
                == first_unused_match(word_chars@, used_in_word@, c, skip as int, j as int),
        decreases n - j,
    {
        if !used_in_word[j] && word_chars[j] == c && j != skip {
            return Some(j);
        }
        j = j + 1;
    }
    None
}

/// A found scan result really is an unused occurrence: where the scan
/// returns `Some(j)`, position `j` is in range, unmarked, holds the letter,
/// and is not the excluded position.
proof fn lemma_first_unused_match_found(
    word: Seq<char>,
    used: Seq<bool>,
    c: char,
    skip: int,
    from: int,
    j: int,
)
    requires
        first_unused_match(word, used, c, skip, from) == Some(j),
    ensures
        from <= j < word.len(),
        !used[j],
        word[j] == c,
        j != skip,
    decreases word.len() - from,
{
    if 0 <= from < word.len() {
        if !(!used[from] && word[from] == c && from != skip) {
            lemma_first_unused_match_found(word, used, c, skip, from + 1, j);
        }
    }
}

/// Yellow pass: each Yellow position must hold a letter that differs from
/// the guess there and claims the leftmost unused occurrence of the guessed
/// letter elsewhere in the word, marking it used. Succeed or fail, marks are
/// only ever set, never cleared, and only at positions some Yellow position
/// claims as an occurrence of its guess letter.
#[verifier::loop_isolation(false)]
pub fn check_yellows(
    word_chars: &Vec<char>,
    guess_chars: &Vec<char>,
    pattern_chars: &Vec<char>,
    used_in_word: &mut Vec<bool>,
) -> (ok: bool)
    requires
        word_chars@.len() == guess_chars@.len(),
        guess_chars@.len() == pattern_chars@.len(),
        old(used_in_word)@.len() == word_chars@.len(),
    ensures
        final(used_in_word)@.len() == word_chars@.len(),
        ok == (yellow_pass(word_chars@, guess_chars@, pattern_chars@, old(used_in_word)@, 0)
            is Some),
        ok ==> yellow_pass(word_chars@, guess_chars@, pattern_chars@, old(used_in_word)@, 0)
            == Some(final(used_in_word)@),
        forall|j: int|
            0 <= j < word_chars@.len() && old(used_in_word)@[j] ==> final(used_in_word)@[j],
        forall|j: int|
            0 <= j < word_chars@.len() && !old(used_in_word)@[j] && final(used_in_word)@[j]
                ==> exists|i2: int|
                0 <= i2 < pattern_chars@.len() && is_yellow(#[trigger] pattern_chars@[i2]) && i2
                    != j && word_chars@[j] == guess_chars@[i2],
{
    let n: usize = word_chars.len();
    let mut i: usize = 0;
    while i < n
        invariant
            i <= n,
            used_in_word@.len() == n,
            yellow_pass(word_chars@, guess_chars@, pattern_chars@, old(used_in_word)@, 0)
                == yellow_pass(word_chars@, guess_chars@, pattern_chars@, used_in_word@, i as int),
            forall|j: int| 0 <= j < n && old(used_in_word)@[j] ==> used_in_word@[j],
            forall|j: int|
                0 <= j < n && !old(used_in_word)@[j] && used_in_word@[j] ==> exists|i2: int|
                    0 <= i2 < pattern_chars@.len() && is_yellow(#[trigger] pattern_chars@[i2])
                        && i2 != j && word_chars@[j] == guess_chars@[i2],
        decreases n - i,
    {
        let pc = pattern_chars[i];
        if pc == 'y' || pc == 'Y' {
            if word_chars[i] == guess_chars[i] {
                return false;
            }
            let gc = guess_chars[i];
            match find_unused(word_chars, used_in_word, gc, i) {
                Some(j) => {
                    proof {
                        lemma_first_unused_match_found(
                            word_chars@,
                            used_in_word@,
                            gc,
                            i as int,
                            0,
                            j as int,
                        );
                    }
                    used_in_word.set(j, true);
                },
                None => {
                    return false;
                },
            }
        }
        i = i + 1;
    }
    true
}

/// Black pass: a Black position's guess letter may have no unused occurrence
/// left anywhere in the word. The usage marks are only read.
#[verifier::loop_isolation(false)]
pub fn check_blacks(
    word_chars: &Vec<char>,
    guess_chars: &Vec<char>,
    pattern_chars: &Vec<char>,
    used_in_word: &Vec<bool>,
) -> (ok: bool)
    requires
        word_chars@.len() == guess_chars@.len(),
        guess_chars@.len() == pattern_chars@.len(),
        used_in_word@.len() == word_chars@.len(),
    ensures
        ok == blacks_ok(word_chars@, guess_chars@, pattern_chars@, used_in_word@),
{
    let n: usize = word_chars.len();
    let mut i: usize = 0;
    while i < n
        invariant
            i <= n,
            forall|k: int|
                0 <= k < i && is_black(pattern_chars@[k]) ==> !has_unused_occurrence(
                    word_chars@,
                    used_in_word@,
                    guess_chars@[k],
                ),
        decreases n - i,
    {
        let pc = pattern_chars[i];
        if pc == 'b' || pc == 'B' {
            let gc = guess_chars[i];
            let mut j: usize = 0;
            while j < n
                invariant
                    j <= n,
                    forall|k: int| 0 <= k < j ==> used_in_word@[k] || word_chars@[k] != gc,
                decreases n - j,
            {
                if !used_in_word[j] && word_chars[j] == gc {
                    return false;
                }
                j = j + 1;
            }
            proof {
                assert(!has_unused_occurrence(word_chars@, used_in_word@, gc));
            }
        }
        i = i + 1;
    }
    true
}

/// Collects the characters of a string slice into a vector.
#[verifier::loop_isolation(false)]
fn chars_of(s: &str) -> (r: Vec<char>)
    ensures
        r@ == s@,
{
    let n: usize = s.unicode_len();
    let mut r: Vec<char> = Vec::new();
    let mut i: usize = 0;
    while i < n
        invariant
            i <= n,
            r@ == s@.take(i as int),
        decreases n - i,
    {
        let c = s.get_char(i);
        r.push(c);
        proof {
            assert(r@ =~= s@.take(i + 1));
        }
        i = i + 1;
    }
    proof {
        assert(s@.take(n as int) =~= s@);
    }
    r
}

/// Decides whether the candidate `word` is consistent with the feedback
/// `pattern` reported for `guess`. Lengths that disagree are a definite
/// non-match; no input is an error.
pub fn matches_pattern(word: &str, guess: &str, pattern: &str) -> (r: bool)
    ensures
        r == spec_matches(word@, guess@, pattern@),
{
    let word_chars = chars_of(word);
    let guess_chars = chars_of(guess);
    let pattern_chars = chars_of(pattern);

    if word_chars.len() != guess_chars.len() || guess_chars.len() != pattern_chars.len() {
        return false;
    }

    let mut used_in_word: Vec<bool> = Vec::new();
    while used_in_word.len() < word_chars.len()
        invariant
            used_in_word@.len() <= word_chars@.len(),
            forall|k: int| 0 <= k < used_in_word@.len() ==> !used_in_word@[k],
        decreases word_chars@.len() - used_in_word@.len(),
    {
        used_in_word.push(false);
    }

    if !check_greens(&word_chars, &guess_chars, &pattern_chars, &mut used_in_word) {
        return false;
    }
    if !check_yellows(&word_chars, &guess_chars, &pattern_chars, &mut used_in_word) {
        return false;
    }
    if !check_blacks(&word_chars, &guess_chars, &pattern_chars, &used_in_word) {
        return false;
    }

    true
}

} // verus!
