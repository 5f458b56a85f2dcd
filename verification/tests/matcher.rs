use wordle_solver::matcher::check_greens;
use wordle_solver::matcher::check_yellows;
use wordle_solver::matcher::matches_pattern;

#[test]
fn all_green_identical_words() {
    assert!(matches_pattern("abcde", "abcde", "ggggg"));
}

#[test]
fn all_green_rejects_any_difference() {
    assert!(!matches_pattern("abcde", "abcdx", "ggggg"));
    assert!(!matches_pattern("abcde", "xbcde", "ggggg"));
}

#[test]
fn length_mismatch_is_never_a_match() {
    assert!(!matches_pattern("abc", "abcd", "gggg"));
    assert!(!matches_pattern("abcd", "abc", "ggg"));
    assert!(!matches_pattern("abc", "abc", "gg"));
    assert!(!matches_pattern("", "a", "g"));
}

#[test]
fn empty_inputs_match() {
    assert!(matches_pattern("", "", ""));
}

// Hand-trace of ("abcde", "edcba", "bbgbb"): the green pass claims only
// position 2 ('c'). The black pass then asks, for guess letter 'e' at
// position 0, that no unused position of the word holds 'e' — but the word's
// final 'e' is unclaimed, so the evaluation fails. A Black mark rejects a
// letter that still has an unclaimed occurrence, wherever it stands.
#[test]
fn reversed_word_black_sees_unclaimed_letters() {
    assert!(!matches_pattern("abcde", "edcba", "bbgbb"));
}

// The same pair under the feedback Wordle would actually report: every
// off-position letter Yellow, the middle Green.
#[test]
fn reversed_word_all_yellow_around_green() {
    assert!(matches_pattern("abcde", "edcba", "yygyy"));
}

// Duplicate letters, hand-traced. word = "allot", guess = "lolly",
// pattern = "ybgyb": the green pass claims word position 2 ('l'); the
// yellow at position 0 ('l') claims the leftmost unused 'l', position 1;
// the yellow at position 3 ('l') then finds no unclaimed 'l' left and the
// evaluation fails.
#[test]
fn duplicate_letters_leftmost_scan() {
    assert!(!matches_pattern("allot", "lolly", "ybgyb"));
}

// word = "sassy", guess = "soses", pattern = "gbgby": greens claim word
// positions 0 and 2; the yellow for the final 's' of the guess claims the
// one remaining 's' at position 3; the blacks ('o', 'e') find no
// occurrence at all.
#[test]
fn duplicate_letters_yellow_needs_unclaimed_occurrence() {
    assert!(matches_pattern("sassy", "soses", "gbgby"));
}

// A Black mark does not mean "absent from the word": it means no unclaimed
// occurrence remains. Here the word's only 'a' is claimed by the green, so
// the Black on the guess's second 'a' succeeds.
#[test]
fn black_succeeds_when_all_occurrences_claimed() {
    assert!(matches_pattern("ab", "aa", "gb"));
}

// word = "hello", guess = "ollie", pattern = "yygby", hand-traced: green
// claims word position 2 ('l'); yellows claim 'o' (position 4), the second
// 'l' (position 3) and 'e' (position 1); the black on 'i' finds no 'i' at
// all. Only position 0 ('h') is left unclaimed.
#[test]
fn overlapping_duplicates_trace_accepts() {
    assert!(matches_pattern("hello", "ollie", "yygby"));
}

// Same pair with the last symbol Black instead of Yellow: the word's 'e' at
// position 1 is then unclaimed, so the Black on the guess's 'e' fails.
#[test]
fn overlapping_duplicates_trace_rejects() {
    assert!(!matches_pattern("hello", "ollie", "yygbb"));
}

#[test]
fn yellow_at_its_own_position_fails() {
    assert!(!matches_pattern("ab", "ax", "yb"));
}

#[test]
fn yellow_without_occurrence_fails() {
    assert!(!matches_pattern("ab", "cd", "yb"));
}

#[test]
fn black_of_absent_letters_succeeds() {
    assert!(matches_pattern("abcde", "vwxyz", "bbbbb"));
}

#[test]
fn pattern_symbols_are_case_insensitive() {
    assert!(matches_pattern("abcde", "abcde", "GGGGG"));
    assert!(matches_pattern("abcde", "abcde", "gGgGg"));
    assert_eq!(
        matches_pattern("allot", "lolly", "YBGYB"),
        matches_pattern("allot", "lolly", "ybgyb"),
    );
    assert_eq!(
        matches_pattern("hello", "ollie", "YYGBY"),
        matches_pattern("hello", "ollie", "yygby"),
    );
}

// On a failed green pass, exactly the Green positions before the first
// mismatch stay marked.
#[test]
fn green_pass_marks_stop_at_first_mismatch() {
    let word: Vec<char> = vec!['a', 'b', 'c'];
    let guess: Vec<char> = vec!['a', 'x', 'c'];
    let pattern: Vec<char> = vec!['g', 'g', 'g'];
    let mut used = vec![false; 3];
    assert!(!check_greens(&word, &guess, &pattern, &mut used));
    assert_eq!(used, vec![true, false, false]);
}

// Word and guess letters compare case-sensitively ('A' is not 'a'), and a
// mismatch at the very first position leaves every mark clear.
#[test]
fn green_pass_mismatch_at_first_position_marks_nothing() {
    let word: Vec<char> = vec!['A', 'b', 'c', 'd', 'e'];
    let guess: Vec<char> = vec!['a', 'b', 'c', 'd', 'e'];
    let pattern: Vec<char> = vec!['g'; 5];
    let mut used = vec![false; 5];
    assert!(!check_greens(&word, &guess, &pattern, &mut used));
    assert_eq!(used, vec![false; 5]);
}

// The yellow pass never clears a mark: a position claimed before the pass
// (as by a green) stays claimed, and the yellow claims another occurrence.
#[test]
fn yellow_pass_only_sets_marks() {
    let word: Vec<char> = vec!['a', 'b', 'a'];
    let guess: Vec<char> = vec!['x', 'a', 'z'];
    let pattern: Vec<char> = vec!['b', 'y', 'b'];
    let mut used = vec![true, false, false];
    assert!(check_yellows(&word, &guess, &pattern, &mut used));
    assert_eq!(used, vec![true, false, true]);
}

// A failing yellow pass keeps the claims made by the Yellow positions
// before the failure.
#[test]
fn yellow_pass_failure_keeps_earlier_claims() {
    let word: Vec<char> = vec!['a', 'b', 'c'];
    let guess: Vec<char> = vec!['x', 'a', 'a'];
    let pattern: Vec<char> = vec!['b', 'y', 'y'];
    let mut used = vec![false; 3];
    assert!(!check_yellows(&word, &guess, &pattern, &mut used));
    assert_eq!(used, vec![true, false, false]);
}

// A pattern symbol outside {g, y, b} (either case) constrains its position
// in no pass at all.
#[test]
fn unknown_pattern_symbols_are_wildcards() {
    assert!(matches_pattern("abcde", "vwxyz", "?????"));
    assert!(matches_pattern("abcde", "abcde", "12345"));
    assert!(matches_pattern("abcde", "edcba", "..g.."));
}
