use wordle_solver::filter::apply;
use wordle_solver::session::Session;

fn words(list: &[&str]) -> Vec<String> {
    let mut v: Vec<String> = Vec::new();
    for w in list {
        v.push(w.to_string());
    }
    v
}

#[test]
fn apply_keeps_surviving_order() {
    let dict = words(&["apple", "grape", "alpha"]);
    let kept = apply(&dict, "azzzz", "gbbbb");
    assert_eq!(kept, words(&["apple", "alpha"]));
}

#[test]
fn apply_twice_equals_apply_once() {
    let dict = words(&["apple", "grape", "alpha", "amble", "crate"]);
    let once = apply(&dict, "azzzz", "gbbbb");
    let twice = apply(&once, "azzzz", "gbbbb");
    assert_eq!(twice, once);
}

#[test]
fn apply_on_empty_list() {
    let dict: Vec<String> = Vec::new();
    let kept = apply(&dict, "abcde", "ggggg");
    assert!(kept.is_empty());
}

#[test]
fn apply_drops_words_of_other_lengths() {
    let dict = words(&["apple", "app", "applesauce"]);
    let kept = apply(&dict, "apple", "ggggg");
    assert_eq!(kept, words(&["apple"]));
}

#[test]
fn session_narrows_and_resets() {
    let dict = words(&["apple", "grape", "alpha"]);
    let mut session = Session::new(dict.clone());
    assert_eq!(session.count(), 3);

    session.apply_observation("azzzz", "gbbbb");
    assert_eq!(session.list(), &words(&["apple", "alpha"]));
    assert_eq!(session.count(), 2);

    session.apply_observation("alpha", "ggggg");
    assert_eq!(session.list(), &words(&["alpha"]));

    session.reset();
    assert_eq!(session.list(), &dict);
    assert_eq!(session.count(), 3);
}

#[test]
fn session_observations_accumulate() {
    let dict = words(&["crate", "trace", "react"]);
    let mut session = Session::new(dict);
    // Wordle feedback for guessing "crate" when the word is "trace".
    session.apply_observation("crate", "yggyg");
    assert_eq!(session.list(), &words(&["trace"]));
}
