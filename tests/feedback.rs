use roget::feedback::PATTERN_COUNT;
use roget::{Correctness, Guess};

use roget::Correctness::{Correct as C, Misplaced as M, Wrong as W};

#[test]
fn matches() {
    assert!(Guess {
        word: "baaaa".to_string(),
        mask: [W, C, M, W, W]
    }
    .matches("aaccc"))
}

#[test]
fn basic() {
    assert_eq!(Correctness::compute("abcde", "abcde"), [C, C, C, C, C]);
}

#[test]
fn yellow() {
    assert_eq!(
        Correctness::compute("abcde", "eabcd"),
        [Correctness::Misplaced; 5]
    );
}

#[test]
fn gray() {
    assert_eq!(
        Correctness::compute("abcde", "fghij"),
        [Correctness::Wrong; 5]
    );
}

#[test]
fn repeat_gray() {
    assert_eq!(Correctness::compute("aacde", "acaoa"), [C, M, M, W, W]);
}

#[test]
fn answer_matches_the_pattern_it_gave() {
    for (answer, guess) in [("aacde", "acaoa"), ("moved", "tares"), ("abbey", "babes")] {
        let mask = Correctness::compute(answer, guess);
        let g = Guess { word: guess.to_string(), mask };
        assert!(g.matches(answer));
    }
}

#[test]
fn correct_marks_count_equal_letters() {
    let mask = Correctness::compute("crane", "crate");
    assert_eq!(mask, [C, C, C, W, C]);
    assert_eq!(mask.iter().filter(|m| **m == C).count(), 4);
}

#[test]
fn guessing_the_answer_is_all_correct() {
    assert_eq!(Correctness::compute("moved", "moved"), [C; 5]);
}

#[test]
fn misplaced_letter_is_claimed_once() {
    assert_eq!(Correctness::compute("abcde", "aaaaa"), [C, W, W, W, W]);
    assert_eq!(Correctness::compute("ebcda", "aaxxx"), [M, W, W, W, W]);
}

#[test]
fn matches_rejects_inconsistent_word() {
    let g = Guess { word: "abcde".to_string(), mask: [M; 5] };
    assert!(!g.matches("fghij"));
    assert!(g.matches("eabcd"));
    let g = Guess { word: "tares".to_string(), mask: [W, M, W, M, W] };
    assert!(g.matches("abcde"));
    assert!(!g.matches("fghij"));
}

#[test]
fn patterns_enumerate_every_pattern_once() {
    let all = Correctness::patterns();
    assert_eq!(all.len(), PATTERN_COUNT);
    assert_eq!(all[0], [C; 5]);
    assert_eq!(all[1], [C, C, C, C, W]);
    assert_eq!(all[2], [C, C, C, C, M]);
    assert_eq!(all[121], [W; 5]);
    assert_eq!(all[242], [M; 5]);
    for i in 0..all.len() {
        for j in (i + 1)..all.len() {
            assert_ne!(all[i], all[j]);
        }
    }
}
