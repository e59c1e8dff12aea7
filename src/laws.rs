use vstd::prelude::*;
use crate::feedback::{feedback, unmatched_count, Correctness, WORD_LEN};
use crate::guess::consistent;

verus! {

/// Number of `Correct` marks among the first `n` marks of `m`.
pub open spec fn correct_count(m: Seq<Correctness>, n: int) -> nat
    decreases n,
{
    if n <= 0 {
        0
    } else {
        correct_count(m, n - 1) + if m[n - 1] == Correctness::Correct {
            1nat
        } else {
            0nat
        }
    }
}

/// Number of positions below `n` at which `a` and `b` hold the same letter.
pub open spec fn agree_count(a: Seq<char>, b: Seq<char>, n: int) -> nat
    decreases n,
{
    if n <= 0 {
        0
    } else {
        agree_count(a, b, n - 1) + if a[n - 1] == b[n - 1] {
            1nat
        } else {
            0nat
        }
    }
}

/// The answer is always consistent with the pattern that it gave to a guess.
pub proof fn answer_matches_own_feedback(answer: Seq<char>, guess: Seq<char>)
    requires
        answer.len() == WORD_LEN,
        guess.len() == WORD_LEN,
    ensures
        consistent(guess, feedback(answer, guess), answer),
{
}

proof fn correct_count_prefix(answer: Seq<char>, guess: Seq<char>, n: int)
    requires
        answer.len() == WORD_LEN,
        guess.len() == WORD_LEN,
        0 <= n <= WORD_LEN,
    ensures
        correct_count(feedback(answer, guess), n) == agree_count(answer, guess, n),
    decreases n,
{
    if n > 0 {
        correct_count_prefix(answer, guess, n - 1);
    }
}

/// A pattern holds as many `Correct` marks as there are positions at which answer and guess
/// hold the same letter.
pub proof fn correct_marks_count_agreements(answer: Seq<char>, guess: Seq<char>)
    requires
        answer.len() == WORD_LEN,
        guess.len() == WORD_LEN,
    ensures
        correct_count(feedback(answer, guess), WORD_LEN as int) == agree_count(
            answer,
            guess,
            WORD_LEN as int,
        ),
{
    correct_count_prefix(answer, guess, WORD_LEN as int);
}

/// Guessing the answer itself gives `Correct` at every position.
pub proof fn guessing_answer_is_all_correct(answer: Seq<char>)
    requires
        answer.len() == WORD_LEN,
    ensures
        feedback(answer, answer) == Seq::new(WORD_LEN as nat, |i: int| Correctness::Correct),
{
    assert(feedback(answer, answer) =~= Seq::new(WORD_LEN as nat, |i: int| Correctness::Correct));
}

proof fn absent_letter_count(s: Seq<char>, other: Seq<char>, c: char, n: int)
    requires
        0 <= n <= s.len(),
        forall|j: int| 0 <= j < n ==> s[j] != c,
    ensures
        unmatched_count(s, other, c, n) == 0,
    decreases n,
{
    if n > 0 {
        absent_letter_count(s, other, c, n - 1);
    }
}

/// When answer and guess share no letter, every mark is `Wrong`.
pub proof fn disjoint_words_are_all_wrong(answer: Seq<char>, guess: Seq<char>)
    requires
        answer.len() == WORD_LEN,
        guess.len() == WORD_LEN,
        forall|i: int, j: int| 0 <= i < WORD_LEN && 0 <= j < WORD_LEN ==> answer[i] != guess[j],
    ensures
        feedback(answer, guess) == Seq::new(WORD_LEN as nat, |i: int| Correctness::Wrong),
{
    assert forall|i: int| 0 <= i < WORD_LEN implies unmatched_count(
        answer,
        guess,
        guess[i],
        WORD_LEN as int,
    ) == 0 by {
        absent_letter_count(answer, guess, guess[i], WORD_LEN as int);
    }
    assert(feedback(answer, guess) =~= Seq::new(WORD_LEN as nat, |i: int| Correctness::Wrong));
}

} // verus!
