use vstd::prelude::*;
use vstd::std_specs::iter::IteratorSpec;

verus! {

/// The mark that one letter of a guess receives.
#[derive(Debug, PartialEq, Eq, Structural, Clone, Copy)]
pub enum Correctness {
    /// The answer holds this letter at this very position.
    Correct,
    /// The answer holds a further, unclaimed occurrence of this letter elsewhere.
    Misplaced,
    /// No unclaimed occurrence of this letter is left in the answer.
    Wrong,
}

/// Length of every word and of every pattern.
pub const WORD_LEN: usize = 5;

/// How many positions `j < n` hold `c` in `s` while `s` and `other` differ there.
///
/// With `s` the answer and `other` the guess, these are the occurrences of `c` in the answer
/// that no exact match has used up; with `s` the guess, they are the positions of the guess
/// before `n` that try to claim such an occurrence.
pub open spec fn unmatched_count(s: Seq<char>, other: Seq<char>, c: char, n: int) -> nat
    decreases n,
{
    if n <= 0 {
        0
    } else {
        unmatched_count(s, other, c, n - 1) + if s[n - 1] != other[n - 1] && s[n - 1] == c {
            1nat
        } else {
            0nat
        }
    }
}

/// The mark of position `i` of `guess` against `answer`.
///
/// An exact match is `Correct`. Otherwise the guess letter claims, left to right, one of the
/// answer's occurrences of it that exact matches left over: it is `Misplaced` while such an
/// occurrence remains after the claims of earlier guess positions, `Wrong` once none is left.
pub open spec fn mark_at(answer: Seq<char>, guess: Seq<char>, i: int) -> Correctness {
    if answer[i] == guess[i] {
        Correctness::Correct
    } else if unmatched_count(guess, answer, guess[i], i) < unmatched_count(
        answer,
        guess,
        guess[i],
        answer.len() as int,
    ) {
        Correctness::Misplaced
    } else {
        Correctness::Wrong
    }
}

/// The pattern that `guess` receives when `answer` is the secret word.
pub open spec fn feedback(answer: Seq<char>, guess: Seq<char>) -> Seq<Correctness> {
    Seq::new(guess.len(), |i: int| mark_at(answer, guess, i))
}

/// Counts the positions below `n` whose letter is `c` and where `s` and `other` differ.
fn count_unmatched(s: &Vec<char>, other: &Vec<char>, c: char, n: usize) -> (r: usize)
    requires
        n <= s@.len(),
        s@.len() == other@.len(),
    ensures
        r == unmatched_count(s@, other@, c, n as int),
{
    let mut k: usize = 0;
    let mut r: usize = 0;
    while k < n
        invariant
            k <= n <= s@.len(),
            s@.len() == other@.len(),
            r == unmatched_count(s@, other@, c, k as int),
            r <= k,
        decreases n - k,
    {
        if s[k] != other[k] && s[k] == c {
            r = r + 1;
        }
        k = k + 1;
    }
    r
}

fn mark(answer: &Vec<char>, guess: &Vec<char>, i: usize) -> (r: Correctness)
    requires
        i < guess@.len(),
        answer@.len() == guess@.len(),
    ensures
        r == mark_at(answer@, guess@, i as int),
{
    if answer[i] == guess[i] {
        Correctness::Correct
    } else if count_unmatched(guess, answer, guess[i], i) < count_unmatched(
        answer,
        guess,
        guess[i],
        answer.len(),
    ) {
        Correctness::Misplaced
    } else {
        Correctness::Wrong
    }
}

/// Number of distinct patterns: three marks at each of five positions.
pub const PATTERN_COUNT: usize = 243;

/// The mark that the base-3 digit `d` stands for in the enumeration of patterns.
pub open spec fn mark_of_digit(d: int) -> Correctness {
    if d == 0 {
        Correctness::Correct
    } else if d == 1 {
        Correctness::Wrong
    } else {
        Correctness::Misplaced
    }
}

/// The `k`-th pattern: `k` written in base 3 with five digits, the first position most
/// significant, each digit read by `mark_of_digit`.
pub open spec fn pattern_of(k: int) -> Seq<Correctness> {
    seq![
        mark_of_digit((k / 81) % 3),
        mark_of_digit((k / 27) % 3),
        mark_of_digit((k / 9) % 3),
        mark_of_digit((k / 3) % 3),
        mark_of_digit(k % 3),
    ]
}

fn digit_mark(d: usize) -> (r: Correctness)
    ensures
        r == mark_of_digit(d as int),
{
    if d == 0 {
        Correctness::Correct
    } else if d == 1 {
        Correctness::Wrong
    } else {
        Correctness::Misplaced
    }
}

impl Correctness {
    /// Every pattern once, in the order of `pattern_of`.
    pub fn patterns() -> (r: Vec<[Correctness; 5]>)
        ensures
            r@.len() == PATTERN_COUNT,
            forall|k: int| 0 <= k < PATTERN_COUNT ==> #[trigger] r@[k]@ == pattern_of(k),
    {
        let mut r: Vec<[Correctness; 5]> = Vec::new();
        let mut k: usize = 0;
        while k < PATTERN_COUNT
            invariant
                k <= PATTERN_COUNT,
                r@.len() == k,
                forall|j: int| 0 <= j < k ==> #[trigger] r@[j]@ == pattern_of(j),
            decreases PATTERN_COUNT - k,
        {
            let p = [
                digit_mark((k / 81) % 3),
                digit_mark((k / 27) % 3),
                digit_mark((k / 9) % 3),
                digit_mark((k / 3) % 3),
                digit_mark(k % 3),
            ];
            assert(p@ =~= pattern_of(k as int));
            r.push(p);
            k = k + 1;
        }
        r
    }

    /// The pattern that `guess` receives when `answer` is the secret word.
    pub fn compute(answer: &str, guess: &str) -> (r: [Correctness; 5])
        requires
            answer@.len() == WORD_LEN,
            guess@.len() == WORD_LEN,
        ensures
            r@ == feedback(answer@, guess@),
    {
        let a = letters(answer);
        let g = letters(guess);
        let r = [mark(&a, &g, 0), mark(&a, &g, 1), mark(&a, &g, 2), mark(&a, &g, 3), mark(&a, &g, 4)];
        assert(r@ =~= feedback(answer@, guess@));
        r
    }
}

broadcast use vstd::string::axiom_spec_iter, vstd::string::next_postcondition;

/// The characters of `s`, one per element.
pub fn letters(s: &str) -> (r: Vec<char>)
    ensures
        r@ == s@,
{
    let mut it = s.chars();
    let mut out: Vec<char> = Vec::new();
    loop
        invariant
            it.obeys_prophetic_iter_laws(),
            out@ + it.remaining() == s@,
        ensures
            out@ == s@,
        decreases s@.len() - out@.len(),
    {
        match it.next() {
            Some(c) => {
                out.push(c);
            },
            None => {
                assert(out@ + it.remaining() =~= out@);
                break;
            },
        }
    }
    out
}

} // verus!
