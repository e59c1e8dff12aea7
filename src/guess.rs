use vstd::prelude::*;
use crate::feedback::{feedback, Correctness, WORD_LEN};

verus! {

/// A word that was played, with the pattern it received.
pub struct Guess {
    pub word: String,
    pub mask: [Correctness; 5],
}

/// Whether `word` could be the answer, given that `guess` received `mask`: playing `guess`
/// against `word` would give exactly `mask`.
pub open spec fn consistent(guess: Seq<char>, mask: Seq<Correctness>, word: Seq<char>) -> bool {
    feedback(word, guess) == mask
}

/// Whether two patterns hold the same marks.
pub fn same_pattern(a: &[Correctness; 5], b: &[Correctness; 5]) -> (r: bool)
    ensures
        r == (a@ == b@),
{
    let mut i: usize = 0;
    while i < WORD_LEN
        invariant
            i <= WORD_LEN,
            a@.len() == WORD_LEN,
            b@.len() == WORD_LEN,
            forall|j: int| 0 <= j < i ==> a@[j] == b@[j],
        decreases WORD_LEN - i,
    {
        if a[i] != b[i] {
            return false;
        }
        i = i + 1;
    }
    assert(a@ =~= b@);
    true
}

impl Guess {
    /// Whether `word` is still a possible answer after this guess and its pattern.
    pub fn matches(&self, word: &str) -> (r: bool)
        requires
            self.word@.len() == WORD_LEN,
            word@.len() == WORD_LEN,
        ensures
            r == consistent(self.word@, self.mask@, word@),
    {
        let would_get = Correctness::compute(word, self.word.as_str());
        same_pattern(&would_get, &self.mask)
    }
}

} // verus!
