use vstd::prelude::*;
use crate::feedback::{feedback, Correctness, WORD_LEN};
use crate::guess::Guess;

verus! {

/// Most rounds that one game lasts.
pub const MAX_ROUNDS: usize = 32;

/// A strategy that proposes the next word from the guesses played so far.
pub trait Guesser {
    fn guess(&mut self, history: &[Guess]) -> String;
}

/// What one proposed word does to a game.
pub enum Turn {
    /// The word is the answer.
    Solved,
    /// The word, which is neither the answer nor in the dictionary.
    Rejected(String),
    /// The word is a valid miss; it enters the history with its pattern.
    Scored(Guess),
}

/// A proposal that is neither the answer nor a dictionary word: the round, counted from 1,
/// and the word.
#[derive(Debug, PartialEq, Eq)]
pub struct Rejection {
    pub round: usize,
    pub word: String,
}

/// A game master: the dictionary of words that may be played.
pub struct Wordle {
    dictionary: Vec<String>,
}

impl Wordle {
    /// Whether `w` is one of the dictionary's words.
    pub closed spec fn knows(&self, w: Seq<char>) -> bool {
        exists|i: int| 0 <= i < self.dictionary@.len() && self.dictionary@[i]@ == w
    }

    /// Every word of the dictionary has the fixed length.
    pub closed spec fn wf(&self) -> bool {
        forall|i: int| 0 <= i < self.dictionary@.len() ==> #[trigger] self.dictionary@[i]@.len() == WORD_LEN
    }

    /// A game master that accepts the words of `dictionary`.
    pub fn new(dictionary: Vec<String>) -> (r: Self)
        requires
            forall|i: int| 0 <= i < dictionary@.len() ==> #[trigger] dictionary@[i]@.len() == WORD_LEN,
        ensures
            r.wf(),
            forall|w: Seq<char>|
                r.knows(w) <==> exists|i: int|
                    0 <= i < dictionary@.len() && dictionary@[i]@ == w,
    {
        let ghost words = dictionary@;
        let r = Wordle { dictionary };
        assert(r.dictionary@ == words);
        assert forall|w: Seq<char>|
            r.knows(w) <==> exists|i: int|
                0 <= i < r.dictionary@.len() && r.dictionary@[i]@ == w by {}
        r
    }

    /// Whether `word` is in the dictionary.
    pub fn contains(&self, word: &String) -> (r: bool)
        ensures
            r == self.knows(word@),
    {
        let mut i: usize = 0;
        while i < self.dictionary.len()
            invariant
                i <= self.dictionary@.len(),
                forall|j: int| 0 <= j < i ==> self.dictionary@[j]@ != word@,
            decreases self.dictionary@.len() - i,
        {
            if self.dictionary[i] == *word {
                return true;
            }
            i = i + 1;
        }
        false
    }

    /// Judges one proposed word against the answer: the answer wins before the dictionary is
    /// consulted; any other word must be in the dictionary and is then scored.
    pub fn judge(&self, answer: &String, word: String) -> (r: Turn)
        requires
            self.wf(),
            answer@.len() == WORD_LEN,
        ensures
            word@ == answer@ <==> r is Solved,
            r is Rejected <==> (word@ != answer@ && !self.knows(word@)),
            r matches Turn::Rejected(w) ==> w@ == word@,
            r matches Turn::Scored(g) ==> g.word@ == word@ && g.mask@ == feedback(answer@, word@),
    {
        if word == *answer {
            Turn::Solved
        } else if !self.contains(&word) {
            Turn::Rejected(word)
        } else {
            let mask = Correctness::compute(answer.as_str(), word.as_str());
            Turn::Scored(Guess { word, mask })
        }
    }

    /// Plays one game of at most `MAX_ROUNDS` rounds against `answer`, appending each scored
    /// guess to `history`. `Ok(Some(i))`: `guesser` proposed the answer in round `i`, counted
    /// from 1. `Ok(None)`: all rounds were played without a match. `Err`: a proposal was
    /// neither the answer nor a dictionary word, which ends the game at once.
    pub fn play_recorded<G: Guesser>(&self, answer: &str, guesser: &mut G, history: &mut Vec<Guess>) -> (r: Result<Option<usize>, Rejection>)
        requires
            self.wf(),
            answer@.len() == WORD_LEN,
            old(history)@.len() == 0,
        ensures
            forall|k: int|
                0 <= k < final(history)@.len() ==> #[trigger] final(history)@[k].word@ != answer@
                    && self.knows(final(history)@[k].word@) && final(history)@[k].mask@ == feedback(
                    answer@,
                    final(history)@[k].word@,
                ),
            r matches Ok(Some(i)) ==> 1 <= i <= MAX_ROUNDS && final(history)@.len() == i - 1,
            r matches Ok(None) ==> final(history)@.len() == MAX_ROUNDS,
            r matches Err(e) ==> 1 <= e.round <= MAX_ROUNDS && final(history)@.len() == e.round - 1
                && e.word@ != answer@ && !self.knows(e.word@),
    {
        let target = answer.to_owned();
        let mut round: usize = 1;
        while round <= MAX_ROUNDS
            invariant
                1 <= round <= MAX_ROUNDS + 1,
                answer@.len() == WORD_LEN,
                target@ == answer@,
                self.wf(),
                history@.len() == round - 1,
                forall|k: int|
                    0 <= k < history@.len() ==> #[trigger] history@[k].word@ != answer@
                        && self.knows(history@[k].word@) && history@[k].mask@ == feedback(
                        answer@,
                        history@[k].word@,
                    ),
            decreases MAX_ROUNDS + 1 - round,
        {
            let word = guesser.guess(history.as_slice());
            match self.judge(&target, word) {
                Turn::Solved => {
                    return Ok(Some(round));
                },
                Turn::Rejected(w) => {
                    return Err(Rejection { round, word: w });
                },
                Turn::Scored(g) => {
                    history.push(g);
                },
            }
            round = round + 1;
        }
        Ok(None)
    }

    /// Plays one game against `answer`, as `play_recorded` does, keeping no history.
    pub fn play<G: Guesser>(&self, answer: &str, guesser: G) -> (r: Result<Option<usize>, Rejection>)
        requires
            self.wf(),
            answer@.len() == WORD_LEN,
        ensures
            r matches Ok(Some(i)) ==> 1 <= i <= MAX_ROUNDS,
            r matches Err(e) ==> 1 <= e.round <= MAX_ROUNDS && e.word@ != answer@ && !self.knows(e.word@),
    {
        let mut guesser = guesser;
        let mut history: Vec<Guess> = Vec::new();
        self.play_recorded(answer, &mut guesser, &mut history)
    }
}

} // verus!
