use vstd::prelude::*;
use crate::feedback::{feedback, mark_of_digit, pattern_of, Correctness, PATTERN_COUNT, WORD_LEN};
use crate::guess::{consistent, same_pattern, Guess};
use vstd::arithmetic::div_mod::{
    lemma_div_pos_is_pos, lemma_fundamental_div_mod, lemma_fundamental_div_mod_converse,
    lemma_mod_pos_bound,
};

verus! {

/// The first word played, before any feedback is known.
pub const OPENING: &'static str = "tares";

/// Sum of the weights of the entries of `pool`.
pub open spec fn weight_sum(pool: Seq<(String, u64)>) -> nat
    decreases pool.len(),
{
    if pool.len() == 0 {
        0
    } else {
        weight_sum(pool.drop_last()) + pool.last().1 as nat
    }
}

/// Sum of the weights of the entries of `pool` that would give `pattern` to `guess`.
pub open spec fn bucket_weight(pool: Seq<(String, u64)>, guess: Seq<char>, pattern: Seq<Correctness>) -> nat
    decreases pool.len(),
{
    if pool.len() == 0 {
        0
    } else {
        bucket_weight(pool.drop_last(), guess, pattern) + if feedback(pool.last().0@, guess)
            == pattern {
            pool.last().1 as nat
        } else {
            0nat
        }
    }
}

/// The entries of `pool` whose word is still a possible answer after `guess` received `mask`.
pub open spec fn survivors(pool: Seq<(String, u64)>, guess: Seq<char>, mask: Seq<Correctness>) -> Seq<(String, u64)> {
    pool.filter(|e: (String, u64)| consistent(guess, mask, e.0@))
}

/// A bucket never weighs more than the whole pool.
pub proof fn bucket_within_total(pool: Seq<(String, u64)>, guess: Seq<char>, pattern: Seq<Correctness>)
    ensures
        bucket_weight(pool, guess, pattern) <= weight_sum(pool),
    decreases pool.len(),
{
    if pool.len() > 0 {
        bucket_within_total(pool.drop_last(), guess, pattern);
    }
}

/// A prefix of a pool never weighs more than the pool.
pub proof fn prefix_within_total(pool: Seq<(String, u64)>, j: int)
    requires
        0 <= j <= pool.len(),
    ensures
        weight_sum(pool.take(j)) <= weight_sum(pool),
    decreases pool.len(),
{
    if j < pool.len() {
        assert(pool.drop_last().take(j) =~= pool.take(j));
        prefix_within_total(pool.drop_last(), j);
    } else {
        assert(pool.take(j) =~= pool);
    }
}

/// Filtering the pool by any guess never makes it larger.
pub proof fn filtering_never_grows(pool: Seq<(String, u64)>, guess: Seq<char>, mask: Seq<Correctness>)
    ensures
        survivors(pool, guess, mask).len() <= pool.len(),
{
    pool.lemma_filter_len(|e: (String, u64)| consistent(guess, mask, e.0@));
}

/// The base-3 digit of a mark in the enumeration of patterns.
pub open spec fn digit_of_mark(m: Correctness) -> int {
    match m {
        Correctness::Correct => 0,
        Correctness::Wrong => 1,
        Correctness::Misplaced => 2,
    }
}

/// The index of a pattern in the enumeration of patterns.
pub open spec fn pattern_code(m: Seq<Correctness>) -> int {
    81 * digit_of_mark(m[0]) + 27 * digit_of_mark(m[1]) + 9 * digit_of_mark(m[2]) + 3
        * digit_of_mark(m[3]) + digit_of_mark(m[4])
}

/// Sum of the weights of the buckets of the first `n` patterns.
pub open spec fn bucket_sum(pool: Seq<(String, u64)>, guess: Seq<char>, n: int) -> nat
    decreases n,
{
    if n <= 0 {
        0
    } else {
        bucket_sum(pool, guess, n - 1) + bucket_weight(pool, guess, pattern_of(n - 1))
    }
}

/// `w` for each of the first `n` patterns that equals `m`, summed.
pub open spec fn hit_sum(m: Seq<Correctness>, w: nat, n: int) -> nat
    decreases n,
{
    if n <= 0 {
        0
    } else {
        hit_sum(m, w, n - 1) + if pattern_of(n - 1) == m {
            w
        } else {
            0nat
        }
    }
}

proof fn digits_of_code(a: int, b: int, c: int, d: int, e: int)
    requires
        0 <= a < 3,
        0 <= b < 3,
        0 <= c < 3,
        0 <= d < 3,
        0 <= e < 3,
    ensures
        ({
            let code = 81 * a + 27 * b + 9 * c + 3 * d + e;
            &&& 0 <= code < 243
            &&& (code / 81) % 3 == a
            &&& (code / 27) % 3 == b
            &&& (code / 9) % 3 == c
            &&& (code / 3) % 3 == d
            &&& code % 3 == e
        }),
{
    let code = 81 * a + 27 * b + 9 * c + 3 * d + e;
    lemma_fundamental_div_mod_converse(code, 81, a, 27 * b + 9 * c + 3 * d + e);
    lemma_fundamental_div_mod_converse(a, 3, 0, a);
    lemma_fundamental_div_mod_converse(code, 27, 3 * a + b, 9 * c + 3 * d + e);
    lemma_fundamental_div_mod_converse(3 * a + b, 3, a, b);
    lemma_fundamental_div_mod_converse(code, 9, 9 * a + 3 * b + c, 3 * d + e);
    lemma_fundamental_div_mod_converse(9 * a + 3 * b + c, 3, 3 * a + b, c);
    lemma_fundamental_div_mod_converse(code, 3, 27 * a + 9 * b + 3 * c + d, e);
    lemma_fundamental_div_mod_converse(27 * a + 9 * b + 3 * c + d, 3, 9 * a + 3 * b + c, d);
}

proof fn code_of_digits(k: int)
    requires
        0 <= k < 243,
    ensures
        81 * ((k / 81) % 3) + 27 * ((k / 27) % 3) + 9 * ((k / 9) % 3) + 3 * ((k / 3) % 3) + k % 3
            == k,
{
    let q1 = k / 3;
    let q2 = q1 / 3;
    let q3 = q2 / 3;
    let q4 = q3 / 3;
    lemma_fundamental_div_mod(k, 3);
    lemma_mod_pos_bound(k, 3);
    lemma_div_pos_is_pos(k, 3);
    lemma_fundamental_div_mod(q1, 3);
    lemma_mod_pos_bound(q1, 3);
    lemma_div_pos_is_pos(q1, 3);
    lemma_fundamental_div_mod(q2, 3);
    lemma_mod_pos_bound(q2, 3);
    lemma_div_pos_is_pos(q2, 3);
    lemma_fundamental_div_mod(q3, 3);
    lemma_mod_pos_bound(q3, 3);
    lemma_div_pos_is_pos(q3, 3);
    assert(k == 81 * q4 + 27 * (q3 % 3) + 9 * (q2 % 3) + 3 * (q1 % 3) + k % 3);
    digits_of_code(q4, q3 % 3, q2 % 3, q1 % 3, k % 3);
}

proof fn pattern_index_matches(m: Seq<Correctness>, k: int)
    requires
        m.len() == WORD_LEN,
        0 <= k < PATTERN_COUNT,
    ensures
        0 <= pattern_code(m) < PATTERN_COUNT,
        pattern_of(k) == m <==> k == pattern_code(m),
{
    digits_of_code(
        digit_of_mark(m[0]),
        digit_of_mark(m[1]),
        digit_of_mark(m[2]),
        digit_of_mark(m[3]),
        digit_of_mark(m[4]),
    );
    assert forall|x: int| 0 <= x < 3 implies digit_of_mark(#[trigger] mark_of_digit(x)) == x by {}
    assert(pattern_of(pattern_code(m)) =~= m);
    code_of_digits(k);
    if pattern_of(k) == m {
        assert(digit_of_mark(m[0]) == (k / 81) % 3);
        assert(digit_of_mark(m[1]) == (k / 27) % 3);
        assert(digit_of_mark(m[2]) == (k / 9) % 3);
        assert(digit_of_mark(m[3]) == (k / 3) % 3);
        assert(digit_of_mark(m[4]) == k % 3);
    }
}

proof fn hit_sum_is_one_hit(m: Seq<Correctness>, w: nat, n: int)
    requires
        m.len() == WORD_LEN,
        0 <= n <= PATTERN_COUNT,
    ensures
        hit_sum(m, w, n) == if pattern_code(m) < n {
            w
        } else {
            0nat
        },
    decreases n,
{
    if n > 0 {
        hit_sum_is_one_hit(m, w, n - 1);
        pattern_index_matches(m, n - 1);
    } else {
        pattern_index_matches(m, 0);
    }
}

proof fn bucket_sum_split(pool: Seq<(String, u64)>, guess: Seq<char>, n: int)
    requires
        pool.len() > 0,
    ensures
        bucket_sum(pool, guess, n) == bucket_sum(pool.drop_last(), guess, n) + hit_sum(
            feedback(pool.last().0@, guess),
            pool.last().1 as nat,
            n,
        ),
    decreases n,
{
    if n > 0 {
        bucket_sum_split(pool, guess, n - 1);
    }
}

/// Every word of the pool falls into exactly one pattern's bucket, so the buckets of all
/// patterns together weigh exactly as much as the pool.
pub proof fn buckets_cover_pool(pool: Seq<(String, u64)>, guess: Seq<char>)
    requires
        guess.len() == WORD_LEN,
    ensures
        bucket_sum(pool, guess, PATTERN_COUNT as int) == weight_sum(pool),
    decreases pool.len(),
{
    if pool.len() == 0 {
        assert forall|n: int| 0 <= n <= PATTERN_COUNT implies bucket_sum(pool, guess, n) == 0 by {
            bucket_sum_empty(pool, guess, n);
        }
    } else {
        buckets_cover_pool(pool.drop_last(), guess);
        bucket_sum_split(pool, guess, PATTERN_COUNT as int);
        hit_sum_is_one_hit(feedback(pool.last().0@, guess), pool.last().1 as nat, PATTERN_COUNT as int);
    }
}

proof fn bucket_sum_empty(pool: Seq<(String, u64)>, guess: Seq<char>, n: int)
    requires
        pool.len() == 0,
    ensures
        bucket_sum(pool, guess, n) == 0,
    decreases n,
{
    if n > 0 {
        bucket_sum_empty(pool, guess, n - 1);
    }
}

/// Whether some entry of `pool` has the word `w`.
pub open spec fn has_word(pool: Seq<(String, u64)>, w: Seq<char>) -> bool {
    exists|i: int| 0 <= i < pool.len() && (#[trigger] pool[i]).0@ == w
}

/// The frequency that the last entry of `pool` with the word `w` gives it: where a word is
/// listed more than once, the later frequency wins.
pub open spec fn last_weight(pool: Seq<(String, u64)>, w: Seq<char>) -> u64
    decreases pool.len(),
{
    if pool.len() == 0 {
        0
    } else if pool.last().0@ == w {
        pool.last().1
    } else {
        last_weight(pool.drop_last(), w)
    }
}

/// No two entries of `pool` have the same word.
pub open spec fn distinct_words(pool: Seq<(String, u64)>) -> bool {
    forall|i: int, j: int|
        0 <= i < pool.len() && 0 <= j < pool.len() && i != j ==> (#[trigger] pool[i]).0@ != (
        #[trigger] pool[j]).0@
}

proof fn weight_sum_update(pool: Seq<(String, u64)>, i: int, e: (String, u64))
    requires
        0 <= i < pool.len(),
    ensures
        weight_sum(pool.update(i, e)) + pool[i].1 == weight_sum(pool) + e.1,
    decreases pool.len(),
{
    if i == pool.len() - 1 {
        assert(pool.update(i, e).drop_last() =~= pool.drop_last());
    } else {
        assert(pool.update(i, e).drop_last() =~= pool.drop_last().update(i, e));
        weight_sum_update(pool.drop_last(), i, e);
    }
}

/// The entropy strategy's belief state: each word that may still be the answer, with its
/// relative frequency.
pub struct Naive {
    remaining: Vec<(String, u64)>,
}

impl View for Naive {
    type V = Seq<(String, u64)>;

    closed spec fn view(&self) -> Seq<(String, u64)> {
        self.remaining@
    }
}

impl Naive {
    /// Every word has the fixed length and the weights add up within `u64`.
    pub open spec fn wf(&self) -> bool {
        &&& forall|i: int| 0 <= i < self@.len() ==> (#[trigger] self@[i]).0@.len() == WORD_LEN
        &&& weight_sum(self@) <= u64::MAX
        &&& distinct_words(self@)
    }

    /// A strategy whose candidates are the words of `pool`, each with its frequency. A word
    /// listed more than once is kept once, with the frequency of its last listing.
    pub fn new(pool: Vec<(String, u64)>) -> (r: Self)
        requires
            forall|i: int| 0 <= i < pool@.len() ==> (#[trigger] pool@[i]).0@.len() == WORD_LEN,
            weight_sum(pool@) <= u64::MAX,
        ensures
            r.wf(),
            forall|w: Seq<char>| #[trigger] has_word(r@, w) <==> has_word(pool@, w),
            forall|i: int|
                0 <= i < r@.len() ==> (#[trigger] r@[i]).1 == last_weight(pool@, r@[i].0@),
    {
        let n = pool.len();
        let mut out: Vec<(String, u64)> = Vec::new();
        let mut j: usize = 0;
        while j < n
            invariant
                n == pool@.len(),
                j <= n,
                forall|i: int| 0 <= i < pool@.len() ==> (#[trigger] pool@[i]).0@.len() == WORD_LEN,
                weight_sum(pool@) <= u64::MAX,
                distinct_words(out@),
                forall|i: int| 0 <= i < out@.len() ==> (#[trigger] out@[i]).0@.len() == WORD_LEN,
                forall|w: Seq<char>| #[trigger] has_word(out@, w) <==> has_word(pool@.take(j as int), w),
                forall|i: int|
                    0 <= i < out@.len() ==> (#[trigger] out@[i]).1 == last_weight(
                        pool@.take(j as int),
                        out@[i].0@,
                    ),
                weight_sum(out@) <= weight_sum(pool@.take(j as int)),
            decreases n - j,
        {
            let ghost prefix = pool@.take(j as int);
            let ghost next = pool@.take(j + 1);
            proof {
                assert(next.drop_last() =~= prefix);
                assert(next.last() == pool@[j as int]);
                prefix_within_total(pool@, j + 1);
                assert forall|w: Seq<char>| #[trigger] has_word(next, w) <==> (has_word(prefix, w) || w
                    == pool@[j as int].0@) by {
                    if has_word(next, w) {
                        let i = choose|i: int| 0 <= i < next.len() && (#[trigger] next[i]).0@ == w;
                        if i < j {
                            assert(prefix[i] == next[i]);
                        }
                    }
                    if has_word(prefix, w) {
                        let i = choose|i: int| 0 <= i < prefix.len() && (#[trigger] prefix[i]).0@ == w;
                        assert(next[i] == prefix[i]);
                    }
                    if w == pool@[j as int].0@ {
                        assert(next[j as int] == pool@[j as int]);
                    }
                }
            }
            let word = &pool[j].0;
            let weight = pool[j].1;
            let mut found: Option<usize> = None;
            let mut i: usize = 0;
            while i < out.len()
                invariant
                    i <= out@.len(),
                    found matches Some(f) ==> f < out@.len() && out@[f as int].0@ == word@,
                    found is None ==> forall|k: int| 0 <= k < i ==> (#[trigger] out@[k]).0@ != word@,
                decreases out@.len() - i,
            {
                if found.is_none() && out[i].0 == *word {
                    found = Some(i);
                }
                i = i + 1;
            }
            let ghost before = out@;
            match found {
                Some(f) => {
                    let entry = (out[f].0.clone(), weight);
                    proof {
                        weight_sum_update(before, f as int, entry);
                    }
                    out.set(f, entry);
                    proof {
                        assert forall|w: Seq<char>| #[trigger] has_word(out@, w) <==> has_word(before, w) by {
                            if has_word(out@, w) {
                                let i = choose|i: int| 0 <= i < out@.len() && (#[trigger] out@[i]).0@ == w;
                                assert(before[i].0@ == w);
                            }
                            if has_word(before, w) {
                                let i = choose|i: int| 0 <= i < before.len() && (#[trigger] before[i]).0@ == w;
                                assert(out@[i].0@ == w);
                            }
                        }
                    }
                },
                None => {
                    let entry = (word.clone(), weight);
                    out.push(entry);
                    proof {
                        assert(out@[before.len() as int] == entry);
                        assert forall|w: Seq<char>| #[trigger] has_word(out@, w) <==> (has_word(before, w) || w
                            == word@) by {
                            if has_word(out@, w) {
                                let i = choose|i: int| 0 <= i < out@.len() && (#[trigger] out@[i]).0@ == w;
                                if i < before.len() {
                                    assert(before[i] == out@[i]);
                                }
                            }
                            if has_word(before, w) {
                                let i = choose|i: int| 0 <= i < before.len() && (#[trigger] before[i]).0@ == w;
                                assert(out@[i] == before[i]);
                            }
                        }
                        assert(out@.drop_last() =~= before);
                    }
                },
            }
            j = j + 1;
        }
        proof {
            assert(pool@.take(n as int) =~= pool@);
        }
        Naive { remaining: out }
    }

    /// Number of words still in the pool.
    pub fn len(&self) -> (r: usize)
        ensures
            r == self@.len(),
    {
        self.remaining.len()
    }

    /// The `i`-th word of the pool.
    pub fn word(&self, i: usize) -> (r: &String)
        requires
            i < self@.len(),
        ensures
            *r == self@[i as int].0,
    {
        &self.remaining[i].0
    }

    /// The weight of the `i`-th word of the pool.
    pub fn weight(&self, i: usize) -> (r: u64)
        requires
            i < self@.len(),
        ensures
            r == self@[i as int].1,
    {
        self.remaining[i].1
    }

    /// Sum of the weights of the words still in the pool.
    pub fn total_weight(&self) -> (r: u64)
        requires
            self.wf(),
        ensures
            r == weight_sum(self@),
    {
        let n = self.remaining.len();
        let mut sum: u64 = 0;
        let mut j: usize = 0;
        while j < n
            invariant
                n == self@.len(),
                j <= n,
                self.wf(),
                sum == weight_sum(self@.take(j as int)),
            decreases n - j,
        {
            proof {
                assert(self@.take(j + 1).drop_last() =~= self@.take(j as int));
                prefix_within_total(self@, j + 1);
            }
            sum = sum + self.remaining[j].1;
            j = j + 1;
        }
        assert(self@.take(n as int) =~= self@);
        sum
    }

    /// Keeps only the words that are still possible answers after `last`.
    pub fn retain_matching(&mut self, last: &Guess)
        requires
            old(self).wf(),
            last.word@.len() == WORD_LEN,
        ensures
            final(self)@ == survivors(old(self)@, last.word@, last.mask@),
            final(self)@.len() <= old(self)@.len(),
            final(self).wf(),
    {
        let ghost pred = |e: (String, u64)| consistent(last.word@, last.mask@, e.0@);
        let n = self.remaining.len();
        let mut kept: Vec<(String, u64)> = Vec::new();
        let mut j: usize = 0;
        while j < n
            invariant
                n == self@.len(),
                j <= n,
                self.wf(),
                last.word@.len() == WORD_LEN,
                pred == (|e: (String, u64)| consistent(last.word@, last.mask@, e.0@)),
                kept@ == self@.take(j as int).filter(pred),
                kept@.len() <= j,
                forall|i: int| 0 <= i < kept@.len() ==> (#[trigger] kept@[i]).0@.len() == WORD_LEN,
                weight_sum(kept@) <= weight_sum(self@.take(j as int)),
                distinct_words(kept@),
                forall|i: int|
                    0 <= i < kept@.len() ==> exists|k: int|
                        0 <= k < j && (#[trigger] kept@[i]).0@ == #[trigger] self@[k].0@,
            decreases n - j,
        {
            proof {
                assert(self@.take(j + 1).drop_last() =~= self@.take(j as int));
                assert(self@.take(j + 1).last() == self@[j as int]);
            }
            let ghost before = kept@;
            let word = &self.remaining[j].0;
            let keep = last.matches(word.as_str());
            if keep {
                let entry = (word.clone(), self.remaining[j].1);
                proof {
                    assert(entry == self@[j as int]);
                    assert(kept@.push(entry).drop_last() =~= kept@);
                    assert forall|i: int| 0 <= i < kept@.len() implies (#[trigger] kept@[i]).0@
                        != entry.0@ by {
                        let k = choose|k: int| 0 <= k < j && (#[trigger] kept@[i]).0@ == #[trigger] self@[k].0@;
                        assert(self@[k].0@ != self@[j as int].0@);
                    }
                }
                kept.push(entry);
                proof {
                    assert(kept@[kept@.len() - 1] == entry);
                    assert(forall|i: int| 0 <= i < kept@.len() - 1 ==> kept@[i] == before[i]);
                }
            }
            proof {
                assert(pred(self@[j as int]) == keep);
                reveal(Seq::filter);
                assert(self@.take(j + 1).filter(pred) == if keep {
                    self@.take(j as int).filter(pred).push(self@[j as int])
                } else {
                    self@.take(j as int).filter(pred)
                });
            }
            j = j + 1;
        }
        proof {
            assert(self@.take(n as int) =~= self@);
        }
        self.remaining = kept;
    }

    /// Takes in what the game has shown so far. With no history yet the pool stays as it is
    /// and the opening word is returned. Otherwise the pool is filtered by the newest guess
    /// and `None` leaves the choice among the remaining words to the caller.
    pub fn observe(&mut self, history: &[Guess]) -> (r: Option<String>)
        requires
            old(self).wf(),
            history@.len() > 0 ==> history@.last().word@.len() == WORD_LEN,
        ensures
            final(self).wf(),
            r is Some <==> history@.len() == 0,
            r matches Some(w) ==> w@ == OPENING@ && final(self)@ == old(self)@,
            history@.len() > 0 ==> final(self)@ == survivors(
                old(self)@,
                history@.last().word@,
                history@.last().mask@,
            ),
    {
        if history.len() == 0 {
            Some(OPENING.to_owned())
        } else {
            self.retain_matching(&history[history.len() - 1]);
            None
        }
    }

    /// For each pattern, in the order of `Correctness::patterns`, the weight of the words of
    /// the pool that would give that pattern to `guess`.
    pub fn pattern_weights(&self, guess: &str) -> (r: Vec<u64>)
        requires
            self.wf(),
            guess@.len() == WORD_LEN,
        ensures
            r@.len() == PATTERN_COUNT,
            forall|k: int|
                0 <= k < PATTERN_COUNT ==> #[trigger] r@[k] == bucket_weight(
                    self@,
                    guess@,
                    pattern_of(k),
                ),
    {
        let n = self.remaining.len();
        let mut given: Vec<[Correctness; 5]> = Vec::new();
        let mut j: usize = 0;
        while j < n
            invariant
                n == self@.len(),
                j <= n,
                self.wf(),
                guess@.len() == WORD_LEN,
                given@.len() == j,
                forall|i: int| 0 <= i < j ==> (#[trigger] given@[i])@ == feedback(self@[i].0@, guess@),
            decreases n - j,
        {
            proof {
                assert(self@[j as int].0@.len() == WORD_LEN);
            }
            given.push(Correctness::compute(self.remaining[j].0.as_str(), guess));
            j = j + 1;
        }
        let patterns = Correctness::patterns();
        let mut out: Vec<u64> = Vec::new();
        let mut k: usize = 0;
        while k < PATTERN_COUNT
            invariant
                n == self@.len(),
                k <= PATTERN_COUNT,
                self.wf(),
                given@.len() == n,
                forall|i: int| 0 <= i < n ==> (#[trigger] given@[i])@ == feedback(self@[i].0@, guess@),
                patterns@.len() == PATTERN_COUNT,
                forall|q: int| 0 <= q < PATTERN_COUNT ==> #[trigger] patterns@[q]@ == pattern_of(q),
                out@.len() == k,
                forall|q: int|
                    0 <= q < k ==> #[trigger] out@[q] == bucket_weight(self@, guess@, pattern_of(q)),
            decreases PATTERN_COUNT - k,
        {
            let ghost pattern = pattern_of(k as int);
            let mut sum: u64 = 0;
            let mut j: usize = 0;
            while j < n
                invariant
                    n == self@.len(),
                    j <= n,
                    self.wf(),
                    given@.len() == n,
                    forall|i: int| 0 <= i < n ==> (#[trigger] given@[i])@ == feedback(self@[i].0@, guess@),
                    patterns@[k as int]@ == pattern,
                    k < PATTERN_COUNT,
                    patterns@.len() == PATTERN_COUNT,
                    sum == bucket_weight(self@.take(j as int), guess@, pattern),
                decreases n - j,
            {
                proof {
                    assert(self@.take(j + 1).drop_last() =~= self@.take(j as int));
                    assert(self@.take(j + 1).last() == self@[j as int]);
                    bucket_within_total(self@.take(j + 1), guess@, pattern);
                    prefix_within_total(self@, j + 1);
                }
                if same_pattern(&given[j], &patterns[k]) {
                    sum = sum + self.remaining[j].1;
                }
                j = j + 1;
            }
            proof {
                assert(self@.take(n as int) =~= self@);
            }
            out.push(sum);
            k = k + 1;
        }
        out
    }
}

} // verus!
