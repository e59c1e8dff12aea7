use roget::algorithms::Naive;
use roget::dictionary::{parse_count, parse_entry};
use roget::game::Turn;
use roget::{Correctness, Guess, Guesser, Rejection, Wordle};

struct Fixed(&'static str);

impl Guesser for Fixed {
    fn guess(&mut self, _history: &[Guess]) -> String {
        self.0.to_string()
    }
}

struct Entropy(Naive);

impl Guesser for Entropy {
    fn guess(&mut self, history: &[Guess]) -> String {
        if let Some(w) = self.0.observe(history) {
            return w;
        }
        let total = self.0.total_weight() as f64;
        let mut best: Option<(usize, f64)> = None;
        for i in 0..self.0.len() {
            let weights = self.0.pattern_weights(self.0.word(i));
            let mut sum = 0.0;
            for w in weights {
                if w == 0 {
                    continue;
                }
                let p = w as f64 / total;
                sum += p * p.log2();
            }
            let goodness = 0.0 - sum;
            match best {
                Some((_, g)) if goodness <= g => {}
                _ => best = Some((i, goodness)),
            }
        }
        self.0.word(best.unwrap().0).clone()
    }
}

fn words(ws: &[&str]) -> Vec<String> {
    ws.iter().map(|w| w.to_string()).collect()
}

#[test]
fn play() {
    let w = Wordle::new(Vec::new());
    let guesser = Fixed("moved");
    assert_eq!(w.play("moved", guesser), Ok(Some(1)));
}

#[test]
fn word_outside_dictionary_ends_game() {
    let w = Wordle::new(words(&["abcde"]));
    assert_eq!(
        w.play("moved", Fixed("zzzzz")),
        Err(Rejection { round: 1, word: "zzzzz".to_string() })
    );
}

#[test]
fn wrong_guesses_run_out_of_rounds() {
    let w = Wordle::new(words(&["abcde"]));
    assert_eq!(w.play("moved", Fixed("abcde")), Ok(None));
    let mut history = Vec::new();
    let mut guesser = Fixed("abcde");
    assert_eq!(w.play_recorded("moved", &mut guesser, &mut history), Ok(None));
    assert_eq!(history.len(), 32);
    assert_eq!(history[31].mask, Correctness::compute("moved", "abcde"));
}

#[test]
fn judge_scores_dictionary_words() {
    let w = Wordle::new(words(&["abcde", "moved"]));
    let answer = "moved".to_string();
    assert!(matches!(w.judge(&answer, "moved".to_string()), Turn::Solved));
    assert!(matches!(w.judge(&answer, "zzzzz".to_string()), Turn::Rejected(_)));
    match w.judge(&answer, "abcde".to_string()) {
        Turn::Scored(g) => {
            assert_eq!(g.word, "abcde");
            assert_eq!(g.mask, Correctness::compute("moved", "abcde"));
        }
        _ => panic!("expected a scored guess"),
    }
    assert!(w.contains(&"abcde".to_string()));
    assert!(!w.contains(&"tares".to_string()));
}

#[test]
fn entropy_solver_end_to_end() {
    let pool = vec![("abcde".to_string(), 1u64), ("fghij".to_string(), 1u64)];
    let mut naive = Naive::new(pool.clone());
    assert_eq!(naive.observe(&[]), Some("tares".to_string()));
    assert_eq!(naive.len(), 2);
    let g = Guess { word: "tares".to_string(), mask: Correctness::compute("abcde", "tares") };
    assert_eq!(naive.observe(&[g]), None);
    assert_eq!(naive.len(), 1);
    assert_eq!(naive.word(0), "abcde");
    assert_eq!(naive.weight(0), 1);

    let w = Wordle::new(words(&["tares", "abcde", "fghij"]));
    assert_eq!(w.play("abcde", Entropy(Naive::new(pool))), Ok(Some(2)));
}

#[test]
fn filtering_never_grows_pool() {
    let pool = vec![
        ("abcde".to_string(), 3u64),
        ("fghij".to_string(), 1u64),
        ("abcdf".to_string(), 2u64),
    ];
    let mut naive = Naive::new(pool);
    let g = Guess { word: "abcde".to_string(), mask: [Correctness::Correct; 5] };
    naive.retain_matching(&g);
    assert_eq!(naive.len(), 1);
    assert_eq!(naive.total_weight(), 3);
    let g = Guess { word: "abcde".to_string(), mask: [Correctness::Wrong; 5] };
    naive.retain_matching(&g);
    assert_eq!(naive.len(), 0);
    assert_eq!(naive.total_weight(), 0);
}

#[test]
fn pattern_weights_add_up_per_bucket() {
    let pool = vec![
        ("abcde".to_string(), 1u64),
        ("fghij".to_string(), 2u64),
        ("fghik".to_string(), 4u64),
    ];
    let naive = Naive::new(pool);
    assert_eq!(naive.total_weight(), 7);
    let weights = naive.pattern_weights("abcde");
    assert_eq!(weights.len(), 243);
    assert_eq!(weights[0], 1);
    assert_eq!(weights[121], 6);
    assert_eq!(weights.iter().sum::<u64>(), 7);
    let weights = naive.pattern_weights("fghij");
    assert_eq!(weights[0], 2);
    assert_eq!(weights[1], 4);
    assert_eq!(weights[121], 1);
}

#[test]
fn single_word_pool_fills_one_bucket() {
    let pool = vec![("abcde".to_string(), 5u64)];
    let naive = Naive::new(pool);
    let weights = naive.pattern_weights("abcde");
    let nonzero: Vec<u64> = weights.into_iter().filter(|w| *w > 0).collect();
    assert_eq!(nonzero, vec![5]);
}

#[test]
fn parses_dictionary_lines() {
    assert_eq!(parse_entry("moved 1234"), Some(("moved".to_string(), 1234)));
    assert_eq!(parse_entry("moved 0"), Some(("moved".to_string(), 0)));
    assert_eq!(parse_entry("moved"), None);
    assert_eq!(parse_entry("move 12"), None);
    assert_eq!(parse_entry("moved x1"), None);
    assert_eq!(parse_entry("moved "), None);
    assert_eq!(parse_count("18446744073709551615"), Some(u64::MAX));
    assert_eq!(parse_count("18446744073709551616"), None);
    assert_eq!(parse_count("42"), Some(42));
    assert_eq!(parse_count(""), None);
}

#[test]
fn duplicate_words_keep_last_frequency() {
    let pool = vec![
        ("abcde".to_string(), 1u64),
        ("fghij".to_string(), 2u64),
        ("abcde".to_string(), 5u64),
    ];
    let naive = Naive::new(pool);
    assert_eq!(naive.len(), 2);
    assert_eq!(naive.word(0), "abcde");
    assert_eq!(naive.weight(0), 5);
    assert_eq!(naive.word(1), "fghij");
    assert_eq!(naive.weight(1), 2);
    assert_eq!(naive.total_weight(), 7);
    assert_eq!(naive.pattern_weights("abcde")[0], 5);
}

#[test]
fn answer_wins_before_dictionary_check() {
    let w = Wordle::new(words(&["abcde"]));
    let mut history = Vec::new();
    let mut guesser = Fixed("moved");
    assert_eq!(w.play_recorded("moved", &mut guesser, &mut history), Ok(Some(1)));
    assert!(history.is_empty());
}
