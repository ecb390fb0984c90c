use xkcdpwgen::assembler::{assemble, sample_positions, select_words};
use xkcdpwgen::config::Config;
use xkcdpwgen::random::RandomProvider;
use xkcdpwgen::source::{PhraseError, WordSource};
use xkcdpwgen::text::join_tokens;

fn word_vec(parts: &[&str]) -> Vec<String> {
    parts.iter().map(|p| p.to_string()).collect()
}

const DIGITS: &str = "0123456789";
const SYMBOLS: &str = "~!@#$%^&*.:;";

#[test]
fn token_count_matches_configuration() {
    let cfg = Config::build(4, 2, 3, 1, false, false);
    let mut src = WordSource::dictionary(word_vec(&["alpha", "bravo", "charlie"]));
    let mut rng = RandomProvider::system();
    let tokens = assemble(cfg, &mut src, &mut rng).unwrap();
    assert_eq!(tokens.len(), 4 + 3 + 1);
}

#[test]
fn zero_words_yields_only_insertions() {
    let cfg = Config::build(0, 0, 2, 3, false, false);
    let mut src = WordSource::dictionary(Vec::new());
    let mut rng = RandomProvider::system();
    let tokens = assemble(cfg, &mut src, &mut rng).unwrap();
    assert_eq!(tokens.len(), 5);
    for t in &tokens {
        assert_eq!(t.chars().count(), 1);
        let c = t.chars().next().unwrap();
        assert!(DIGITS.contains(c) || SYMBOLS.contains(c));
    }
}

#[test]
fn phrase_errors_have_messages() {
    assert_eq!(
        PhraseError::EmptyDictionary.message(),
        "the word list has no entries"
    );
    assert_eq!(
        PhraseError::SourceUnavailable.message(),
        "the word list could not be read"
    );
}

#[test]
fn empty_dictionary_fails_when_words_needed() {
    let cfg = Config::build(1, 0, 0, 0, false, false);
    let mut src = WordSource::dictionary(Vec::new());
    let mut rng = RandomProvider::system();
    assert_eq!(
        assemble(cfg, &mut src, &mut rng).unwrap_err(),
        PhraseError::EmptyDictionary
    );
}

#[test]
fn capitalization_touches_exactly_the_requested_count() {
    let cfg = Config::build(6, 4, 0, 0, false, false);
    let mut src = WordSource::dictionary(word_vec(&["echo"]));
    let mut rng = RandomProvider::system();
    let tokens = assemble(cfg, &mut src, &mut rng).unwrap();
    assert_eq!(tokens.len(), 6);
    let capitalized = tokens.iter().filter(|t| t.as_str() == "Echo").count();
    let untouched = tokens.iter().filter(|t| t.as_str() == "echo").count();
    assert_eq!(capitalized, 4);
    assert_eq!(untouched, 2);
}

#[test]
fn caps_equal_to_words_capitalizes_all() {
    let cfg = Config::build(5, 5, 0, 0, false, false);
    let mut src = WordSource::dictionary(word_vec(&["kilo"]));
    let mut rng = RandomProvider::system();
    let tokens = assemble(cfg, &mut src, &mut rng).unwrap();
    for t in &tokens {
        assert_eq!(t.as_str(), "Kilo");
    }
}

#[test]
fn inserted_tokens_come_from_the_alphabets() {
    let cfg = Config::build(2, 0, 10, 10, false, false);
    let mut src = WordSource::dictionary(word_vec(&["x"]));
    let mut rng = RandomProvider::system();
    let tokens = assemble(cfg, &mut src, &mut rng).unwrap();
    let mut digits = 0;
    let mut symbols = 0;
    let mut words = 0;
    for t in &tokens {
        if t.as_str() == "x" {
            words += 1;
        } else {
            assert_eq!(t.chars().count(), 1);
            let c = t.chars().next().unwrap();
            if DIGITS.contains(c) {
                digits += 1;
            } else {
                assert!(SYMBOLS.contains(c));
                symbols += 1;
            }
        }
    }
    assert_eq!(words, 2);
    assert_eq!(digits, 10);
    assert_eq!(symbols, 10);
}

#[test]
fn end_to_end_scripted_example() {
    // Three words, one capitalization landing on position 1, one digit `7`
    // inserted at position 3, no symbols.
    let cfg = Config::build(3, 1, 1, 0, false, false);
    let mut src = WordSource::scripted(word_vec(&["correct", "horse", "battery"]));
    let mut rng = RandomProvider::scripted(vec![1, 3, 7]);
    let tokens = assemble(cfg, &mut src, &mut rng).unwrap();
    assert_eq!(tokens, word_vec(&["correct", "Horse", "battery", "7"]));
    assert_eq!(join_tokens(&tokens), "correctHorsebattery7");
}

#[test]
fn scripted_runs_are_deterministic() {
    let cfg = Config::build(4, 2, 3, 2, false, false);
    let script: Vec<u64> = vec![9, 4, 17, 0, 3, 11, 2, 8, 1, 6, 5];
    let dict = &["one", "two", "three"];
    let mut src1 = WordSource::scripted(word_vec(dict));
    let mut rng1 = RandomProvider::scripted(script.clone());
    let first = join_tokens(&assemble(cfg, &mut src1, &mut rng1).unwrap());
    let mut src2 = WordSource::scripted(word_vec(dict));
    let mut rng2 = RandomProvider::scripted(script);
    let second = join_tokens(&assemble(cfg, &mut src2, &mut rng2).unwrap());
    assert_eq!(first, second);
}

#[test]
fn scripted_source_cycles_in_order() {
    let cfg = Config::build(5, 0, 0, 0, false, false);
    let mut src = WordSource::scripted(word_vec(&["ping", "pong"]));
    let mut rng = RandomProvider::scripted(Vec::new());
    let tokens = assemble(cfg, &mut src, &mut rng).unwrap();
    assert_eq!(tokens, word_vec(&["ping", "pong", "ping", "pong", "ping"]));
}

#[test]
fn scripted_provider_reduces_modulo_and_exhausts_to_zero() {
    let mut rng = RandomProvider::scripted(vec![10]);
    assert_eq!(rng.uniform_below(3), 1);
    // The script is exhausted: every further draw is zero.
    assert_eq!(rng.uniform_below(5), 0);
    assert_eq!(rng.uniform_upto(9), 0);
}

#[test]
fn system_draws_stay_in_range() {
    let mut rng = RandomProvider::system();
    for _ in 0..200 {
        assert!(rng.uniform_below(7) < 7);
        assert!(rng.uniform_upto(3) <= 3);
    }
}

#[test]
fn sampled_positions_are_distinct_and_in_range() {
    let mut rng = RandomProvider::system();
    for _ in 0..50 {
        let ps = sample_positions(5, 9, &mut rng);
        assert_eq!(ps.len(), 5);
        for (i, p) in ps.iter().enumerate() {
            assert!(*p < 9);
            for q in ps.iter().skip(i + 1) {
                assert_ne!(p, q);
            }
        }
    }
}

#[test]
fn selected_words_come_from_the_dictionary() {
    let dict = ["red", "green", "blue"];
    let mut src = WordSource::dictionary(word_vec(&dict));
    let mut rng = RandomProvider::system();
    let ws = select_words(40, &mut src, &mut rng).unwrap();
    assert_eq!(ws.len(), 40);
    for w in &ws {
        assert!(dict.contains(&w.as_str()));
    }
}
