use passgen::entropy::{tally, Estimate, SAFETY_MARGIN_PERCENT, SAMPLES};
use passgen::symbol::Symbols;
use passgen::validate::Validator;

fn strings(items: &[&str]) -> Vec<String> {
    items.iter().map(|s| s.to_string()).collect()
}

/// The number of bits that an estimate stands for.
fn bits(e: &Estimate) -> f64 {
    match *e {
        Estimate::Zero => 0.0,
        Estimate::Full { symbols, length } => (length as f64) * (symbols as f64).log2(),
        Estimate::Sampled { symbols, length, accepted, samples } => {
            let base = (length as f64) * (symbols as f64).log2();
            let rate = (accepted as f64) / (samples as f64);
            let margin = (SAFETY_MARGIN_PERCENT as f64) / 100.0;
            (base + rate.log2() - margin.log2()).max(0.0)
        }
    }
}

#[test]
fn the_design_constants_are_as_documented() {
    assert_eq!(SAMPLES, 100_000);
    assert_eq!(SAFETY_MARGIN_PERCENT, 105);
    assert_eq!((SAFETY_MARGIN_PERCENT as f64) / 100.0, 1.05);
}

#[test]
fn base_entropy_is_length_times_log2_of_size() {
    let set = Symbols::from_chars("abcdefgh".chars());
    for n in 1..20usize {
        let e = set.base_entropy(n);
        assert_eq!(e, Estimate::Full { symbols: 8, length: n });
        assert!((bits(&e) - (n as f64) * 3.0).abs() < 1e-9);
    }
    let ten = Symbols::from_chars("0123456789".chars());
    let e = ten.base_entropy(4);
    assert_eq!(e, Estimate::Full { symbols: 10, length: 4 });
    assert!((bits(&e) - 4.0 * 10f64.log2()).abs() < 1e-9);
}

#[test]
fn base_entropy_is_zero_where_nothing_is_chosen() {
    let empty = Symbols::from_vec(Vec::new());
    assert_eq!(empty.base_entropy(5), Estimate::Zero);
    let one = Symbols::from_vec(strings(&["only"]));
    assert_eq!(one.base_entropy(5), Estimate::Zero);
    let two = Symbols::from_vec(strings(&["a", "b"]));
    assert_eq!(two.base_entropy(0), Estimate::Zero);
    assert_eq!(bits(&Estimate::Zero), 0.0);
}

#[test]
fn tally_is_zero_without_an_accepted_sample() {
    assert_eq!(tally(26, 8, 0), Estimate::Zero);
    assert_eq!(
        tally(26, 8, 1),
        Estimate::Sampled { symbols: 26, length: 8, accepted: 1, samples: 100_000 }
    );
    assert_eq!(
        tally(2, 3, 100_000),
        Estimate::Sampled { symbols: 2, length: 3, accepted: 100_000, samples: 100_000 }
    );
}

#[test]
fn estimate_with_always_accept_is_the_base_entropy() {
    let set = Symbols::from_chars("abcdefghijklmnopqrstuvwxyz".chars());
    for n in 0..12usize {
        let e = set.estimate_entropy(n, "-", &Validator::Always).unwrap();
        assert_eq!(e, set.base_entropy(n));
    }
    let empty = Symbols::from_vec(Vec::new());
    assert_eq!(empty.estimate_entropy(3, "", &Validator::Always).unwrap(), Estimate::Zero);
}

#[test]
fn estimate_of_two_characters_one_draw_is_one_bit() {
    let set = Symbols::from_chars("ab".chars());
    let e = set.estimate_entropy(1, "", &Validator::Always).unwrap();
    assert_eq!(e, Estimate::Full { symbols: 2, length: 1 });
    assert_eq!(bits(&e), 1.0);
}

#[test]
fn estimate_of_three_of_two_words_is_three_bits() {
    let set = Symbols::from_vec(strings(&["cat", "dog"]));
    let e = set.estimate_entropy(3, " ", &Validator::Always).unwrap();
    assert_eq!(e, Estimate::Full { symbols: 2, length: 3 });
    assert_eq!(bits(&e), 3.0);
}

#[test]
fn estimate_takes_the_cheap_path_where_the_cap_cannot_bite() {
    let set = Symbols::from_vec(strings(&["cat", "dog", "horse"]));
    // 3 * 5 + 2 * 1 = 17 bytes at most
    let e = set.estimate_entropy(3, " ", &Validator::MaxBytes(17)).unwrap();
    assert_eq!(e, Estimate::Full { symbols: 3, length: 3 });
    let sampled = set.estimate_entropy(3, " ", &Validator::MaxBytes(16)).unwrap();
    assert!(matches!(sampled, Estimate::Sampled { symbols: 3, length: 3, samples: 100_000, .. }));
}

#[test]
fn estimate_with_a_predicate_that_rejects_everything_is_zero() {
    let set = Symbols::from_vec(strings(&["cat", "dog"]));
    let e = set.estimate_entropy(2, " ", &Validator::MaxBytes(0)).unwrap();
    assert_eq!(e, Estimate::Zero);
    let never = Validator::Classes(vec![Vec::new()]);
    assert_eq!(set.estimate_entropy(2, " ", &never).unwrap(), Estimate::Zero);
}

#[test]
fn estimate_under_a_cap_below_the_shortest_sequence_is_zero() {
    let set = Symbols::from_vec(strings(&["alpha", "beta", "gamma"]));
    // the shortest sequence of two words is "beta beta": 9 bytes
    let e = set.estimate_entropy(2, " ", &Validator::MaxBytes(8)).unwrap();
    assert_eq!(e, Estimate::Zero);
    assert_eq!(bits(&e), 0.0);
}

#[test]
fn estimate_under_a_cap_that_bites_is_below_the_base_entropy() {
    let set = Symbols::from_vec(strings(&["a", "bb", "ccc", "dddd", "eeeee", "ffffff"]));
    let cap = Validator::MaxBytes(12);
    let base = bits(&set.base_entropy(4));
    let first = set.estimate_entropy(4, " ", &cap).unwrap();
    let second = set.estimate_entropy(4, " ", &cap).unwrap();
    match first {
        Estimate::Sampled { symbols, length, accepted, samples } => {
            assert_eq!((symbols, length, samples), (6, 4, 100_000));
            assert!(0 < accepted && accepted < samples);
        }
        other => panic!("{:?}", other),
    }
    assert!(bits(&first) < base);
    assert!(bits(&first) >= 0.0);
    assert!((bits(&first) - bits(&second)).abs() < 0.1);
}

#[test]
fn estimate_of_a_sampled_predicate_that_accepts_everything_counts_every_sample() {
    let set = Symbols::from_chars("ab".chars());
    let both = Validator::Classes(vec!["ab".chars().collect()]);
    let e = set.estimate_entropy(3, "", &both).unwrap();
    assert_eq!(e, Estimate::Sampled { symbols: 2, length: 3, accepted: 100_000, samples: 100_000 });
    assert!(bits(&e) < 3.0);
    assert!((bits(&e) - (3.0 - 1.05f64.log2())).abs() < 1e-9);
}

#[test]
fn a_narrower_predicate_does_not_gain_entropy() {
    let set = Symbols::from_vec(strings(&["a", "bb", "ccc", "dddd", "eeeee", "ffffff"]));
    let narrow = bits(&set.estimate_entropy(4, " ", &Validator::MaxBytes(10)).unwrap());
    let wide = bits(&set.estimate_entropy(4, " ", &Validator::MaxBytes(14)).unwrap());
    assert!(narrow <= wide + 0.1);
    let widest = bits(&set.estimate_entropy(4, " ", &Validator::Always).unwrap());
    assert!(wide <= widest + 0.1);
}

#[test]
fn a_sampled_estimate_is_never_below_zero() {
    let set = Symbols::from_chars("ab".chars());
    // only "a" passes: half of the samples, and the margin takes the rest
    let e = set.estimate_entropy(1, "", &Validator::Classes(vec![vec!['a']])).unwrap();
    assert!(matches!(e, Estimate::Sampled { symbols: 2, length: 1, .. }));
    assert_eq!(bits(&e), 0.0);
}

#[test]
fn estimate_with_a_predicate_of_ones_own_counts_what_it_accepts() {
    let set = Symbols::from_chars("ab".chars());
    let always = |_: &str| true;
    let e = set.estimate_entropy_with(3, "", &always).unwrap();
    assert_eq!(e, Estimate::Sampled { symbols: 2, length: 3, accepted: 100_000, samples: 100_000 });
    let never = |_: &str| false;
    assert_eq!(set.estimate_entropy_with(3, "", &never).unwrap(), Estimate::Zero);
    let starts_with_a = |s: &str| s.starts_with('a');
    match set.estimate_entropy_with(3, "", &starts_with_a).unwrap() {
        Estimate::Sampled { symbols: 2, length: 3, accepted, samples: 100_000 } => {
            assert!(45_000 < accepted && accepted < 55_000);
        }
        other => panic!("{:?}", other),
    }
}

#[test]
fn estimate_with_a_predicate_of_ones_own_is_zero_where_the_base_is() {
    let one = Symbols::from_vec(strings(&["only"]));
    let always = |_: &str| true;
    assert_eq!(one.estimate_entropy_with(5, " ", &always).unwrap(), Estimate::Zero);
    let two = Symbols::from_chars("ab".chars());
    assert_eq!(two.estimate_entropy_with(0, " ", &always).unwrap(), Estimate::Zero);
}

#[test]
fn estimate_with_agrees_with_the_validator_it_stands_for() {
    let set = Symbols::from_vec(strings(&["a", "bb", "ccc", "dddd", "eeeee", "ffffff"]));
    let cap = Validator::MaxBytes(12);
    let by_rule = bits(&set.estimate_entropy(4, " ", &cap).unwrap());
    let by_closure = bits(&set.estimate_entropy_with(4, " ", &|s: &str| cap.validate(s)).unwrap());
    assert!((by_rule - by_closure).abs() < 0.1);
}
