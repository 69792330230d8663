use passgen::args::{Args, Mode, Verdict, DEFAULT_MAX_LEN};
use passgen::entropy::{Estimate, SAFETY_MARGIN_PERCENT};
use passgen::err::ErrorKind;
use passgen::symbol::Symbols;
use passgen::validate::Validator;

fn bits(e: &Estimate) -> f64 {
    match *e {
        Estimate::Zero => 0.0,
        Estimate::Full { symbols, length } => (length as f64) * (symbols as f64).log2(),
        Estimate::Sampled { symbols, length, accepted, samples } => {
            let base = (length as f64) * (symbols as f64).log2();
            let rate = (accepted as f64) / (samples as f64);
            let margin = (SAFETY_MARGIN_PERCENT as f64) / 100.0;
            (base + rate.log2() - margin.log2()).max(0.0)
        }
    }
}

fn first_length(target: f64) -> impl Fn(&Estimate) -> usize {
    move |one: &Estimate| (target / bits(one)).ceil() as usize
}

fn judge(target: f64) -> impl Fn(&Estimate) -> Verdict {
    move |e: &Estimate| {
        let b = bits(e);
        if b == 0.0 {
            Verdict::Zero
        } else if b >= target {
            Verdict::Meets
        } else {
            Verdict::Below
        }
    }
}

fn args() -> Args {
    Args {
        mode: Mode::Chars,
        lower: false,
        capital: false,
        digit: false,
        all_symbols: false,
        symbols: None,
        non_appear: false,
        sep: " ".to_string(),
        length: None,
        max_len: DEFAULT_MAX_LEN,
        hash: false,
        count: 1,
        max_tries: 1_000_000,
    }
}

const WORDS: &[u8] = b"alpha\nbravo\ncharlie\ndelta\necho\nfoxtrot\ngolf\nhotel\n";

#[test]
fn mode_names_are_those_of_the_command_line() {
    assert_eq!(Mode::Chars.name(), "chars");
    assert_eq!(Mode::BasicWords.name(), "basic-words");
    assert_eq!(Mode::Diceware.name(), "diceware");
    assert_eq!(Mode::DicewareAlnum.name(), "diceware-alnum");
}

#[test]
fn word_modes_name_their_word_list() {
    assert_eq!(Mode::Chars.word_list(), None);
    assert_eq!(Mode::BasicWords.word_list(), Some("basic-words.txt"));
    assert_eq!(Mode::Diceware.word_list(), Some("diceware.txt"));
    assert_eq!(Mode::DicewareAlnum.word_list(), Some("diceware-alnum.txt"));
}

#[test]
fn the_default_cap_is_72_bytes() {
    assert_eq!(DEFAULT_MAX_LEN, 72);
}

#[test]
fn classes_follow_the_switches_in_order() {
    let mut a = args();
    assert!(a.classes().is_empty());
    a.lower = true;
    a.digit = true;
    let groups = a.classes();
    assert_eq!(groups.len(), 2);
    assert_eq!(groups[0].iter().collect::<String>(), "abcdefghijklmnopqrstuvwxyz");
    assert_eq!(groups[1].iter().collect::<String>(), "0123456789");
    a.capital = true;
    a.all_symbols = true;
    a.symbols = Some("xyz".to_string());
    let all = a.classes();
    assert_eq!(all.len(), 4);
    assert_eq!(all[1].iter().collect::<String>(), "ABCDEFGHIJKLMNOPQRSTUVWXYZ");
    assert_eq!(all[3].iter().collect::<String>(), "!\"#$%&'()*+,-./:;<=>?@[\\]^_`{|}~");
    assert_eq!(all[3].len(), 32);
}

#[test]
fn given_symbols_are_a_class_unless_all_punctuation_is_used() {
    let mut a = args();
    a.symbols = Some("+-".to_string());
    let groups = a.classes();
    assert_eq!(groups, vec![vec!['+', '-']]);
    a.symbols = Some(String::new());
    assert_eq!(a.classes(), vec![Vec::<char>::new()]);
}

#[test]
fn alphabet_is_the_classes_one_after_the_other() {
    let groups: Vec<Vec<char>> = vec!["ab".chars().collect(), Vec::new(), "01a".chars().collect()];
    assert_eq!(Args::alphabet(&groups), vec!['a', 'b', '0', '1', 'a']);
    assert_eq!(Args::alphabet(&Vec::new()), Vec::<char>::new());
}

#[test]
fn char_validator_waives_the_classes_on_request() {
    let mut a = args();
    let groups: Vec<Vec<char>> = vec!["ab".chars().collect()];
    let strict = a.char_validator(groups.clone());
    assert!(strict.validate("xa"));
    assert!(!strict.validate("xy"));
    a.non_appear = true;
    let lax = a.char_validator(groups);
    assert!(lax.validate("xy"));
}

#[test]
fn char_mode_without_a_class_fails() {
    let a = args();
    let err = a.char_mode(&first_length(40.0), &judge(40.0)).unwrap_err();
    assert_eq!(err.kind(), ErrorKind::EmptySymbolSet);
    assert_eq!(err.message(), "No characters.");
}

#[test]
fn char_mode_of_fixed_length_holds_every_class() {
    let mut a = args();
    a.lower = true;
    a.digit = true;
    a.length = Some(12);
    for _ in 0..20 {
        let s = a.char_mode(&first_length(40.0), &judge(40.0)).unwrap();
        assert_eq!(s.len(), 12);
        assert!(s.chars().all(|c| c.is_ascii_lowercase() || c.is_ascii_digit()));
        assert!(s.chars().any(|c| c.is_ascii_lowercase()));
        assert!(s.chars().any(|c| c.is_ascii_digit()));
    }
}

#[test]
fn char_mode_finds_the_least_length_that_meets_the_target() {
    let mut a = args();
    a.lower = true;
    a.non_appear = true;
    // log2(26) is about 4.70 bits: 9 letters are needed for 40 bits
    let s = a.char_mode(&first_length(40.0), &judge(40.0)).unwrap();
    assert_eq!(s.len(), 9);
    assert!(s.chars().all(|c| c.is_ascii_lowercase()));
}

#[test]
fn char_mode_goes_beyond_the_first_length_where_classes_cost_entropy() {
    let mut a = args();
    a.lower = true;
    a.capital = true;
    a.digit = true;
    a.all_symbols = true;
    // 94 characters: 6.55 bits each, and 52.44 bits for 8 of them
    let s = a.char_mode(&first_length(52.0), &judge(52.0)).unwrap();
    assert!(s.len() == 8 || s.len() == 9);
    assert!(s.chars().any(|c| c.is_ascii_lowercase()));
    assert!(s.chars().any(|c| c.is_ascii_uppercase()));
    assert!(s.chars().any(|c| c.is_ascii_digit()));
    assert!(s.chars().any(|c| c.is_ascii_punctuation()));
}

#[test]
fn char_mode_with_an_empty_class_can_never_be_met() {
    let mut a = args();
    a.lower = true;
    a.symbols = Some(String::new());
    a.length = Some(8);
    let err = a.char_mode(&first_length(40.0), &judge(40.0)).unwrap_err();
    assert_eq!(err.kind(), ErrorKind::ImpossibleConstraint);
    assert_eq!(err.message(), "It is impossible to meet the conditions.");
}

#[test]
fn words_mode_joins_words_by_the_separator() {
    let mut a = args();
    a.mode = Mode::BasicWords;
    a.sep = "-".to_string();
    a.length = Some(3);
    let s = a.words_mode(WORDS, &first_length(8.0), &judge(8.0)).unwrap();
    let parts: Vec<&str> = s.split('-').collect();
    assert_eq!(parts.len(), 3);
    let words = String::from_utf8(WORDS.to_vec()).unwrap();
    for p in parts {
        assert!(words.lines().any(|w| w == p));
    }
}

#[test]
fn words_mode_finds_the_least_length_that_meets_the_target() {
    let mut a = args();
    a.mode = Mode::Diceware;
    // eight words: 3 bits each, 4 words for 12 bits
    let s = a.words_mode(WORDS, &first_length(12.0), &judge(12.0)).unwrap();
    assert_eq!(s.split(' ').count(), 4);
    assert!(s.len() <= 72);
}

#[test]
fn words_mode_keeps_to_the_cap() {
    let mut a = args();
    a.mode = Mode::Diceware;
    a.length = Some(3);
    a.max_len = 15;
    for _ in 0..50 {
        let s = a.words_mode(WORDS, &first_length(8.0), &judge(8.0)).unwrap();
        assert!(s.len() <= 15);
        assert_eq!(s.split(' ').count(), 3);
    }
}

#[test]
fn words_mode_under_a_cap_below_the_shortest_sequence_can_never_be_met() {
    let mut a = args();
    a.mode = Mode::Diceware;
    a.max_len = 5;
    let err = a.words_mode(WORDS, &first_length(12.0), &judge(12.0)).unwrap_err();
    assert_eq!(err.kind(), ErrorKind::ImpossibleConstraint);
    assert_eq!(err.message(), "Never met entropy requirement.");
    a.length = Some(2);
    let fixed = a.words_mode(WORDS, &first_length(12.0), &judge(12.0)).unwrap_err();
    assert_eq!(fixed.kind(), ErrorKind::ImpossibleConstraint);
    assert_eq!(fixed.message(), "It is impossible to meet the conditions.");
}

#[test]
fn words_mode_of_a_list_that_is_not_text_fails() {
    let mut a = args();
    a.mode = Mode::Diceware;
    let err = a.words_mode(b"alpha\n\xff\n", &first_length(12.0), &judge(12.0)).unwrap_err();
    assert_eq!(err.kind(), ErrorKind::Io);
}

#[test]
fn words_mode_of_an_empty_list_can_never_be_met() {
    let mut a = args();
    a.mode = Mode::Diceware;
    let err = a.words_mode(b"", &first_length(12.0), &judge(12.0)).unwrap_err();
    assert_eq!(err.kind(), ErrorKind::ImpossibleConstraint);
}

#[test]
fn generate_of_fixed_length_returns_that_length() {
    let mut a = args();
    a.length = Some(5);
    let set = Symbols::from_chars("01".chars());
    let s = a.generate(&set, "", &Validator::Always, &first_length(3.0), &judge(3.0)).unwrap();
    assert_eq!(s.len(), 5);
    assert!(s.chars().all(|c| c == '0' || c == '1'));
}

#[test]
fn generate_of_fixed_length_fails_where_the_estimate_is_zero() {
    let mut a = args();
    a.length = Some(0);
    let set = Symbols::from_chars("01".chars());
    let err =
        a.generate(&set, "", &Validator::Always, &first_length(3.0), &judge(3.0)).unwrap_err();
    assert_eq!(err.kind(), ErrorKind::ImpossibleConstraint);
    a.length = Some(4);
    let one = Symbols::from_chars("0".chars());
    let err =
        a.generate(&one, "", &Validator::Always, &first_length(3.0), &judge(3.0)).unwrap_err();
    assert_eq!(err.kind(), ErrorKind::ImpossibleConstraint);
}

#[test]
fn generate_searches_upwards_from_the_first_length() {
    let a = args();
    let set = Symbols::from_chars("01".chars());
    let from_three = |_: &Estimate| 3usize;
    let at_least_five = |e: &Estimate| match e {
        Estimate::Full { length, .. } if *length >= 5 => Verdict::Meets,
        Estimate::Zero => Verdict::Zero,
        _ => Verdict::Below,
    };
    let s = a.generate(&set, "", &Validator::Always, &from_three, &at_least_five).unwrap();
    assert_eq!(s.len(), 5);
    let from_seven = |_: &Estimate| 7usize;
    let s = a.generate(&set, "", &Validator::Always, &from_seven, &at_least_five).unwrap();
    assert_eq!(s.len(), 7);
}

#[test]
fn generate_stops_where_no_length_is_left() {
    let a = args();
    let set = Symbols::from_chars("01".chars());
    let from_the_end = |_: &Estimate| usize::MAX;
    let never = |_: &Estimate| Verdict::Below;
    let err = a.generate(&set, "", &Validator::Always, &from_the_end, &never).unwrap_err();
    assert_eq!(err.kind(), ErrorKind::ImpossibleConstraint);
    assert_eq!(err.message(), "Never met entropy requirement.");
}

#[test]
fn generate_hands_on_the_limit_of_draws() {
    let mut a = args();
    a.length = Some(2);
    a.max_tries = 0;
    let set = Symbols::from_chars("01".chars());
    let err =
        a.generate(&set, "", &Validator::Always, &first_length(1.0), &judge(1.0)).unwrap_err();
    assert_eq!(err.kind(), ErrorKind::RetriesExhausted);
}

#[test]
fn run_once_in_character_mode_puts_out_a_secret() {
    let mut a = args();
    a.digit = true;
    a.length = Some(6);
    let line = a.run_once(b"", &first_length(10.0), &judge(10.0)).unwrap();
    assert_eq!(line.len(), 6);
    assert!(line.chars().all(|c| c.is_ascii_digit()));
}

#[test]
fn run_once_in_a_word_mode_reads_the_word_list() {
    let mut a = args();
    a.mode = Mode::DicewareAlnum;
    a.lower = true;
    a.length = Some(2);
    a.sep = "+".to_string();
    let line = a.run_once(WORDS, &first_length(6.0), &judge(6.0)).unwrap();
    assert_eq!(line.split('+').count(), 2);
    assert!(line.split('+').all(|w| WORDS.split(|b| *b == b'\n').any(|l| l == w.as_bytes())));
}

#[test]
fn run_once_adds_the_hash_on_request() {
    let mut a = args();
    a.digit = true;
    a.length = Some(6);
    a.hash = true;
    let line = a.run_once(b"", &first_length(10.0), &judge(10.0)).unwrap();
    let (secret, hash) = line.split_once('\t').unwrap();
    assert_eq!(secret.len(), 6);
    assert!(pwhash::sha512_crypt::verify(secret, hash));
}

#[test]
fn run_once_fails_as_its_mode_does() {
    let a = args();
    let err = a.run_once(WORDS, &first_length(10.0), &judge(10.0)).unwrap_err();
    assert_eq!(err.kind(), ErrorKind::EmptySymbolSet);
    let mut w = args();
    w.mode = Mode::BasicWords;
    let err = w.run_once(b"\xff", &first_length(10.0), &judge(10.0)).unwrap_err();
    assert_eq!(err.kind(), ErrorKind::Io);
}

#[test]
fn a_search_under_a_cap_below_the_shortest_sequence_is_never_met() {
    let a = args();
    let set = Symbols::from_vec(vec!["cat".to_string(), "dog".to_string()]);
    let err = a
        .generate(&set, " ", &Validator::MaxBytes(2), &first_length(10.0), &judge(10.0))
        .unwrap_err();
    assert_eq!(err.kind(), ErrorKind::ImpossibleConstraint);
    assert_eq!(err.message(), "Never met entropy requirement.");
}

#[test]
fn a_search_for_three_bits_over_two_characters_takes_three() {
    let a = args();
    let set = Symbols::from_chars("ab".chars());
    for _ in 0..20 {
        let s = a
            .generate(&set, "", &Validator::Always, &first_length(3.0), &judge(3.0))
            .unwrap();
        assert_eq!(s.len(), 3);
        assert!(s.chars().all(|c| c == 'a' || c == 'b'));
    }
}

#[test]
fn a_fixed_length_at_which_everything_is_rejected_is_impossible() {
    let mut a = args();
    a.length = Some(2);
    let set = Symbols::from_chars("ab".chars());
    let never = Validator::Classes(vec![Vec::new()]);
    let err = a.generate(&set, "", &never, &first_length(1.0), &judge(1.0)).unwrap_err();
    assert_eq!(err.kind(), ErrorKind::ImpossibleConstraint);
    assert_eq!(err.message(), "It is impossible to meet the conditions.");
}

#[test]
fn char_mode_of_one_character_cannot_hold_two_classes() {
    let mut a = args();
    a.lower = true;
    a.digit = true;
    a.length = Some(1);
    let err = a.char_mode(&first_length(71.45), &judge(71.45)).unwrap_err();
    assert_eq!(err.kind(), ErrorKind::ImpossibleConstraint);
    assert_eq!(err.message(), "It is impossible to meet the conditions.");
}

#[test]
fn char_mode_with_only_an_empty_class_has_no_characters() {
    let mut a = args();
    a.symbols = Some(String::new());
    let err = a.char_mode(&first_length(71.45), &judge(71.45)).unwrap_err();
    assert_eq!(err.kind(), ErrorKind::EmptySymbolSet);
    assert_eq!(err.message(), "No characters.");
}

#[test]
fn words_mode_under_a_cap_of_nothing_is_never_met() {
    let mut a = args();
    a.mode = Mode::Diceware;
    a.max_len = 0;
    let err = a.words_mode(WORDS, &first_length(71.45), &judge(71.45)).unwrap_err();
    assert_eq!(err.kind(), ErrorKind::ImpossibleConstraint);
    assert_eq!(err.message(), "Never met entropy requirement.");
}

#[test]
fn words_mode_of_a_list_that_is_not_text_says_so() {
    let mut a = args();
    a.mode = Mode::Diceware;
    let err = a.words_mode(b"ok\n\xff\n", &first_length(12.0), &judge(12.0)).unwrap_err();
    assert_eq!(err.kind(), ErrorKind::Io);
    assert_eq!(err.message(), "stream did not contain valid UTF-8");
}
