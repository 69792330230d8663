//! What a run is asked for, and the secret that answers it.

use vstd::prelude::*;

use crate::crypt::{is_line_of, output_line};
use crate::entropy::Estimate;
use crate::err::{fails_with, Error, ErrorKind};
use crate::lines::{all_text, decoded, lines, not_text_message};
use crate::search::{
    catalogue_of, impossible_message, lemma_catalogue_of, lemma_owed_failure, lemma_owed_secret,
    never_met_message, Task,
};
use crate::symbol::{content, singles, Symbols};
use crate::validate::{class_texts, Rule, Validator};

verus! {

/// The longest secret, in bytes, that word modes put out by default.
pub const DEFAULT_MAX_LEN: usize = 72;

/// Where the symbols come from.
#[derive(Debug, Clone, Copy, PartialEq, Eq, Structural)]
pub enum Mode {
    /// Single characters of the chosen classes.
    Chars,
    /// The words of the basic word list.
    BasicWords,
    /// The words of the Diceware list.
    Diceware,
    /// The alphanumeric words of the Diceware list.
    DicewareAlnum,
}

impl Mode {
    /// The name of the mode, as it is written on the command line.
    pub open spec fn spec_name(&self) -> Seq<char> {
        match self {
            Mode::Chars => "chars"@,
            Mode::BasicWords => "basic-words"@,
            Mode::Diceware => "diceware"@,
            Mode::DicewareAlnum => "diceware-alnum"@,
        }
    }

    /// The file that holds the word list of the mode, if it has one.
    pub open spec fn spec_word_list(&self) -> Option<Seq<char>> {
        match self {
            Mode::Chars => None,
            Mode::BasicWords => Some("basic-words.txt"@),
            Mode::Diceware => Some("diceware.txt"@),
            Mode::DicewareAlnum => Some("diceware-alnum.txt"@),
        }
    }

    /// The file that holds the word list of the mode, if it has one.
    pub fn word_list(&self) -> (file: Option<&'static str>)
        ensures
            match file {
                Some(f) => self.spec_word_list() == Some(f@),
                None => self.spec_word_list() is None,
            },
    {
        match self {
            Mode::Chars => None,
            Mode::BasicWords => Some("basic-words.txt"),
            Mode::Diceware => Some("diceware.txt"),
            Mode::DicewareAlnum => Some("diceware-alnum.txt"),
        }
    }

    /// The name of the mode, as it is written on the command line.
    pub fn name(&self) -> (s: &'static str)
        ensures
            s@ == self.spec_name(),
    {
        match self {
            Mode::Chars => "chars",
            Mode::BasicWords => "basic-words",
            Mode::Diceware => "diceware",
            Mode::DicewareAlnum => "diceware-alnum",
        }
    }
}

/// How an estimate stands to the entropy that is asked for.
#[derive(Debug, Clone, Copy, PartialEq, Eq, Structural)]
pub enum Verdict {
    /// The estimate is zero bits.
    Zero,
    /// The estimate is above zero and below what is asked for.
    Below,
    /// The estimate is at least what is asked for.
    Meets,
}

/// The lower-case letters.
pub open spec fn lower_letters() -> Seq<char> {
    "abcdefghijklmnopqrstuvwxyz"@
}

/// The capital letters.
pub open spec fn capital_letters() -> Seq<char> {
    "ABCDEFGHIJKLMNOPQRSTUVWXYZ"@
}

/// The digits.
pub open spec fn digits() -> Seq<char> {
    "0123456789"@
}

/// The printable ASCII characters that are neither letters nor digits nor
/// the space.
pub open spec fn punctuation() -> Seq<char> {
    "!\"#$%&'()*+,-./:;<=>?@[\\]^_`{|}~"@
}

/// The message of the failure of character mode without a character.
pub open spec fn no_characters_message() -> Seq<char> {
    "No characters."@
}

/// The characters of a string.
fn chars_of(s: &str) -> (v: Vec<char>)
    ensures
        v@ == s@,
{
    let mut v: Vec<char> = Vec::new();
    for c in it: s.chars()
        invariant
            it.seq() == s@,
            v@ == s@.take(it.index() as int),
    {
        assert(s@.take(it.index() + 1) =~= s@.take(it.index() as int).push(c));
        v.push(c);
    }
    assert(s@.take(s@.len() as int) =~= s@);
    v
}

/// The settings of a run.
#[derive(Debug)]
pub struct Args {
    /// Where the symbols come from.
    pub mode: Mode,
    /// Use lower-case letters (character mode).
    pub lower: bool,
    /// Use capital letters (character mode).
    pub capital: bool,
    /// Use digits (character mode).
    pub digit: bool,
    /// Use all ASCII punctuation (character mode).
    pub all_symbols: bool,
    /// Use these characters, unless all punctuation is used (character mode).
    pub symbols: Option<String>,
    /// Accept a secret in which some class does not appear (character mode).
    pub non_appear: bool,
    /// What stands between two words (word modes).
    pub sep: String,
    /// The number of symbols, where it is fixed.
    pub length: Option<usize>,
    /// The most bytes that a secret may take (word modes).
    pub max_len: usize,
    /// Put out the crypt(3) hash beside the secret.
    pub hash: bool,
    /// The number of secrets to put out.
    pub count: usize,
    /// The most draws that may be rejected before a secret is given up.
    pub max_tries: usize,
}

impl Args {
    /// The classes of characters that are chosen, in the order in which
    /// they are asked about.
    pub open spec fn spec_classes(&self) -> Seq<Seq<char>> {
        (if self.lower {
            seq![lower_letters()]
        } else {
            seq![]
        }) + (if self.capital {
            seq![capital_letters()]
        } else {
            seq![]
        }) + (if self.digit {
            seq![digits()]
        } else {
            seq![]
        }) + (if self.all_symbols {
            seq![punctuation()]
        } else if let Some(s) = self.symbols {
            seq![s@]
        } else {
            seq![]
        })
    }

    /// The characters of the chosen classes, one class after the other.
    pub open spec fn spec_alphabet(&self) -> Seq<char> {
        self.spec_classes().flatten()
    }

    /// What character mode asks of a secret: every chosen class must
    /// appear, unless that is waived.
    pub open spec fn spec_char_rule(&self) -> Rule {
        if self.non_appear {
            Rule::Always
        } else {
            Rule::Classes(self.spec_classes())
        }
    }

    /// What character mode draws from: the characters of the alphabet, each
    /// a symbol of its own, with nothing between them, under the rule of
    /// the mode.
    pub open spec fn char_task(&self) -> Task {
        Task {
            symbols: catalogue_of(content(singles(self.spec_alphabet()))),
            sep: Seq::empty(),
            rule: self.spec_char_rule(),
        }
    }

    /// What a word mode draws from: the words of the list, with the
    /// separator between them, under the cap on the bytes.
    pub open spec fn word_task(&self, words: Seq<u8>) -> Task {
        Task {
            symbols: catalogue_of(content(decoded(lines(words)))),
            sep: self.sep@,
            rule: Rule::MaxBytes(self.max_len),
        }
    }

    /// `s` is a secret of character mode.
    pub open spec fn is_char_secret<F: Fn(&Estimate) -> usize, J: Fn(&Estimate) -> Verdict>(
        &self,
        first: &F,
        judge: &J,
        s: Seq<char>,
    ) -> bool {
        &&& self.spec_alphabet().len() > 0
        &&& self.char_task().is_secret(self.length, first, judge, s)
    }

    /// `e` is a failure of character mode: `EmptySymbolSet` where no
    /// character is chosen, and a failure of the request otherwise.
    pub open spec fn is_char_failure<F: Fn(&Estimate) -> usize, J: Fn(&Estimate) -> Verdict>(
        &self,
        first: &F,
        judge: &J,
        e: Error,
    ) -> bool {
        if self.spec_alphabet().len() == 0 {
            e.spec_kind() == ErrorKind::EmptySymbolSet && e.spec_message()
                == no_characters_message()
        } else {
            self.char_task().is_failure(self.length, self.max_tries, first, judge, e)
        }
    }

    /// `s` is a secret of a word mode.
    pub open spec fn is_word_secret<F: Fn(&Estimate) -> usize, J: Fn(&Estimate) -> Verdict>(
        &self,
        words: Seq<u8>,
        first: &F,
        judge: &J,
        s: Seq<char>,
    ) -> bool {
        &&& all_text(lines(words))
        &&& self.word_task(words).is_secret(self.length, first, judge, s)
    }

    /// `e` is a failure of a word mode: `Io` where the list is not text, and
    /// a failure of the request otherwise.
    pub open spec fn is_word_failure<F: Fn(&Estimate) -> usize, J: Fn(&Estimate) -> Verdict>(
        &self,
        words: Seq<u8>,
        first: &F,
        judge: &J,
        e: Error,
    ) -> bool {
        if !all_text(lines(words)) {
            e.spec_kind() == ErrorKind::Io && e.spec_message() == not_text_message()
        } else {
            self.word_task(words).is_failure(self.length, self.max_tries, first, judge, e)
        }
    }

    /// `s` is a secret of the mode that is set.
    pub open spec fn is_mode_secret<F: Fn(&Estimate) -> usize, J: Fn(&Estimate) -> Verdict>(
        &self,
        words: Seq<u8>,
        first: &F,
        judge: &J,
        s: Seq<char>,
    ) -> bool {
        if self.mode == Mode::Chars {
            self.is_char_secret(first, judge, s)
        } else {
            self.is_word_secret(words, first, judge, s)
        }
    }

    /// `e` is a failure of the mode that is set.
    pub open spec fn is_mode_failure<F: Fn(&Estimate) -> usize, J: Fn(&Estimate) -> Verdict>(
        &self,
        words: Seq<u8>,
        first: &F,
        judge: &J,
        e: Error,
    ) -> bool {
        if self.mode == Mode::Chars {
            self.is_char_failure(first, judge, e)
        } else {
            self.is_word_failure(words, first, judge, e)
        }
    }

    /// The mode that is set owes a secret: it has something to draw from,
    /// and its request owes one.
    pub open spec fn mode_owes_secret<F: Fn(&Estimate) -> usize, J: Fn(&Estimate) -> Verdict>(
        &self,
        words: Seq<u8>,
        first: &F,
        judge: &J,
    ) -> bool {
        if self.mode == Mode::Chars {
            self.spec_alphabet().len() > 0 && self.char_task().owes_secret(
                self.length,
                self.max_tries,
                first,
                judge,
            )
        } else {
            all_text(lines(words)) && self.word_task(words).owes_secret(
                self.length,
                self.max_tries,
                first,
                judge,
            )
        }
    }

    /// The classes of characters that are chosen, in the order in which
    /// they are asked about.
    pub fn classes(&self) -> (groups: Vec<Vec<char>>)
        ensures
            class_texts(groups@) == self.spec_classes(),
    {
        let mut groups: Vec<Vec<char>> = Vec::new();
        if self.lower {
            groups.push(chars_of("abcdefghijklmnopqrstuvwxyz"));
        }
        if self.capital {
            groups.push(chars_of("ABCDEFGHIJKLMNOPQRSTUVWXYZ"));
        }
        if self.digit {
            groups.push(chars_of("0123456789"));
        }
        if self.all_symbols {
            groups.push(chars_of("!\"#$%&'()*+,-./:;<=>?@[\\]^_`{|}~"));
        } else if let Some(s) = &self.symbols {
            groups.push(chars_of(s.as_str()));
        }
        assert(class_texts(groups@) =~= self.spec_classes());
        groups
    }

    /// The characters of the given classes, one class after the other.
    pub fn alphabet(groups: &Vec<Vec<char>>) -> (chars: Vec<char>)
        ensures
            chars@ == class_texts(groups@).flatten(),
    {
        let mut chars: Vec<char> = Vec::new();
        let ghost all = class_texts(groups@);
        assert(all.take(0) =~= Seq::<Seq<char>>::empty());
        for g in 0..groups.len()
            invariant
                all == class_texts(groups@),
                chars@ == all.take(g as int).flatten(),
        {
            let group = &groups[g];
            let ghost before = chars@;
            for j in 0..group.len()
                invariant
                    chars@ == before + group@.take(j as int),
            {
                chars.push(group[j]);
                assert(group@.take(j + 1) =~= group@.take(j as int).push(group@[j as int]));
            }
            proof {
                assert(group@.take(group@.len() as int) =~= group@);
                assert(all.take(g + 1) =~= all.take(g as int).push(group@));
                all.take(g as int).lemma_flatten_push(group@);
            }
        }
        assert(all.take(groups@.len() as int) =~= all);
        chars
    }

    /// The validator of character mode.
    pub fn char_validator(&self, groups: Vec<Vec<char>>) -> (v: Validator)
        ensures
            v@ == (if self.non_appear {
                Rule::Always
            } else {
                Rule::Classes(class_texts(groups@))
            }),
    {
        if self.non_appear {
            Validator::Always
        } else {
            Validator::Classes(groups)
        }
    }

    /// A secret of character mode.
    ///
    /// Fails with `EmptySymbolSet` where no character is chosen, and as
    /// `generate` does. A secret is owed where its request owes one, and an
    /// `ImpossibleConstraint` (or `RngInit`) where its request owes a
    /// failure.
    pub fn char_mode<F: Fn(&Estimate) -> usize, J: Fn(&Estimate) -> Verdict>(
        &self,
        first: &F,
        judge: &J,
    ) -> (r: Result<String, Error>)
        requires
            forall|e: &Estimate| first.requires((e,)),
            forall|e: &Estimate| judge.requires((e,)),
        ensures
            match r {
                Ok(s) => self.is_char_secret(first, judge, s@),
                Err(e) => self.is_char_failure(first, judge, e),
            },
            self.spec_alphabet().len() > 0 && self.char_task().owes_secret(
                self.length,
                self.max_tries,
                first,
                judge,
            ) ==> r is Ok,
            self.spec_alphabet().len() > 0 && self.char_task().owes_failure(
                self.length,
                first,
                judge,
            ) ==> fails_with(r, ErrorKind::ImpossibleConstraint) || fails_with(
                r,
                ErrorKind::RngInit,
            ),
    {
        let groups = self.classes();
        let chars = Args::alphabet(&groups);
        if chars.len() == 0 {
            return Err(Error::with_kind(ErrorKind::EmptySymbolSet, "No characters."));
        }
        let symbols = Symbols::from_chars(chars.into_iter());
        let validator = self.char_validator(groups);
        proof {
            reveal_strlit("");
            assert(""@ =~= Seq::<char>::empty());
            lemma_catalogue_of(symbols@);
        }
        self.generate(&symbols, "", &validator, first, judge)
    }

    /// A secret of a word mode, from the word list `words`.
    ///
    /// Fails with `Io` where the list is not text, and as `generate` does.
    /// A secret is owed where its request owes one, and an
    /// `ImpossibleConstraint` (or `RngInit`) where its request owes a
    /// failure.
    pub fn words_mode<F: Fn(&Estimate) -> usize, J: Fn(&Estimate) -> Verdict>(
        &self,
        words: &[u8],
        first: &F,
        judge: &J,
    ) -> (r: Result<String, Error>)
        requires
            forall|e: &Estimate| first.requires((e,)),
            forall|e: &Estimate| judge.requires((e,)),
        ensures
            match r {
                Ok(s) => self.is_word_secret(words@, first, judge, s@),
                Err(e) => self.is_word_failure(words@, first, judge, e),
            },
            all_text(lines(words@)) && self.word_task(words@).owes_secret(
                self.length,
                self.max_tries,
                first,
                judge,
            ) ==> r is Ok,
            all_text(lines(words@)) && self.word_task(words@).owes_failure(
                self.length,
                first,
                judge,
            ) ==> fails_with(r, ErrorKind::ImpossibleConstraint) || fails_with(
                r,
                ErrorKind::RngInit,
            ),
    {
        let symbols = match Symbols::from_bufread(words) {
            Ok(symbols) => symbols,
            Err(e) => {
                return Err(e);
            },
        };
        let validator = Validator::MaxBytes(self.max_len);
        proof {
            lemma_catalogue_of(symbols@);
        }
        self.generate(&symbols, self.sep.as_str(), &validator, first, judge)
    }

    /// One line of output: a secret of the mode that is set, with its hash
    /// where one is asked for. `words` is the word list of the mode, and is
    /// not looked at in character mode.
    ///
    /// Fails as the mode does and, where a hash is asked for, with `Hash`
    /// where hashing fails. Where no hash is asked for, a line is owed
    /// where the mode owes a secret. Hashing aborts where the operating
    /// system supplies no random bytes for the salt.
    pub fn run_once<F: Fn(&Estimate) -> usize, J: Fn(&Estimate) -> Verdict>(
        &self,
        words: &[u8],
        first: &F,
        judge: &J,
    ) -> (r: Result<String, Error>)
        requires
            forall|e: &Estimate| first.requires((e,)),
            forall|e: &Estimate| judge.requires((e,)),
        ensures
            match r {
                Ok(line) => exists|password: Seq<char>|
                    #![trigger is_line_of(password, self.hash, line@)]
                    is_line_of(password, self.hash, line@) && self.is_mode_secret(
                        words@,
                        first,
                        judge,
                        password,
                    ),
                Err(e) => (self.hash && e.kind() == ErrorKind::Hash) || self.is_mode_failure(
                    words@,
                    first,
                    judge,
                    e,
                ),
            },
            !self.hash && self.mode_owes_secret(words@, first, judge) ==> r is Ok,
    {
        let password = match self.mode {
            Mode::Chars => self.char_mode(first, judge),
            _ => self.words_mode(words, first, judge),
        };
        match password {
            Ok(password) => {
                let ghost text = password@;
                let line = output_line(password, self.hash);
                assert(line matches Ok(l) ==> is_line_of(text, self.hash, l@));
                line
            },
            Err(e) => Err(e),
        }
    }

    /// A secret drawn from `symbols` under `validator`.
    ///
    /// Where the length is fixed, the entropy of a secret of that length is
    /// estimated first, and the secret is drawn if the estimate is above
    /// zero. Where it is not, the lengths from `first`, applied to the
    /// entropy of one symbol, are tried in turn: the secret is drawn at the
    /// first length at which `judge` finds that the estimate meets what is
    /// asked for, and the search fails at the first at which it is zero.
    ///
    /// A secret is owed where no outside call decides: see `owes_secret`.
    /// An `ImpossibleConstraint` (or, where samples are needed and cannot
    /// be had, an `RngInit`) is owed where nothing can be drawn: see
    /// `owes_failure`. Drawing aborts where the operating system supplies
    /// no random bytes.
    pub fn generate<F: Fn(&Estimate) -> usize, J: Fn(&Estimate) -> Verdict>(
        &self,
        symbols: &Symbols,
        sep: &str,
        validator: &Validator,
        first: &F,
        judge: &J,
    ) -> (r: Result<String, Error>)
        requires
            symbols.wf(),
            forall|e: &Estimate| first.requires((e,)),
            forall|e: &Estimate| judge.requires((e,)),
        ensures
            match r {
                Ok(s) => task_of(symbols, sep, validator).is_secret(self.length, first, judge, s@),
                Err(e) => task_of(symbols, sep, validator).is_failure(
                    self.length,
                    self.max_tries,
                    first,
                    judge,
                    e,
                ),
            },
            task_of(symbols, sep, validator).owes_secret(self.length, self.max_tries, first, judge)
                ==> r is Ok,
            task_of(symbols, sep, validator).owes_failure(self.length, first, judge)
                ==> fails_with(r, ErrorKind::ImpossibleConstraint) || fails_with(
                r,
                ErrorKind::RngInit,
            ),
    {
        let r = match self.length {
            Some(length) => self.at_length(symbols, sep, validator, judge, length),
            None => self.search(symbols, sep, validator, first, judge),
        };
        proof {
            let task = task_of(symbols, sep, validator);
            if task.owes_failure(self.length, first, judge) {
                lemma_owed_failure(task, self.length, self.max_tries, first, judge);
            }
            if task.owes_secret(self.length, self.max_tries, first, judge) && r is Err {
                lemma_owed_secret(task, self.length, self.max_tries, first, judge, r->Err_0);
            }
        }
        r
    }

    /// A secret of the fixed length `length`.
    fn at_length<J: Fn(&Estimate) -> Verdict>(
        &self,
        symbols: &Symbols,
        sep: &str,
        validator: &Validator,
        judge: &J,
        length: usize,
    ) -> (r: Result<String, Error>)
        requires
            symbols.wf(),
            forall|e: &Estimate| judge.requires((e,)),
        ensures
            match r {
                Ok(s) => task_of(symbols, sep, validator).secret_at(judge, length, true, s@),
                Err(e) => task_of(symbols, sep, validator).failure_at(
                    judge,
                    length,
                    true,
                    self.max_tries,
                    e,
                ),
            },
    {
        match assess(symbols, sep, validator, judge, length) {
            Err(e) => Err(e),
            Ok(Verdict::Zero) => Err(impossible()),
            Ok(_) => symbols.generate(length, sep, validator, self.max_tries),
        }
    }

    /// A secret of the first length, from what `first` makes of the entropy
    /// of one symbol, at which the estimate is judged to meet what is asked
    /// for.
    fn search<F: Fn(&Estimate) -> usize, J: Fn(&Estimate) -> Verdict>(
        &self,
        symbols: &Symbols,
        sep: &str,
        validator: &Validator,
        first: &F,
        judge: &J,
    ) -> (r: Result<String, Error>)
        requires
            symbols.wf(),
            forall|e: &Estimate| first.requires((e,)),
            forall|e: &Estimate| judge.requires((e,)),
        ensures
            match r {
                Ok(s) => task_of(symbols, sep, validator).is_secret(None, first, judge, s@),
                Err(e) => task_of(symbols, sep, validator).is_failure(
                    None,
                    self.max_tries,
                    first,
                    judge,
                    e,
                ),
            },
    {
        let ghost task = task_of(symbols, sep, validator);
        let base = symbols.base_entropy(1);
        let start: usize = first(&base);
        let mut length: usize = start;
        loop
            invariant
                symbols.wf(),
                task == task_of(symbols, sep, validator),
                forall|e: &Estimate| judge.requires((e,)),
                first.ensures((&task.base(1),), start),
                task.reaches(judge, start, length),
            decreases usize::MAX - length,
        {
            match assess(symbols, sep, validator, judge, length) {
                Err(e) => {
                    return Err(e);
                },
                Ok(Verdict::Meets) => {
                    return symbols.generate(length, sep, validator, self.max_tries);
                },
                Ok(Verdict::Below) if length < usize::MAX => {
                    length += 1;
                },
                Ok(_) => {
                    return Err(never_met());
                },
            }
        }
    }
}

/// What secrets are drawn from, joined by, and held to.
pub open spec fn task_of(symbols: &Symbols, sep: &str, validator: &Validator) -> Task {
    Task { symbols: symbols@, sep: sep@, rule: validator@ }
}

/// The verdict on the estimate for `n` symbols: zero where the estimate is
/// zero, and what `judge` finds otherwise.
fn assess<J: Fn(&Estimate) -> Verdict>(
    symbols: &Symbols,
    sep: &str,
    validator: &Validator,
    judge: &J,
    n: usize,
) -> (r: Result<Verdict, Error>)
    requires
        symbols.wf(),
        forall|e: &Estimate| judge.requires((e,)),
    ensures
        match r {
            Ok(v) => task_of(symbols, sep, validator).verdict_at(judge, n, v),
            Err(e) => {
                &&& e.kind() == ErrorKind::RngInit
                &&& !(task_of(symbols, sep, validator).base(n) is Zero)
                &&& !task_of(symbols, sep, validator).sure(n)
            },
        },
{
    let estimate = match symbols.estimate_entropy(n, sep, validator) {
        Ok(estimate) => estimate,
        Err(e) => {
            return Err(e);
        },
    };
    if estimate == Estimate::Zero {
        return Ok(Verdict::Zero);
    }
    let verdict = judge(&estimate);
    assert(task_of(symbols, sep, validator).may_estimate(n, estimate));
    Ok(verdict)
}

/// The error of a fixed length at which nothing can be drawn.
fn impossible() -> (e: Error)
    ensures
        e.kind() == ErrorKind::ImpossibleConstraint,
        e.spec_message() == impossible_message(),
{
    Error::with_kind(ErrorKind::ImpossibleConstraint, "It is impossible to meet the conditions.")
}

/// The error of a search that met a length at which nothing can be drawn.
fn never_met() -> (e: Error)
    ensures
        e.kind() == ErrorKind::ImpossibleConstraint,
        e.spec_message() == never_met_message(),
{
    Error::with_kind(ErrorKind::ImpossibleConstraint, "Never met entropy requirement.")
}

} // verus!
