//! Estimating how many bits of entropy a secret keeps once a validator has
//! rejected part of what could be drawn.

use vstd::prelude::*;

use crate::err::{fails_with, Error, ErrorKind};
use crate::random::Sampling;
use crate::sequence::{is_sequence, lemma_sequence_exists};
use crate::symbol::{byte_len, longest, Symbols};
use crate::validate::{lemma_surely_accepts, says, says_of_some, Rule, Validator};

verus! {

/// The number of sequences that an estimate samples.
pub const SAMPLES: usize = 100_000;

/// The factor by which a sampled estimate is deflated, in hundredths. The
/// logarithm of the factor is taken off the estimate, so that sampling noise
/// never credits a secret with more than it has.
pub const SAFETY_MARGIN_PERCENT: usize = 105;

/// An amount of entropy, kept as the exact counts from which the number of
/// bits follows.
#[derive(Debug, Clone, Copy, PartialEq, Eq, Structural)]
pub enum Estimate {
    /// No bits: nothing can be drawn, or no sample was accepted.
    Zero,
    /// `length * log2(symbols)` bits: the entropy of `length` symbols drawn
    /// uniformly from `symbols`, when nothing is rejected.
    Full { symbols: usize, length: usize },
    /// `length * log2(symbols) + log2(accepted / samples)` bits, less the
    /// logarithm of the safety margin, and no less than zero: the entropy
    /// that is left when only `accepted` of `samples` sequences were
    /// accepted.
    Sampled { symbols: usize, length: usize, accepted: usize, samples: usize },
}

/// The entropy of `length` symbols drawn uniformly from `symbols`.
pub open spec fn base_of(symbols: usize, length: usize) -> Estimate {
    if symbols <= 1 || length == 0 {
        Estimate::Zero
    } else {
        Estimate::Full { symbols, length }
    }
}

/// The estimate that follows from `accepted` accepted samples.
pub open spec fn tally_of(symbols: usize, length: usize, accepted: usize) -> Estimate {
    if accepted == 0 {
        Estimate::Zero
    } else {
        Estimate::Sampled { symbols, length, accepted, samples: SAMPLES }
    }
}

/// Every sequence of `n` symbols is accepted.
pub open spec fn accepts_all(
    v: Rule,
    symbols: Seq<Seq<char>>,
    n: nat,
    sep: Seq<char>,
) -> bool {
    forall|s: Seq<char>| is_sequence(symbols, n, sep, s) ==> v.accepts(s)
}

/// No sequence of `n` symbols is accepted.
pub open spec fn accepts_none(
    v: Rule,
    symbols: Seq<Seq<char>>,
    n: nat,
    sep: Seq<char>,
) -> bool {
    forall|s: Seq<char>| is_sequence(symbols, n, sep, s) ==> !v.accepts(s)
}

/// The number of the samples that the rule accepts.
pub open spec fn accepted_among(v: Rule, samples: Seq<Seq<char>>) -> nat
    decreases samples.len(),
{
    if samples.len() == 0 {
        0
    } else {
        accepted_among(v, samples.drop_last()) + if v.accepts(samples.last()) {
            1nat
        } else {
            0nat
        }
    }
}

/// `samples` are as many sequences of `n` symbols as an estimate samples.
pub open spec fn is_sampling(
    symbols: Seq<Seq<char>>,
    n: nat,
    sep: Seq<char>,
    samples: Seq<Seq<char>>,
) -> bool {
    &&& samples.len() == SAMPLES
    &&& forall|i: int| 0 <= i < samples.len() ==> is_sequence(symbols, n, sep, #[trigger] samples[i])
}

/// `accepted` is the number that the rule accepts of some sampling.
pub open spec fn is_count(
    v: Rule,
    symbols: Seq<Seq<char>>,
    n: nat,
    sep: Seq<char>,
    accepted: usize,
) -> bool {
    exists|samples: Seq<Seq<char>>| #[trigger]
        is_sampling(symbols, n, sep, samples) && accepted == accepted_among(v, samples)
}

/// The estimate `x` stands for no more bits than the estimate `y`, as far
/// as the counts alone show: `x` is zero, or the two are tallies for the
/// same symbols and length, and `x` has no more accepted samples.
pub open spec fn no_more(x: Estimate, y: Estimate) -> bool {
    match x {
        Estimate::Zero => true,
        Estimate::Full { .. } => x == y,
        Estimate::Sampled { symbols, length, accepted, samples } => match y {
            Estimate::Sampled { symbols: k, length: n, accepted: a, samples: m } => {
                &&& k == symbols
                &&& n == length
                &&& m == samples
                &&& accepted <= a
            },
            _ => false,
        },
    }
}

/// No more samples are accepted than there are.
pub proof fn lemma_accepted_among_bound(v: Rule, samples: Seq<Seq<char>>)
    ensures
        accepted_among(v, samples) <= samples.len(),
    decreases samples.len(),
{
    if samples.len() > 0 {
        lemma_accepted_among_bound(v, samples.drop_last());
    }
}

/// Of the same samples, a rule that accepts nothing that another rejects
/// accepts no more samples than the other, and its tally stands for no more
/// bits.
pub proof fn lemma_narrower_rule_gains_nothing(
    a: Rule,
    b: Rule,
    samples: Seq<Seq<char>>,
    symbols: usize,
    length: usize,
)
    requires
        forall|s: Seq<char>| a.accepts(s) ==> b.accepts(s),
        samples.len() <= usize::MAX,
    ensures
        accepted_among(a, samples) <= accepted_among(b, samples),
        no_more(
            tally_of(symbols, length, accepted_among(a, samples) as usize),
            tally_of(symbols, length, accepted_among(b, samples) as usize),
        ),
    decreases samples.len(),
{
    lemma_accepted_among_bound(a, samples);
    lemma_accepted_among_bound(b, samples);
    if samples.len() > 0 {
        lemma_narrower_rule_gains_nothing(a, b, samples.drop_last(), symbols, length);
    }
}

/// `e` is an estimate that can come out for sequences of `n` symbols.
///
/// Where the base entropy is zero, that is zero. Where the sizes alone show
/// that nothing is rejected, it is the base entropy. Otherwise it is the
/// tally of the number that the rule accepts of some sampling: of all of
/// them where every sequence is accepted, and of none where none is.
pub open spec fn may_estimate(
    v: Rule,
    symbols: Seq<Seq<char>>,
    n: usize,
    sep: Seq<char>,
    e: Estimate,
) -> bool {
    let k = symbols.len() as usize;
    if base_of(k, n) is Zero {
        e is Zero
    } else if v.surely_accepts(longest(symbols), n as nat, byte_len(sep)) {
        e == base_of(k, n)
    } else {
        exists|accepted: usize|
            {
                &&& e == #[trigger] tally_of(k, n, accepted)
                &&& accepted <= SAMPLES
                &&& accepts_all(v, symbols, n as nat, sep) ==> accepted == SAMPLES
                &&& accepts_none(v, symbols, n as nat, sep) ==> accepted == 0
                &&& is_count(v, symbols, n as nat, sep, accepted)
            }
    }
}

/// `e` is an estimate that can come out for sequences of `n` symbols
/// under a predicate of the caller's own.
///
/// Where the base entropy is zero, that is zero. Otherwise it is the tally
/// of some number of accepted samples: of all of them where the predicate
/// can answer `false` on no sequence, and of none where it can answer
/// `true` on none.
pub open spec fn may_estimate_with<V: Fn(&str) -> bool>(
    validate: &V,
    symbols: Seq<Seq<char>>,
    n: usize,
    sep: Seq<char>,
    e: Estimate,
) -> bool {
    let k = symbols.len() as usize;
    if base_of(k, n) is Zero {
        e is Zero
    } else {
        exists|accepted: usize|
            {
                &&& e == #[trigger] tally_of(k, n, accepted)
                &&& accepted <= SAMPLES
                &&& !says_of_some(validate, symbols, n as nat, sep, false) ==> accepted == SAMPLES
                &&& !says_of_some(validate, symbols, n as nat, sep, true) ==> accepted == 0
            }
    }
}

/// The estimate that follows from `accepted` accepted samples out of
/// `SAMPLES`.
pub fn tally(symbols: usize, length: usize, accepted: usize) -> (e: Estimate)
    ensures
        e == tally_of(symbols, length, accepted),
{
    if accepted == 0 {
        Estimate::Zero
    } else {
        Estimate::Sampled { symbols, length, accepted, samples: SAMPLES }
    }
}

impl Symbols {
    /// The entropy of `n` symbols drawn uniformly from the catalogue, with
    /// nothing rejected.
    pub fn base_entropy(&self, n: usize) -> (e: Estimate)
        ensures
            e == base_of(self@.len() as usize, n),
    {
        let k: usize = self.len();
        if k <= 1 || n == 0 {
            Estimate::Zero
        } else {
            Estimate::Full { symbols: k, length: n }
        }
    }

    /// The entropy of a secret of `n` symbols joined by `sep`, of which
    /// `validator` accepts only some.
    ///
    /// Where the base entropy is zero, so is the estimate. Where the sizes
    /// alone show that nothing is rejected, the estimate is the base
    /// entropy, and nothing is sampled. Otherwise `SAMPLES` sequences are
    /// drawn from a freshly seeded sampling source, and the estimate follows
    /// from the number of them that the validator accepts.
    pub fn estimate_entropy(&self, n: usize, sep: &str, validator: &Validator) -> (r: Result<
        Estimate,
        Error,
    >)
        requires
            self.wf(),
        ensures
            base_of(self@.len() as usize, n) is Zero ==> r == Ok::<Estimate, Error>(Estimate::Zero),
            validator@.surely_accepts(longest(self@), n as nat, byte_len(sep@)) ==> r == Ok::<
                Estimate,
                Error,
            >(base_of(self@.len() as usize, n)),
            match r {
                Ok(e) => may_estimate(validator@, self@, n, sep@, e),
                Err(e) => {
                    &&& e.kind() == ErrorKind::RngInit
                    &&& !(base_of(self@.len() as usize, n) is Zero)
                    &&& !validator@.surely_accepts(longest(self@), n as nat, byte_len(sep@))
                },
            },
            validator@ is Always ==> r == Ok::<Estimate, Error>(
                base_of(self@.len() as usize, n),
            ),
            accepts_none(validator@, self@, n as nat, sep@) ==> r == Ok::<Estimate, Error>(
                Estimate::Zero,
            ) || fails_with(r, ErrorKind::RngInit),
    {
        let base = self.base_entropy(n);
        if base == Estimate::Zero {
            return Ok(Estimate::Zero);
        }
        let k: usize = self.len();
        if validator.always_accepts(self.max_symbol_len(), n, sep.as_bytes().len()) {
            proof {
                if accepts_none(validator@, self@, n as nat, sep@) {
                    let s = lemma_sequence_exists(self@, n as nat, sep@);
                    lemma_surely_accepts(validator@, self@, n as nat, sep@, s);
                }
            }
            return Ok(base);
        }
        let mut source = match Sampling::seeded() {
            Ok(source) => source,
            Err(e) => {
                return Err(e);
            },
        };
        let mut accepted: usize = 0;
        let ghost samples = Seq::<Seq<char>>::empty();
        for i in 0..SAMPLES
            invariant
                self@.len() > 0,
                accepted <= i,
                samples.len() == i,
                forall|j: int|
                    0 <= j < samples.len() ==> is_sequence(
                        self@,
                        n as nat,
                        sep@,
                        #[trigger] samples[j],
                    ),
                accepted == accepted_among(validator@, samples),
                accepts_none(validator@, self@, n as nat, sep@) ==> accepted == 0,
                accepts_all(validator@, self@, n as nat, sep@) ==> accepted == i,
        {
            let candidate = self.draw(&mut source, n, sep);
            proof {
                let more = samples.push(candidate@);
                assert(more.drop_last() =~= samples);
                samples = more;
            }
            if validator.validate(candidate.as_str()) {
                accepted += 1;
            }
        }
        assert(is_sampling(self@, n as nat, sep@, samples));
        assert(tally_of(k, n, accepted) == tally_of(self@.len() as usize, n, accepted));
        Ok(tally(k, n, accepted))
    }

    /// The entropy of a secret of `n` symbols joined by `sep`, of which a
    /// predicate of the caller's own accepts only some.
    ///
    /// Where the base entropy is zero, so is the estimate. Otherwise
    /// `SAMPLES` sequences are drawn from a freshly seeded sampling source,
    /// and the estimate follows from the number of them on which `validate`
    /// answers `true`: nothing shows of such a predicate that it rejects
    /// nothing.
    pub fn estimate_entropy_with<V: Fn(&str) -> bool>(&self, n: usize, sep: &str, validate: &V) -> (r:
        Result<Estimate, Error>)
        requires
            self.wf(),
            forall|s: &str| validate.requires((s,)),
        ensures
            match r {
                Ok(e) => may_estimate_with(validate, self@, n, sep@, e),
                Err(e) => {
                    &&& e.kind() == ErrorKind::RngInit
                    &&& !(base_of(self@.len() as usize, n) is Zero)
                },
            },
    {
        let base = self.base_entropy(n);
        if base == Estimate::Zero {
            return Ok(Estimate::Zero);
        }
        let k: usize = self.len();
        let mut source = match Sampling::seeded() {
            Ok(source) => source,
            Err(e) => {
                return Err(e);
            },
        };
        let mut accepted: usize = 0;
        for i in 0..SAMPLES
            invariant
                self@.len() > 0,
                accepted <= i,
                forall|s: &str| validate.requires((s,)),
                !says_of_some(validate, self@, n as nat, sep@, false) ==> accepted == i,
                !says_of_some(validate, self@, n as nat, sep@, true) ==> accepted == 0,
        {
            let candidate = self.draw(&mut source, n, sep);
            let text = candidate.as_str();
            let ok = validate(text);
            assert(says(validate, candidate@, ok)) by {
                assert(text@ == candidate@ && validate.ensures((text,), ok));
            }
            if ok {
                accepted += 1;
            }
        }
        assert(tally_of(k, n, accepted) == tally_of(self@.len() as usize, n, accepted));
        Ok(tally(k, n, accepted))
    }
}

} // verus!
