//! What a request for a secret owes: which secrets answer it, and which
//! failures it may end in.

use vstd::prelude::*;

use crate::args::Verdict;
use crate::entropy::{accepts_all, accepts_none, base_of, may_estimate, Estimate};
use crate::err::{Error, ErrorKind};
use crate::sequence::{is_sequence, lemma_sequence_exists};
use crate::symbol::{byte_len, canonical, lemma_canonical_unique, longest};
use crate::validate::{lemma_surely_accepts, Rule};

verus! {

/// The message of the failure at a fixed length.
pub open spec fn impossible_message() -> Seq<char> {
    "It is impossible to meet the conditions."@
}

/// The message of the failure of a search.
pub open spec fn never_met_message() -> Seq<char> {
    "Never met entropy requirement."@
}

/// The catalogue that holds exactly the symbols of `set`.
pub open spec fn catalogue_of(set: Set<Seq<char>>) -> Seq<Seq<char>> {
    choose|c: Seq<Seq<char>>| canonical(c) && c.to_set() == set
}

/// A canonical list is the catalogue of its symbols.
pub proof fn lemma_catalogue_of(c: Seq<Seq<char>>)
    requires
        canonical(c),
    ensures
        catalogue_of(c.to_set()) == c,
{
    let d = catalogue_of(c.to_set());
    lemma_canonical_unique(c, d);
}

/// What secrets are drawn from, joined by, and held to.
pub struct Task {
    pub symbols: Seq<Seq<char>>,
    pub sep: Seq<char>,
    pub rule: Rule,
}

impl Task {
    /// The number of symbols.
    pub open spec fn size(self) -> usize {
        self.symbols.len() as usize
    }

    /// The entropy of `n` symbols with nothing rejected.
    pub open spec fn base(self, n: usize) -> Estimate {
        base_of(self.size(), n)
    }

    /// The sizes alone show that every sequence of `n` symbols is accepted.
    pub open spec fn sure(self, n: usize) -> bool {
        self.rule.surely_accepts(longest(self.symbols), n as nat, byte_len(self.sep))
    }

    /// `e` is an estimate that can come out for `n` symbols.
    pub open spec fn may_estimate(self, n: usize, e: Estimate) -> bool {
        may_estimate(self.rule, self.symbols, n, self.sep, e)
    }

    /// Nothing can be drawn at the length `n`: the base entropy is zero, or
    /// every sequence is rejected.
    pub open spec fn barren(self, n: usize) -> bool {
        self.base(n) is Zero || accepts_none(self.rule, self.symbols, n as nat, self.sep)
    }

    /// `judge` gave the verdict `v` on an estimate above zero that can come
    /// out for `n` symbols.
    pub open spec fn judged<J: Fn(&Estimate) -> Verdict>(
        self,
        judge: &J,
        n: usize,
        v: Verdict,
    ) -> bool {
        exists|e: Estimate| #[trigger]
            self.may_estimate(n, e) && !(e is Zero) && judge.ensures((&e,), v)
    }

    /// The verdict at the length `n` is `v`: the estimate can come out as
    /// zero, or `judge` gave that verdict on an estimate above zero.
    pub open spec fn verdict_at<J: Fn(&Estimate) -> Verdict>(
        self,
        judge: &J,
        n: usize,
        v: Verdict,
    ) -> bool {
        (v == Verdict::Zero && self.may_estimate(n, Estimate::Zero)) || self.judged(judge, n, v)
    }

    /// A search from the length `start` gets as far as the length `n`: at
    /// every length before it the estimate was judged to be below what is
    /// asked for.
    pub open spec fn reaches<J: Fn(&Estimate) -> Verdict>(
        self,
        judge: &J,
        start: usize,
        n: usize,
    ) -> bool {
        &&& start <= n
        &&& forall|m: usize| start <= m < n ==> #[trigger] self.judged(judge, m, Verdict::Below)
    }

    /// `s` is a secret of `n` symbols: a sequence that the rule accepts,
    /// drawn after the estimate was judged to meet what is asked for or, at
    /// a fixed length, to be above zero.
    pub open spec fn secret_at<J: Fn(&Estimate) -> Verdict>(
        self,
        judge: &J,
        n: usize,
        fixed: bool,
        s: Seq<char>,
    ) -> bool {
        &&& is_sequence(self.symbols, n as nat, self.sep, s)
        &&& self.rule.accepts(s)
        &&& self.judged(judge, n, Verdict::Meets) || (fixed && self.judged(
            judge,
            n,
            Verdict::Below,
        ))
    }

    /// `e` is a failure at the length `n`.
    ///
    /// `RngInit`: samples were needed and the sampling source could not be
    /// seeded. `ImpossibleConstraint`: the estimate came out as zero or was
    /// judged to be zero, or a search ran out of lengths. `RetriesExhausted`:
    /// the estimate allowed a draw, and every draw allowed was rejected.
    pub open spec fn failure_at<J: Fn(&Estimate) -> Verdict>(
        self,
        judge: &J,
        n: usize,
        fixed: bool,
        max_tries: usize,
        e: Error,
    ) -> bool {
        match e.spec_kind() {
            ErrorKind::RngInit => !(self.base(n) is Zero) && !self.sure(n),
            ErrorKind::ImpossibleConstraint => {
                &&& e.spec_message() == if fixed {
                    impossible_message()
                } else {
                    never_met_message()
                }
                &&& self.verdict_at(judge, n, Verdict::Zero) || (!fixed && n == usize::MAX
                    && self.judged(judge, n, Verdict::Below))
            },
            ErrorKind::RetriesExhausted => {
                &&& max_tries == 0 || !accepts_all(self.rule, self.symbols, n as nat, self.sep)
                &&& self.judged(judge, n, Verdict::Meets) || (fixed && self.judged(
                    judge,
                    n,
                    Verdict::Below,
                ))
            },
            _ => false,
        }
    }

    /// `s` answers a request for a secret.
    ///
    /// Where the length is fixed, `s` is a secret of that length. Where it
    /// is not, the search starts at what `first` makes of the entropy of one
    /// symbol, and `s` is a secret of the length that the search reaches.
    pub open spec fn is_secret<F: Fn(&Estimate) -> usize, J: Fn(&Estimate) -> Verdict>(
        self,
        length: Option<usize>,
        first: &F,
        judge: &J,
        s: Seq<char>,
    ) -> bool {
        match length {
            Some(l) => self.secret_at(judge, l, true, s),
            None => exists|start: usize, n: usize|
                first.ensures((&self.base(1),), start) && #[trigger] self.reaches(judge, start, n)
                    && self.secret_at(judge, n, false, s),
        }
    }

    /// `e` is a failure of a request for a secret: a failure at the fixed
    /// length, or at the length that the search reaches.
    pub open spec fn is_failure<F: Fn(&Estimate) -> usize, J: Fn(&Estimate) -> Verdict>(
        self,
        length: Option<usize>,
        max_tries: usize,
        first: &F,
        judge: &J,
        e: Error,
    ) -> bool {
        match length {
            Some(l) => self.failure_at(judge, l, true, max_tries, e),
            None => exists|start: usize, n: usize|
                first.ensures((&self.base(1),), start) && #[trigger] self.reaches(judge, start, n)
                    && self.failure_at(judge, n, false, max_tries, e),
        }
    }

    /// At the length `n` the estimate is the base entropy, and `judge` can
    /// give no verdict on it but `v`.
    pub open spec fn settled<J: Fn(&Estimate) -> Verdict>(
        self,
        judge: &J,
        n: usize,
        v: Verdict,
    ) -> bool {
        &&& !(self.base(n) is Zero)
        &&& self.sure(n)
        &&& forall|w: Verdict| judge.ensures((&self.base(n),), w) ==> w == v
    }

    /// At the fixed length `n` the estimate is the base entropy, and `judge`
    /// cannot find it to be zero.
    pub open spec fn settled_above_zero<J: Fn(&Estimate) -> Verdict>(self, judge: &J, n: usize) -> bool {
        &&& !(self.base(n) is Zero)
        &&& self.sure(n)
        &&& !judge.ensures((&self.base(n),), Verdict::Zero)
    }

    /// From `start` up to `n`, not counting `n`, the estimate is the base
    /// entropy and can only be judged to be below what is asked for.
    pub open spec fn settled_below<J: Fn(&Estimate) -> Verdict>(
        self,
        judge: &J,
        start: usize,
        n: usize,
    ) -> bool {
        &&& start <= n
        &&& forall|m: usize| start <= m < n ==> #[trigger] self.settled(judge, m, Verdict::Below)
    }

    /// A secret is owed: draws are allowed, and no outside call decides.
    ///
    /// At a fixed length the estimate is the base entropy and cannot be
    /// judged to be zero. In a search, from wherever it starts, the
    /// estimates are the base entropy and can only be judged to be below up
    /// to a length at which the estimate can only be judged to meet what is
    /// asked for.
    pub open spec fn owes_secret<F: Fn(&Estimate) -> usize, J: Fn(&Estimate) -> Verdict>(
        self,
        length: Option<usize>,
        max_tries: usize,
        first: &F,
        judge: &J,
    ) -> bool {
        &&& max_tries > 0
        &&& match length {
            Some(l) => self.settled_above_zero(judge, l),
            None => forall|start: usize| #[trigger]
                first.ensures((&self.base(1),), start) ==> exists|n: usize| #[trigger]
                    self.settled_below(judge, start, n) && self.settled(judge, n, Verdict::Meets),
        }
    }

    /// No secret can come: nothing can be drawn at the fixed length or, in
    /// a search, at the first length that is not settled to be below.
    pub open spec fn owes_failure<F: Fn(&Estimate) -> usize, J: Fn(&Estimate) -> Verdict>(
        self,
        length: Option<usize>,
        first: &F,
        judge: &J,
    ) -> bool {
        match length {
            Some(l) => self.barren(l),
            None => forall|start: usize| #[trigger]
                first.ensures((&self.base(1),), start) ==> exists|n: usize| #[trigger]
                    self.settled_below(judge, start, n) && self.barren(n),
        }
    }
}

/// Where nothing can be drawn, there is no estimate above zero to judge.
pub proof fn lemma_barren_unjudged<J: Fn(&Estimate) -> Verdict>(
    task: Task,
    judge: &J,
    n: usize,
    v: Verdict,
)
    requires
        task.barren(n),
    ensures
        !task.judged(judge, n, v),
{
    if task.judged(judge, n, v) {
        let e = choose|e: Estimate| #[trigger]
            task.may_estimate(n, e) && !(e is Zero) && judge.ensures((&e,), v);
        if !(task.base(n) is Zero) && task.sure(n) {
            let s = lemma_sequence_exists(task.symbols, n as nat, task.sep);
            lemma_surely_accepts(task.rule, task.symbols, n as nat, task.sep, s);
        }
    }
}

/// Where the estimate is the base entropy, only the base entropy is judged.
pub proof fn lemma_settled_judged<J: Fn(&Estimate) -> Verdict>(
    task: Task,
    judge: &J,
    n: usize,
    v: Verdict,
)
    requires
        !(task.base(n) is Zero),
        task.sure(n),
        task.judged(judge, n, v),
    ensures
        judge.ensures((&task.base(n),), v),
        !task.may_estimate(n, Estimate::Zero),
{
}

/// Where the sizes alone show that nothing is rejected, every sequence is
/// accepted.
pub proof fn lemma_sure_accepts_all(task: Task, n: usize)
    requires
        task.sure(n),
    ensures
        accepts_all(task.rule, task.symbols, n as nat, task.sep),
{
    assert forall|s: Seq<char>| is_sequence(task.symbols, n as nat, task.sep, s) implies task.rule.accepts(
        s,
    ) by {
        lemma_surely_accepts(task.rule, task.symbols, n as nat, task.sep, s);
    }
}

/// Where a secret is owed, a request does not fail.
pub proof fn lemma_owed_secret<F: Fn(&Estimate) -> usize, J: Fn(&Estimate) -> Verdict>(
    task: Task,
    length: Option<usize>,
    max_tries: usize,
    first: &F,
    judge: &J,
    e: Error,
)
    requires
        task.owes_secret(length, max_tries, first, judge),
    ensures
        !task.is_failure(length, max_tries, first, judge, e),
{
    if task.is_failure(length, max_tries, first, judge, e) {
        match length {
            Some(l) => {
                lemma_sure_accepts_all(task, l);
                if task.judged(judge, l, Verdict::Zero) {
                    lemma_settled_judged(task, judge, l, Verdict::Zero);
                }
            },
            None => {
                let (start, n) = choose|start: usize, n: usize|
                    first.ensures((&task.base(1),), start) && #[trigger] task.reaches(
                        judge,
                        start,
                        n,
                    ) && task.failure_at(judge, n, false, max_tries, e);
                let goal = choose|goal: usize| #[trigger]
                    task.settled_below(judge, start, goal) && task.settled(
                        judge,
                        goal,
                        Verdict::Meets,
                    );
                if n > goal {
                    assert(task.judged(judge, goal, Verdict::Below));
                    lemma_settled_judged(task, judge, goal, Verdict::Below);
                } else {
                    let v = if n < goal {
                        Verdict::Below
                    } else {
                        Verdict::Meets
                    };
                    assert(task.settled(judge, n, v));
                    lemma_sure_accepts_all(task, n);
                    if task.judged(judge, n, Verdict::Zero) {
                        lemma_settled_judged(task, judge, n, Verdict::Zero);
                    }
                    if task.judged(judge, n, Verdict::Below) {
                        lemma_settled_judged(task, judge, n, Verdict::Below);
                    }
                    if task.judged(judge, n, Verdict::Meets) {
                        lemma_settled_judged(task, judge, n, Verdict::Meets);
                    }
                }
            },
        }
    }
}

/// Where a failure is owed, no secret answers the request, and a failure
/// is of the kind `ImpossibleConstraint` or `RngInit`.
pub proof fn lemma_owed_failure<F: Fn(&Estimate) -> usize, J: Fn(&Estimate) -> Verdict>(
    task: Task,
    length: Option<usize>,
    max_tries: usize,
    first: &F,
    judge: &J,
)
    requires
        task.owes_failure(length, first, judge),
    ensures
        forall|s: Seq<char>| !task.is_secret(length, first, judge, s),
        forall|e: Error| #[trigger]
            task.is_failure(length, max_tries, first, judge, e) ==> e.spec_kind()
                == ErrorKind::ImpossibleConstraint || e.spec_kind() == ErrorKind::RngInit,
{
    assert forall|s: Seq<char>| !task.is_secret(length, first, judge, s) by {
        if task.is_secret(length, first, judge, s) {
            match length {
                Some(l) => {
                    lemma_barren_unjudged(task, judge, l, Verdict::Meets);
                    lemma_barren_unjudged(task, judge, l, Verdict::Below);
                },
                None => {
                    let (start, n) = choose|start: usize, n: usize|
                        first.ensures((&task.base(1),), start) && #[trigger] task.reaches(
                            judge,
                            start,
                            n,
                        ) && task.secret_at(judge, n, false, s);
                    lemma_search_stops(task, first, judge, start, n);
                    if task.barren(n) {
                        lemma_barren_unjudged(task, judge, n, Verdict::Meets);
                    } else {
                        lemma_search_goes_on(task, judge, n, max_tries);
                    }
                },
            }
        }
    }
    assert forall|e: Error| #[trigger]
        task.is_failure(length, max_tries, first, judge, e) implies e.spec_kind()
        == ErrorKind::ImpossibleConstraint || e.spec_kind() == ErrorKind::RngInit by {
        match length {
            Some(l) => {
                lemma_barren_unjudged(task, judge, l, Verdict::Meets);
                lemma_barren_unjudged(task, judge, l, Verdict::Below);
            },
            None => {
                let (start, n) = choose|start: usize, n: usize|
                    first.ensures((&task.base(1),), start) && #[trigger] task.reaches(
                        judge,
                        start,
                        n,
                    ) && task.failure_at(judge, n, false, max_tries, e);
                lemma_search_stops(task, first, judge, start, n);
                if task.barren(n) {
                    lemma_barren_unjudged(task, judge, n, Verdict::Meets);
                } else {
                    lemma_search_goes_on(task, judge, n, max_tries);
                }
            },
        }
    }
}

/// Where a failure is owed, a search that starts at `start` and reaches `n`
/// has reached a length at which nothing can be drawn, or one from which it
/// goes on.
proof fn lemma_search_stops<F: Fn(&Estimate) -> usize, J: Fn(&Estimate) -> Verdict>(
    task: Task,
    first: &F,
    judge: &J,
    start: usize,
    n: usize,
)
    requires
        task.owes_failure(None, first, judge),
        first.ensures((&task.base(1),), start),
        task.reaches(judge, start, n),
    ensures
        task.barren(n) || (n < usize::MAX && task.settled(judge, n, Verdict::Below)),
{
    let stop = choose|stop: usize| #[trigger]
        task.settled_below(judge, start, stop) && task.barren(stop);
    if n > stop {
        assert(task.judged(judge, stop, Verdict::Below));
        lemma_barren_unjudged(task, judge, stop, Verdict::Below);
    } else if n < stop {
        assert(task.settled(judge, n, Verdict::Below));
    }
}

/// At a length at which the estimate can only be judged to be below, a
/// search neither draws a secret nor fails: it goes on.
proof fn lemma_search_goes_on<J: Fn(&Estimate) -> Verdict>(
    task: Task,
    judge: &J,
    n: usize,
    max_tries: usize,
)
    requires
        n < usize::MAX,
        task.settled(judge, n, Verdict::Below),
    ensures
        forall|s: Seq<char>| !task.secret_at(judge, n, false, s),
        forall|e: Error| !task.failure_at(judge, n, false, max_tries, e),
{
    if task.judged(judge, n, Verdict::Meets) {
        lemma_settled_judged(task, judge, n, Verdict::Meets);
    }
    if task.judged(judge, n, Verdict::Zero) {
        lemma_settled_judged(task, judge, n, Verdict::Zero);
    }
}

} // verus!
