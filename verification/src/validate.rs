//! The constraints that a secret can be held to.

use vstd::prelude::*;

use crate::sequence::{
    is_sequence, joined, least_bytes, lemma_joined_byte_len, most_bytes, picks_within,
};
use crate::symbol::{byte_len, longest, shortest};

verus! {

/// Some character of `s` belongs to `group`.
pub open spec fn shares_char(s: Seq<char>, group: Seq<char>) -> bool {
    exists|i: int| 0 <= i < s.len() && group.contains(#[trigger] s[i])
}

/// `s` holds a character of each of the classes.
pub open spec fn covers(s: Seq<char>, groups: Seq<Seq<char>>) -> bool {
    forall|g: int| 0 <= g < groups.len() ==> shares_char(s, #[trigger] groups[g])
}

/// What a validator asks of a text.
pub enum Rule {
    /// Nothing.
    Always,
    /// To take no more bytes than this.
    MaxBytes(usize),
    /// To hold a character of each of these classes.
    Classes(Seq<Seq<char>>),
}

impl Rule {
    /// Whether the text `s` is accepted.
    pub open spec fn accepts(self, s: Seq<char>) -> bool {
        match self {
            Rule::Always => true,
            Rule::MaxBytes(max) => byte_len(s) <= max,
            Rule::Classes(groups) => covers(s, groups),
        }
    }

    /// A condition under which every sequence of `n` symbols is accepted,
    /// decided from the sizes alone: the byte length of the longest symbol
    /// and that of the separator.
    pub open spec fn surely_accepts(self, longest: nat, n: nat, sep_len: nat) -> bool {
        match self {
            Rule::Always => true,
            Rule::MaxBytes(max) => most_bytes(longest, n, sep_len) <= max,
            Rule::Classes(groups) => groups.len() == 0,
        }
    }
}

/// The characters of each class, in order.
pub open spec fn class_texts(groups: Seq<Vec<char>>) -> Seq<Seq<char>> {
    groups.map_values(|g: Vec<char>| g@)
}

/// A predicate on candidate secrets.
#[derive(Debug)]
pub enum Validator {
    /// Every candidate is accepted.
    Always,
    /// A candidate is accepted if it takes no more bytes than this.
    MaxBytes(usize),
    /// A candidate is accepted if it holds a character of each of these
    /// classes.
    Classes(Vec<Vec<char>>),
}

/// Whether `c` is one of `group`.
fn is_member(group: &Vec<char>, c: char) -> (b: bool)
    ensures
        b == group@.contains(c),
{
    let mut found: bool = false;
    let mut j: usize = 0;
    while j < group.len()
        invariant
            j <= group@.len(),
            found == group@.take(j as int).contains(c),
        decreases group@.len() - j,
    {
        proof {
            let head = group@.take(j as int);
            let more = group@.take(j + 1);
            assert(more =~= head.push(group@[j as int]));
            if head.contains(c) {
                let k = choose|k: int| 0 <= k < head.len() && head[k] == c;
                assert(more[k] == c);
            }
            if group@[j as int] == c {
                assert(more[j as int] == c);
            }
        }
        if group[j] == c {
            found = true;
        }
        j += 1;
    }
    assert(group@.take(j as int) =~= group@);
    found
}

/// Whether `candidate` holds a character of `group`.
fn holds_one_of(candidate: &str, group: &Vec<char>) -> (b: bool)
    ensures
        b == shares_char(candidate@, group@),
{
    let mut found: bool = false;
    for c in it: candidate.chars()
        invariant
            it.seq() == candidate@,
            found == shares_char(candidate@.take(it.index() as int), group@),
    {
        let ghost i = it.index() as int;
        proof {
            let head = candidate@.take(i);
            let more = candidate@.take(i + 1);
            assert(more =~= head.push(c));
            if shares_char(head, group@) {
                let k = choose|k: int| 0 <= k < head.len() && group@.contains(#[trigger] head[k]);
                assert(more[k] == head[k]);
            }
            if group@.contains(c) {
                assert(more[i] == c);
            }
            if shares_char(more, group@) {
                let k = choose|k: int| 0 <= k < more.len() && group@.contains(#[trigger] more[k]);
                if k < i {
                    assert(head[k] == more[k]);
                }
            }
        }
        if is_member(group, c) {
            found = true;
        }
    }
    assert(candidate@.take(candidate@.len() as int) =~= candidate@);
    found
}

impl View for Validator {
    type V = Rule;

    open spec fn view(&self) -> Rule {
        match self {
            Validator::Always => Rule::Always,
            Validator::MaxBytes(max) => Rule::MaxBytes(*max),
            Validator::Classes(groups) => Rule::Classes(class_texts(groups@)),
        }
    }
}

impl Validator {
    /// Whether `candidate` is accepted.
    pub fn validate(&self, candidate: &str) -> (ok: bool)
        ensures
            ok == self@.accepts(candidate@),
    {
        match self {
            Validator::Always => true,
            Validator::MaxBytes(max) => candidate.as_bytes().len() <= *max,
            Validator::Classes(groups) => {
                let ghost all = class_texts(groups@);
                let mut ok: bool = true;
                let mut g: usize = 0;
                while g < groups.len()
                    invariant
                        g <= groups@.len(),
                        all == class_texts(groups@),
                        ok == covers(candidate@, all.take(g as int)),
                    decreases groups@.len() - g,
                {
                    proof {
                        let head = all.take(g as int);
                        let more = all.take(g + 1);
                        assert(more[g as int] == groups@[g as int]@);
                        if covers(candidate@, more) {
                            assert forall|h: int| 0 <= h < head.len() implies shares_char(
                                candidate@,
                                #[trigger] head[h],
                            ) by {
                                assert(head[h] == more[h]);
                            }
                        }
                        if covers(candidate@, head) && shares_char(candidate@, groups@[g as int]@) {
                            assert forall|h: int| 0 <= h < more.len() implies shares_char(
                                candidate@,
                                #[trigger] more[h],
                            ) by {
                                if h < g {
                                    assert(head[h] == more[h]);
                                }
                            }
                        }
                    }
                    if !holds_one_of(candidate, &groups[g]) {
                        ok = false;
                    }
                    g += 1;
                }
                assert(all.take(g as int) =~= all);
                ok
            },
        }
    }

    /// Whether every sequence of `n` symbols is known to be accepted from
    /// the sizes alone.
    pub fn always_accepts(&self, longest: usize, n: usize, sep_len: usize) -> (b: bool)
        ensures
            b == self@.surely_accepts(longest as nat, n as nat, sep_len as nat),
    {
        match self {
            Validator::Always => true,
            Validator::MaxBytes(max) => {
                if n == 0 {
                    true
                } else {
                    assert(n * longest >= 0 && (n - 1) * sep_len >= 0) by (nonlinear_arith)
                        requires
                            n >= 1,
                            longest >= 0,
                            sep_len >= 0,
                    ;
                    match (n.checked_mul(longest), (n - 1).checked_mul(sep_len)) {
                        (Some(a), Some(b)) => match a.checked_add(b) {
                            Some(total) => total <= *max,
                            None => false,
                        },
                        _ => false,
                    }
                }
            },
            Validator::Classes(groups) => groups.len() == 0,
        }
    }
}

/// Where the sizes alone show that every sequence is accepted, every
/// sequence is accepted.
pub proof fn lemma_surely_accepts(
    v: Rule,
    symbols: Seq<Seq<char>>,
    n: nat,
    sep: Seq<char>,
    s: Seq<char>,
)
    requires
        v.surely_accepts(longest(symbols), n, byte_len(sep)),
        is_sequence(symbols, n, sep, s),
    ensures
        v.accepts(s),
{
    let picks = choose|picks: Seq<int>|
        picks.len() == n && picks_within(symbols, picks) && s
            == #[trigger] joined(symbols, picks, sep);
    lemma_joined_byte_len(symbols, picks, sep);
}

/// The predicate `validate` can give the answer `b` on the text `s`.
pub open spec fn says<V: Fn(&str) -> bool>(validate: &V, s: Seq<char>, b: bool) -> bool {
    exists|t: &str| #[trigger] t@ == s && validate.ensures((t,), b)
}

/// The predicate `validate` can give the answer `b` on some sequence of `n`
/// symbols.
pub open spec fn says_of_some<V: Fn(&str) -> bool>(
    validate: &V,
    symbols: Seq<Seq<char>>,
    n: nat,
    sep: Seq<char>,
    b: bool,
) -> bool {
    exists|s: Seq<char>| #[trigger] is_sequence(symbols, n, sep, s) && says(validate, s, b)
}

/// A cap below the fewest bytes that a sequence can take rejects every
/// sequence.
pub proof fn lemma_cap_below_least_rejects(
    max: usize,
    symbols: Seq<Seq<char>>,
    n: nat,
    sep: Seq<char>,
    s: Seq<char>,
)
    requires
        max < least_bytes(shortest(symbols), n, byte_len(sep)),
        is_sequence(symbols, n, sep, s),
    ensures
        !Rule::MaxBytes(max).accepts(s),
{
    let picks = choose|picks: Seq<int>|
        picks.len() == n && picks_within(symbols, picks) && s
            == #[trigger] joined(symbols, picks, sep);
    lemma_joined_byte_len(symbols, picks, sep);
}

} // verus!
