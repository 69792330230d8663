//! Sequences: symbols drawn from a catalogue and joined by a separator.

use vstd::prelude::*;
use vstd::utf8::*;

use crate::entropy::accepts_all;
use crate::err::{Error, ErrorKind};
use crate::random::Secure;
use crate::symbol::{byte_len, lemma_length_bounds, longest, shortest, Symbols};
use crate::validate::{says, says_of_some, Validator};

verus! {

/// The parts, in order, with `sep` between each two neighbours: none
/// before the first part, and none after the last.
pub open spec fn glued(parts: Seq<Seq<char>>, sep: Seq<char>) -> Seq<char>
    decreases parts.len(),
{
    if parts.len() == 0 {
        Seq::empty()
    } else if parts.len() == 1 {
        parts[0]
    } else {
        glued(parts.drop_last(), sep) + sep + parts.last()
    }
}

/// The symbols at the places `picks`, in the order of the picks.
pub open spec fn picked(symbols: Seq<Seq<char>>, picks: Seq<int>) -> Seq<Seq<char>> {
    picks.map_values(|i: int| symbols[i])
}

/// The symbols at the places `picks`, joined by `sep`.
pub open spec fn joined(symbols: Seq<Seq<char>>, picks: Seq<int>, sep: Seq<char>) -> Seq<char> {
    glued(picked(symbols, picks), sep)
}

/// The text of each part, in order.
pub open spec fn part_texts(parts: Seq<&String>) -> Seq<Seq<char>> {
    parts.map_values(|s: &String| s@)
}

/// Joins the parts by `sep`, in their order.
pub fn join(parts: &Vec<&String>, sep: &str) -> (res: String)
    ensures
        res@ == glued(part_texts(parts@), sep@),
{
    let mut res = String::new();
    let ghost all = part_texts(parts@);
    assert(all.take(0) =~= Seq::<Seq<char>>::empty());
    for i in 0..parts.len()
        invariant
            all == part_texts(parts@),
            res@ == glued(all.take(i as int), sep@),
    {
        if i > 0 {
            res.append(sep);
        }
        res.append(parts[i].as_str());
        proof {
            let more = all.take(i + 1);
            assert(more.drop_last() =~= all.take(i as int));
            assert(more.last() == parts@[i as int]@);
            if i == 0 {
                assert(res@ =~= parts@[0]@);
            }
        }
    }
    assert(all.take(parts@.len() as int) =~= all);
    res
}

/// Every pick is a place in the catalogue.
pub open spec fn picks_within(symbols: Seq<Seq<char>>, picks: Seq<int>) -> bool {
    forall|i: int| 0 <= i < picks.len() ==> 0 <= #[trigger] picks[i] < symbols.len()
}

/// `s` is a sequence of `n` symbols of the catalogue, joined by `sep`.
pub open spec fn is_sequence(symbols: Seq<Seq<char>>, n: nat, sep: Seq<char>, s: Seq<char>) -> bool {
    exists|picks: Seq<int>|
        picks.len() == n && picks_within(symbols, picks) && s == #[trigger] joined(
            symbols,
            picks,
            sep,
        )
}

/// From a catalogue that is not empty, a sequence of every length can be
/// drawn.
pub proof fn lemma_sequence_exists(symbols: Seq<Seq<char>>, n: nat, sep: Seq<char>) -> (s: Seq<
    char,
>)
    requires
        symbols.len() > 0,
    ensures
        is_sequence(symbols, n, sep, s),
{
    let picks = Seq::new(n, |i: int| 0int);
    assert(picks_within(symbols, picks));
    joined(symbols, picks, sep)
}

/// The encoding of a concatenation is the concatenation of the encodings.
pub proof fn lemma_encode_concat(a: Seq<char>, b: Seq<char>)
    ensures
        encode_utf8(a + b) == encode_utf8(a) + encode_utf8(b),
    decreases a.len(),
{
    if a.len() == 0 {
        assert(a + b =~= b);
        assert(encode_utf8(a) + encode_utf8(b) =~= encode_utf8(b));
    } else {
        assert((a + b).drop_first() =~= a.drop_first() + b);
        lemma_encode_concat(a.drop_first(), b);
        assert(encode_utf8(a + b) =~= encode_utf8(a) + encode_utf8(b));
    }
}

/// The most bytes that a sequence of `n` symbols can take, where no symbol
/// takes more than `longest` bytes and the separator takes `sep_len`.
pub open spec fn most_bytes(longest: nat, n: nat, sep_len: nat) -> nat {
    if n == 0 {
        0
    } else {
        (n * longest + (n - 1) * sep_len) as nat
    }
}

/// The fewest bytes that a sequence of `n` symbols can take, where no
/// symbol takes fewer than `shortest` bytes and the separator takes
/// `sep_len`.
pub open spec fn least_bytes(shortest: nat, n: nat, sep_len: nat) -> nat {
    if n == 0 {
        0
    } else {
        (n * shortest + (n - 1) * sep_len) as nat
    }
}

/// A sequence takes no more bytes than `most_bytes` allows, and no fewer
/// than `least_bytes` asks for.
pub proof fn lemma_joined_byte_len(symbols: Seq<Seq<char>>, picks: Seq<int>, sep: Seq<char>)
    requires
        picks_within(symbols, picks),
    ensures
        byte_len(joined(symbols, picks, sep)) <= most_bytes(
            longest(symbols),
            picks.len(),
            byte_len(sep),
        ),
        byte_len(joined(symbols, picks, sep)) >= least_bytes(
            shortest(symbols),
            picks.len(),
            byte_len(sep),
        ),
    decreases picks.len(),
{
    let n = picks.len();
    let m = longest(symbols);
    let l = shortest(symbols);
    let k = byte_len(sep);
    if n == 0 {
    } else if n == 1 {
        lemma_length_bounds(symbols, picks[0]);
        assert(picked(symbols, picks)[0] == symbols[picks[0]]);
        assert(n * l + (n - 1) * k == l && n * m + (n - 1) * k == m) by (nonlinear_arith)
            requires
                n == 1,
        ;
    } else {
        let init = picks.drop_last();
        lemma_joined_byte_len(symbols, init, sep);
        lemma_length_bounds(symbols, picks.last());
        let head = joined(symbols, init, sep);
        assert(picked(symbols, picks).drop_last() =~= picked(symbols, init));
        assert(picked(symbols, picks).last() == symbols[picks.last()]);
        lemma_encode_concat(head, sep);
        lemma_encode_concat(head + sep, symbols[picks.last()]);
        assert(byte_len(joined(symbols, picks, sep)) == byte_len(head) + k + byte_len(
            symbols[picks.last()],
        ));
        assert((n - 1) * m + (n - 2) * k + k + m == n * m + (n - 1) * k) by (nonlinear_arith);
        assert((n - 1) * l + (n - 2) * k + k + l == n * l + (n - 1) * k) by (nonlinear_arith);
    }
}

impl Symbols {
    /// A secret: `n` symbols drawn from the secure source, each uniformly
    /// and independently of the others, joined by `sep`, and accepted by
    /// `validator`. Sequences are drawn until one is accepted, `max_tries`
    /// times at most.
    ///
    /// Fails on an empty catalogue, and when every draw was rejected.
    /// Aborts where the operating system supplies no random bytes.
    pub fn generate(&self, n: usize, sep: &str, validator: &Validator, max_tries: usize) -> (r:
        Result<String, Error>)
        ensures
            match r {
                Ok(s) => {
                    &&& self@.len() > 0
                    &&& is_sequence(self@, n as nat, sep@, s@)
                    &&& validator@.accepts(s@)
                },
                Err(e) => if self@.len() == 0 {
                    e.kind() == ErrorKind::EmptySymbolSet
                } else {
                    &&& e.kind() == ErrorKind::RetriesExhausted
                    &&& max_tries == 0 || !accepts_all(validator@, self@, n as nat, sep@)
                },
            },
    {
        if self.is_empty() {
            return Err(Error::with_kind(ErrorKind::EmptySymbolSet, "No symbols."));
        }
        let mut source = Secure;
        let mut tries: usize = 0;
        while tries < max_tries
            invariant
                self@.len() > 0,
                tries <= max_tries,
                tries > 0 ==> !accepts_all(validator@, self@, n as nat, sep@),
            decreases max_tries - tries,
        {
            let password = self.draw(&mut source, n, sep);
            if validator.validate(password.as_str()) {
                return Ok(password);
            }
            tries += 1;
        }
        Err(Error::with_kind(ErrorKind::RetriesExhausted, "Every draw was rejected."))
    }

    /// A secret as `generate` draws it, accepted by a predicate of the
    /// caller's own: a sequence on which `validate` answered `true`.
    ///
    /// Fails on an empty catalogue, and when every draw was rejected, which
    /// takes a sequence on which `validate` can answer `false`. Aborts
    /// where the operating system supplies no random bytes.
    pub fn generate_with<V: Fn(&str) -> bool>(
        &self,
        n: usize,
        sep: &str,
        validate: &V,
        max_tries: usize,
    ) -> (r: Result<String, Error>)
        requires
            forall|s: &str| validate.requires((s,)),
        ensures
            match r {
                Ok(s) => {
                    &&& self@.len() > 0
                    &&& is_sequence(self@, n as nat, sep@, s@)
                    &&& says(validate, s@, true)
                },
                Err(e) => if self@.len() == 0 {
                    e.kind() == ErrorKind::EmptySymbolSet
                } else {
                    &&& e.kind() == ErrorKind::RetriesExhausted
                    &&& max_tries == 0 || says_of_some(validate, self@, n as nat, sep@, false)
                },
            },
    {
        if self.is_empty() {
            return Err(Error::with_kind(ErrorKind::EmptySymbolSet, "No symbols."));
        }
        let mut source = Secure;
        let mut tries: usize = 0;
        while tries < max_tries
            invariant
                self@.len() > 0,
                tries <= max_tries,
                forall|s: &str| validate.requires((s,)),
                tries > 0 ==> says_of_some(validate, self@, n as nat, sep@, false),
            decreases max_tries - tries,
        {
            let password = self.draw(&mut source, n, sep);
            let text = password.as_str();
            let ok = validate(text);
            assert(says(validate, password@, ok)) by {
                assert(text@ == password@ && validate.ensures((text,), ok));
            }
            if ok {
                return Ok(password);
            }
            tries += 1;
        }
        Err(Error::with_kind(ErrorKind::RetriesExhausted, "Every draw was rejected."))
    }
}

} // verus!
