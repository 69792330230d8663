//! The catalogue of candidate symbols.

use vstd::prelude::*;
use vstd::std_specs::iter::IteratorSpec;
use vstd::utf8::*;

use crate::err::{Error, ErrorKind};
use crate::lines::{all_text, decoded, lines, not_text_message, read_lines};
use crate::random::Source;
use crate::sequence::{is_sequence, join, joined, part_texts, picked, picks_within};
use crate::order::{lemma_lex_irreflexive, lemma_lex_transitive, rank_symbols, symbol_lt, Rank};

verus! {

/// The text of each string of a list, in order.
pub open spec fn texts(list: Seq<String>) -> Seq<Seq<char>> {
    list.map_values(|s: String| s@)
}

/// Each character as a symbol of its own, in order.
pub open spec fn singles(chars: Seq<char>) -> Seq<Seq<char>> {
    chars.map_values(|c: char| seq![c])
}

/// The symbols that a list of entries gives rise to: every entry but the
/// empty one, each counted once.
pub open spec fn content(items: Seq<Seq<char>>) -> Set<Seq<char>> {
    Set::new(|s: Seq<char>| s.len() > 0 && items.contains(s))
}

/// The number of bytes that a text takes in UTF-8.
pub open spec fn byte_len(s: Seq<char>) -> nat {
    encode_utf8(s).len()
}

/// The byte length of the longest symbol, 0 where there is none.
pub open spec fn longest(s: Seq<Seq<char>>) -> nat
    decreases s.len(),
{
    if s.len() == 0 {
        0
    } else {
        let rest = longest(s.drop_last());
        if byte_len(s.last()) > rest {
            byte_len(s.last())
        } else {
            rest
        }
    }
}

/// The byte length of the shortest symbol, 0 where there is none.
pub open spec fn shortest(s: Seq<Seq<char>>) -> nat
    decreases s.len(),
{
    if s.len() == 0 {
        0
    } else if s.len() == 1 {
        byte_len(s[0])
    } else {
        let rest = shortest(s.drop_last());
        if byte_len(s.last()) < rest {
            byte_len(s.last())
        } else {
            rest
        }
    }
}

/// No symbol is longer than the longest, and none shorter than the shortest.
pub proof fn lemma_length_bounds(s: Seq<Seq<char>>, i: int)
    requires
        0 <= i < s.len(),
    ensures
        shortest(s) <= byte_len(s[i]) <= longest(s),
    decreases s.len(),
{
    if i < s.len() - 1 {
        lemma_length_bounds(s.drop_last(), i);
    }
}

/// `String::push` appends the character to the end of the string.
pub assume_specification[ String::push ](s: &mut String, ch: char)
    ensures
        final(s)@ == old(s)@.push(ch),
;

/// The form in which a catalogue keeps its symbols: none is empty, and they
/// stand in strictly ascending order, so none occurs twice.
pub open spec fn canonical(s: Seq<Seq<char>>) -> bool {
    &&& forall|i: int| 0 <= i < s.len() ==> (#[trigger] s[i]).len() > 0
    &&& forall|i: int, j: int| 0 <= i < j < s.len() ==> symbol_lt(#[trigger] s[i], #[trigger] s[j])
}

/// In a canonical list no symbol occurs twice.
pub proof fn lemma_canonical_distinct(s: Seq<Seq<char>>, i: int, j: int)
    requires
        canonical(s),
        0 <= i < s.len(),
        0 <= j < s.len(),
        s[i] == s[j],
    ensures
        i == j,
{
    lemma_lex_irreflexive(encode_utf8(s[i]));
}

/// A canonical list is determined by the set of its symbols.
pub proof fn lemma_canonical_unique(a: Seq<Seq<char>>, b: Seq<Seq<char>>)
    requires
        canonical(a),
        canonical(b),
        a.to_set() == b.to_set(),
    ensures
        a == b,
    decreases a.len(),
{
    if a.len() == 0 {
        if b.len() > 0 {
            assert(b.to_set().contains(b[0]));
            assert(a.contains(b[0]));
        }
        assert(a =~= b);
    } else if b.len() == 0 {
        assert(a.to_set().contains(a[0]));
        assert(b.contains(a[0]));
    } else {
        let x = a.last();
        let y = b.last();
        assert(a.to_set().contains(x));
        assert(b.to_set().contains(y));
        let i = choose|i: int| 0 <= i < b.len() && b[i] == x;
        let j = choose|j: int| 0 <= j < a.len() && a[j] == y;
        if x != y {
            // x <= y in b and y <= x in a, so each comes before the other
            assert(symbol_lt(b[i], b[b.len() - 1]));
            assert(symbol_lt(a[j], a[a.len() - 1]));
            lemma_lex_transitive(encode_utf8(x), encode_utf8(y), encode_utf8(x));
            lemma_lex_irreflexive(encode_utf8(x));
        }
        let a0 = a.drop_last();
        let b0 = b.drop_last();
        assert forall|s: Seq<char>| a0.to_set().contains(s) <==> b0.to_set().contains(s) by {
            if a0.contains(s) {
                let k = choose|k: int| 0 <= k < a0.len() && a0[k] == s;
                assert(a[k] == s);
                assert(symbol_lt(a[k], a[a.len() - 1]));
                lemma_lex_irreflexive(encode_utf8(x));
                assert(a.to_set().contains(s));
                let m = choose|m: int| 0 <= m < b.len() && b[m] == s;
                assert(b0[m] == s);
            }
            if b0.contains(s) {
                let k = choose|k: int| 0 <= k < b0.len() && b0[k] == s;
                assert(b[k] == s);
                assert(symbol_lt(b[k], b[b.len() - 1]));
                lemma_lex_irreflexive(encode_utf8(y));
                assert(b.to_set().contains(s));
                let m = choose|m: int| 0 <= m < a.len() && a[m] == s;
                assert(a0[m] == s);
            }
        }
        assert(a0.to_set() =~= b0.to_set());
        assert(canonical(a0)) by {
            assert forall|i: int| 0 <= i < a0.len() implies (#[trigger] a0[i]).len() > 0 by {
                assert(a0[i] == a[i]);
            }
            assert forall|i: int, j: int| 0 <= i < j < a0.len() implies symbol_lt(
                #[trigger] a0[i],
                #[trigger] a0[j],
            ) by {
                assert(a0[i] == a[i] && a0[j] == a[j]);
            }
        }
        assert(canonical(b0)) by {
            assert forall|i: int| 0 <= i < b0.len() implies (#[trigger] b0[i]).len() > 0 by {
                assert(b0[i] == b[i]);
            }
            assert forall|i: int, j: int| 0 <= i < j < b0.len() implies symbol_lt(
                #[trigger] b0[i],
                #[trigger] b0[j],
            ) by {
                assert(b0[i] == b[i] && b0[j] == b[j]);
            }
        }
        lemma_canonical_unique(a0, b0);
        assert(a =~= a0.push(x));
        assert(b =~= b0.push(y));
    }
}

/// An immutable catalogue of symbols, each a non-empty string, none twice.
#[derive(Debug)]
pub struct Symbols {
    list: Vec<String>,
}

impl View for Symbols {
    type V = Seq<Seq<char>>;

    closed spec fn view(&self) -> Seq<Seq<char>> {
        texts(self.list@)
    }
}

impl Symbols {
    /// The invariant of a catalogue: its symbols are in canonical form, and
    /// their number fits the machine.
    pub open spec fn wf(&self) -> bool {
        &&& canonical(self@)
        &&& self@.len() <= usize::MAX
    }

    /// The catalogue without any symbol.
    fn empty() -> (r: Symbols)
        ensures
            r.wf(),
            r@ == Seq::<Seq<char>>::empty(),
    {
        let r = Symbols { list: Vec::new() };
        assert(r@ =~= Seq::<Seq<char>>::empty());
        r
    }

    /// Adds one symbol, unless the catalogue holds it already.
    fn insert(&mut self, s: String)
        requires
            old(self).wf(),
            s@.len() > 0,
        ensures
            final(self).wf(),
            final(self)@.to_set() == old(self)@.to_set().insert(s@),
    {
        let ghost before = self@;
        let mut p: usize = self.list.len();
        let mut above: bool = true;
        while above && p > 0
            invariant
                self@ == before,
                canonical(before),
                p <= self.list@.len(),
                self.list@.len() == before.len(),
                forall|j: int| p <= j < before.len() ==> symbol_lt(s@, #[trigger] before[j]),
                !above ==> p > 0 && symbol_lt(before[p - 1], s@),
            decreases p + if above { 1int } else { 0int },
        {
            assert(before[p - 1] == self.list@[p - 1]@);
            match rank_symbols(s.as_str(), self.list[p - 1].as_str()) {
                Rank::Before => {
                    p -= 1;
                },
                Rank::Same => {
                    assert(self.list@.len() == self.list.len());
                    assert(before.to_set().contains(s@));
                    assert(before.to_set().insert(s@) =~= before.to_set());
                    return ;
                },
                Rank::After => {
                    above = false;
                },
            }
        }
        let ghost text = s@;
        self.list.insert(p, s);
        proof {
            let after = self@;
            assert(self.list@.len() == self.list.len());
            assert(after =~= before.insert(p as int, text));
            if p > 0 {
                assert(symbol_lt(before[p - 1], text));
            }
            assert forall|i: int, j: int| 0 <= i < j < after.len() implies symbol_lt(
                #[trigger] after[i],
                #[trigger] after[j],
            ) by {
                if j < p {
                    assert(after[i] == before[i] && after[j] == before[j]);
                } else if j == p {
                    assert(after[i] == before[i]);
                    if i < p - 1 {
                        assert(symbol_lt(before[i], before[p - 1]));
                        lemma_lex_transitive(
                            encode_utf8(before[i]),
                            encode_utf8(before[p - 1]),
                            encode_utf8(text),
                        );
                    }
                } else if i < p {
                    assert(after[i] == before[i] && after[j] == before[j - 1]);
                } else if i == p {
                    assert(after[j] == before[j - 1]);
                } else {
                    assert(after[i] == before[i - 1] && after[j] == before[j - 1]);
                }
            }
            assert forall|i: int| 0 <= i < after.len() implies (#[trigger] after[i]).len() > 0 by {
                if i < p {
                    assert(after[i] == before[i]);
                } else if i > p {
                    assert(after[i] == before[i - 1]);
                }
            }
            assert forall|x: Seq<char>| after.to_set().contains(x) <==> before.to_set().insert(
                text,
            ).contains(x) by {
                if after.contains(x) {
                    let k = choose|k: int| 0 <= k < after.len() && after[k] == x;
                    if k < p {
                        assert(before[k] == x);
                    } else if k > p {
                        assert(before[k - 1] == x);
                    }
                }
                if before.contains(x) {
                    let k = choose|k: int| 0 <= k < before.len() && before[k] == x;
                    if k < p {
                        assert(after[k] == x);
                    } else {
                        assert(after[k + 1] == x);
                    }
                }
                if x == text {
                    assert(after[p as int] == x);
                }
            }
            assert(after.to_set() =~= before.to_set().insert(text));
        }
    }

    /// The catalogue of the entries that `iter` yields: duplicates count
    /// once, and the empty string is left out.
    pub fn from_iter<I: Iterator<Item = String>>(iter: I) -> (r: Symbols)
        requires
            iter.obeys_prophetic_iter_laws(),
            iter.decrease() is Some,
        ensures
            r.wf(),
            r@.to_set() == content(texts(iter.remaining())),
    {
        let mut r = Symbols::empty();
        let mut it = iter;
        let ghost all = iter.remaining();
        let ghost done = Seq::<String>::empty();
        loop
            invariant
                r.wf(),
                it.obeys_prophetic_iter_laws(),
                it.decrease() is Some,
                all == iter.remaining(),
                done + it.remaining() == all,
                r@.to_set() =~= content(texts(done)),
            decreases it.decrease()->0,
        {
            let ghost rest = it.remaining();
            match it.next() {
                Some(s) => {
                    let ghost text = s@;
                    let ghost seen = done;
                    proof {
                        done = done.push(s);
                        assert(done + it.remaining() =~= seen + rest);
                        assert(texts(done) =~= texts(seen).push(text));
                    }
                    if !s.as_str().is_empty() {
                        r.insert(s);
                    }
                    proof {
                        lemma_content_push(texts(seen), text);
                    }
                },
                None => {
                    assert(done + rest =~= done);
                    return r;
                },
            }
        }
    }

    /// The catalogue of the characters that `chars` yields, each a symbol of
    /// its own: duplicates count once.
    pub fn from_chars<I: Iterator<Item = char>>(chars: I) -> (r: Symbols)
        requires
            chars.obeys_prophetic_iter_laws(),
            chars.decrease() is Some,
        ensures
            r.wf(),
            r@.to_set() == content(singles(chars.remaining())),
    {
        let mut r = Symbols::empty();
        let mut it = chars;
        let ghost all = chars.remaining();
        let ghost done = Seq::<char>::empty();
        loop
            invariant
                r.wf(),
                it.obeys_prophetic_iter_laws(),
                it.decrease() is Some,
                all == chars.remaining(),
                done + it.remaining() == all,
                r@.to_set() =~= content(singles(done)),
            decreases it.decrease()->0,
        {
            let ghost rest = it.remaining();
            match it.next() {
                Some(c) => {
                    let ghost seen = done;
                    proof {
                        done = done.push(c);
                        assert(done + it.remaining() =~= seen + rest);
                        assert(singles(done) =~= singles(seen).push(seq![c]));
                        lemma_content_push(singles(seen), seq![c]);
                    }
                    let mut s = String::new();
                    s.push(c);
                    assert(s@ =~= seq![c]);
                    r.insert(s);
                },
                None => {
                    assert(done + rest =~= done);
                    return r;
                },
            }
        }
    }

    /// The catalogue of the lines of a word list: duplicates count once, and
    /// empty lines are left out. Fails if a line is not valid UTF-8.
    pub fn from_bufread(r: &[u8]) -> (res: Result<Symbols, Error>)
        ensures
            res is Ok <==> all_text(lines(r@)),
            res matches Ok(s) ==> s.wf() && s@.to_set() == content(decoded(lines(r@))),
            res matches Err(e) ==> e.kind() == ErrorKind::Io && e.spec_message()
                == not_text_message(),
    {
        match read_lines(r) {
            Ok(list) => Ok(Symbols::from_vec(list)),
            Err(e) => Err(e),
        }
    }

    /// The number of symbols.
    pub fn len(&self) -> (n: usize)
        ensures
            n == self@.len(),
    {
        self.list.len()
    }

    /// Whether the catalogue holds no symbol.
    pub fn is_empty(&self) -> (b: bool)
        ensures
            b == (self@.len() == 0),
    {
        self.list.len() == 0
    }

    /// The symbols, in the order in which the catalogue keeps them.
    pub fn as_list(&self) -> (list: &Vec<String>)
        ensures
            texts(list@) == self@,
    {
        &self.list
    }

    /// The byte length of the longest symbol, 0 where there is none.
    pub fn max_symbol_len(&self) -> (m: usize)
        ensures
            m == longest(self@),
    {
        let mut m: usize = 0;
        let n: usize = self.list.len();
        let mut i: usize = 0;
        assert(self@.take(0) =~= Seq::<Seq<char>>::empty());
        while i < n
            invariant
                n == self.list@.len(),
                n == self@.len(),
                i <= n,
                m == longest(self@.take(i as int)),
            decreases n - i,
        {
            assert(self@.take(i + 1).drop_last() =~= self@.take(i as int));
            assert(self@.take(i + 1).last() == self.list@[i as int]@);
            let k: usize = self.list[i].as_str().as_bytes().len();
            if k > m {
                m = k;
            }
            i += 1;
        }
        assert(self@.take(n as int) =~= self@);
        m
    }

    /// Draws `n` symbols from `source`, each uniformly and independently of
    /// the others, and joins them by `sep`.
    pub(crate) fn draw<S: Source>(&self, source: &mut S, n: usize, sep: &str) -> (res: String)
        requires
            self@.len() > 0,
        ensures
            is_sequence(self@, n as nat, sep@, res@),
    {
        let mut parts: Vec<&String> = Vec::new();
        let ghost picks = Seq::<int>::empty();
        for i in 0..n
            invariant
                self@.len() > 0,
                picks.len() == i,
                parts@.len() == i,
                picks_within(self@, picks),
                part_texts(parts@) =~= picked(self@, picks),
        {
            let s = source.pick(&self.list).unwrap();
            let ghost before = parts@;
            parts.push(s);
            proof {
                let list = self.list@;
                let k = choose|k: int| 0 <= k < list.len() && list[k] == *s;
                assert(self@[k] == s@);
                let more = picks.push(k);
                assert forall|j: int| 0 <= j < more.len() implies part_texts(parts@)[j] == picked(
                    self@,
                    more,
                )[j] by {
                    if j < i {
                        assert(part_texts(before)[j] == picked(self@, picks)[j]);
                        assert(parts@[j] == before[j]);
                    }
                }
                picks = more;
            }
        }
        let res = join(&parts, sep);
        assert(res@ == joined(self@, picks, sep@));
        res
    }

    /// The catalogue of the entries of `list`: duplicates count once, and
    /// the empty string is left out.
    pub fn from_vec(list: Vec<String>) -> (r: Symbols)
        ensures
            r.wf(),
            r@.to_set() == content(texts(list@)),
    {
        Symbols::from_iter(list.into_iter())
    }
}

/// Appending an entry adds it to the content, unless it is empty.
pub proof fn lemma_content_push(items: Seq<Seq<char>>, x: Seq<char>)
    ensures
        content(items.push(x)) == if x.len() > 0 {
            content(items).insert(x)
        } else {
            content(items)
        },
{
    let more = items.push(x);
    assert forall|s: Seq<char>| more.contains(s) <==> items.contains(s) || s == x by {
        if items.contains(s) {
            let k = choose|k: int| 0 <= k < items.len() && items[k] == s;
            assert(more[k] == s);
        }
        if s == x {
            assert(more[items.len() as int] == s);
        }
    }
    if x.len() > 0 {
        assert(content(more) =~= content(items).insert(x));
    } else {
        assert(content(more) =~= content(items));
    }
}

} // verus!
