//! The order in which a catalogue keeps its symbols: byte-wise lexicographic
//! order of their UTF-8 encodings.

use vstd::prelude::*;
use vstd::utf8::*;

verus! {

/// `a` comes strictly before `b` in byte-wise lexicographic order.
pub open spec fn lex_lt(a: Seq<u8>, b: Seq<u8>) -> bool
    decreases a.len(),
{
    if b.len() == 0 {
        false
    } else if a.len() == 0 {
        true
    } else if a[0] != b[0] {
        a[0] < b[0]
    } else {
        lex_lt(a.drop_first(), b.drop_first())
    }
}

/// The symbol `a` comes strictly before the symbol `b`.
pub open spec fn symbol_lt(a: Seq<char>, b: Seq<char>) -> bool {
    lex_lt(encode_utf8(a), encode_utf8(b))
}

/// How one value stands to another in a total order.
#[derive(Debug, Clone, Copy, PartialEq, Eq, Structural)]
pub enum Rank {
    Before,
    Same,
    After,
}

/// Nothing comes before itself.
pub proof fn lemma_lex_irreflexive(a: Seq<u8>)
    ensures
        !lex_lt(a, a),
    decreases a.len(),
{
    if a.len() > 0 {
        lemma_lex_irreflexive(a.drop_first());
    }
}

/// The order is transitive.
pub proof fn lemma_lex_transitive(a: Seq<u8>, b: Seq<u8>, c: Seq<u8>)
    requires
        lex_lt(a, b),
        lex_lt(b, c),
    ensures
        lex_lt(a, c),
    decreases a.len(),
{
    if a.len() > 0 && a[0] == b[0] && b[0] == c[0] {
        lemma_lex_transitive(a.drop_first(), b.drop_first(), c.drop_first());
    }
}

/// Two different byte strings are ordered one way or the other.
pub proof fn lemma_lex_total(a: Seq<u8>, b: Seq<u8>)
    ensures
        lex_lt(a, b) || lex_lt(b, a) || a == b,
    decreases a.len(),
{
    if a.len() > 0 && b.len() > 0 && a[0] == b[0] {
        lemma_lex_total(a.drop_first(), b.drop_first());
        if a.drop_first() == b.drop_first() {
            assert(a =~= seq![a[0]] + a.drop_first());
            assert(b =~= seq![b[0]] + b.drop_first());
        }
    } else if a.len() == 0 && b.len() == 0 {
        assert(a =~= b);
    }
}

/// Removing a common prefix changes neither the order nor equality.
proof fn lemma_lex_skip(a: Seq<u8>, b: Seq<u8>, k: int)
    requires
        0 <= k <= a.len(),
        k <= b.len(),
        a.take(k) == b.take(k),
    ensures
        lex_lt(a, b) == lex_lt(a.skip(k), b.skip(k)),
        lex_lt(b, a) == lex_lt(b.skip(k), a.skip(k)),
    decreases k,
{
    if k == 0 {
        assert(a.skip(0) =~= a);
        assert(b.skip(0) =~= b);
    } else {
        assert(a[0] == a.take(k)[0]);
        assert(b[0] == b.take(k)[0]);
        assert(a.drop_first().take(k - 1) =~= a.take(k).drop_first());
        assert(b.drop_first().take(k - 1) =~= b.take(k).drop_first());
        lemma_lex_skip(a.drop_first(), b.drop_first(), k - 1);
        assert(a.drop_first().skip(k - 1) =~= a.skip(k));
        assert(b.drop_first().skip(k - 1) =~= b.skip(k));
    }
}

/// Ranks `a` against `b` in byte-wise lexicographic order.
pub fn rank_bytes(a: &[u8], b: &[u8]) -> (r: Rank)
    ensures
        r == Rank::Before <==> lex_lt(a@, b@),
        r == Rank::Same <==> a@ == b@,
        r == Rank::After <==> lex_lt(b@, a@),
{
    let n: usize = if a.len() < b.len() { a.len() } else { b.len() };
    let mut i: usize = 0;
    while i < n && a[i] == b[i]
        invariant
            i <= n,
            n <= a@.len(),
            n <= b@.len(),
            a@.take(i as int) == b@.take(i as int),
        decreases n - i,
    {
        assert(a@.take(i + 1) =~= a@.take(i as int).push(a@[i as int]));
        assert(b@.take(i + 1) =~= b@.take(i as int).push(b@[i as int]));
        i += 1;
    }
    proof {
        lemma_lex_skip(a@, b@, i as int);
        lemma_lex_irreflexive(a@);
        let x = a@.skip(i as int);
        let y = b@.skip(i as int);
        if i < n {
            assert(x[0] == a@[i as int] && y[0] == b@[i as int]);
            assert(a@ != b@);
        } else if a@.len() == b@.len() {
            assert(a@ =~= a@.take(i as int));
            assert(b@ =~= b@.take(i as int));
        }
    }
    if i < n {
        if a[i] < b[i] {
            Rank::Before
        } else {
            Rank::After
        }
    } else if a.len() < b.len() {
        Rank::Before
    } else if a.len() > b.len() {
        Rank::After
    } else {
        Rank::Same
    }
}

/// Ranks the symbol `a` against the symbol `b`.
pub fn rank_symbols(a: &str, b: &str) -> (r: Rank)
    ensures
        r == Rank::Before <==> symbol_lt(a@, b@),
        r == Rank::Same <==> a@ == b@,
        r == Rank::After <==> symbol_lt(b@, a@),
{
    proof {
        encode_utf8_decode_utf8(a@);
        encode_utf8_decode_utf8(b@);
    }
    rank_bytes(a.as_bytes(), b.as_bytes())
}

} // verus!
