//! Reading a word list: bytes cut into lines, each line decoded as UTF-8.

use vstd::prelude::*;
use vstd::slice::slice_subrange;
use vstd::utf8::*;

use crate::err::{Error, ErrorKind};
use crate::symbol::texts;

verus! {

/// The byte that ends a line.
pub const LINE_FEED: u8 = 10;

/// The byte that may precede a line feed and then belongs to the line end.
pub const CARRIAGE_RETURN: u8 = 13;

/// The pieces into which the line feeds cut `b`. There is always a last
/// piece: what follows the last line feed, empty if nothing does.
pub open spec fn pieces(b: Seq<u8>) -> Seq<Seq<u8>>
    decreases b.len(),
{
    if b.len() == 0 {
        seq![Seq::empty()]
    } else {
        let p = pieces(b.drop_last());
        if b.last() == LINE_FEED {
            p.push(Seq::empty())
        } else {
            p.update(p.len() - 1, p.last().push(b.last()))
        }
    }
}

/// A piece without the carriage return at its end, if it has one.
pub open spec fn chomp(piece: Seq<u8>) -> Seq<u8> {
    if piece.len() > 0 && piece.last() == CARRIAGE_RETURN {
        piece.drop_last()
    } else {
        piece
    }
}

/// The lines of `b`: each piece that a line feed ends, without its line end,
/// and then what follows the last line feed, as it stands, unless that is
/// empty.
pub open spec fn lines(b: Seq<u8>) -> Seq<Seq<u8>> {
    let p = pieces(b);
    let ended = p.drop_last().map_values(|piece: Seq<u8>| chomp(piece));
    if p.last().len() > 0 {
        ended.push(p.last())
    } else {
        ended
    }
}

/// Every line is valid UTF-8.
pub open spec fn all_text(ls: Seq<Seq<u8>>) -> bool {
    forall|k: int| 0 <= k < ls.len() ==> valid_utf8(#[trigger] ls[k])
}

/// Each line decoded.
pub open spec fn decoded(ls: Seq<Seq<u8>>) -> Seq<Seq<char>> {
    ls.map_values(|l: Seq<u8>| decode_utf8(l))
}

/// There is at least one piece.
pub proof fn lemma_pieces_nonempty(b: Seq<u8>)
    ensures
        pieces(b).len() >= 1,
    decreases b.len(),
{
    if b.len() > 0 {
        lemma_pieces_nonempty(b.drop_last());
    }
}

/// The pieces that a line feed has ended within a prefix of `b` are pieces
/// of `b`, at the same places.
pub proof fn lemma_pieces_prefix(b: Seq<u8>, i: int)
    requires
        0 <= i <= b.len(),
    ensures
        pieces(b.take(i)).len() <= pieces(b).len(),
        forall|k: int|
            0 <= k < pieces(b.take(i)).len() - 1 ==> #[trigger] pieces(b)[k] == pieces(b.take(i))[k],
    decreases b.len(),
{
    lemma_pieces_nonempty(b.take(i));
    if i == b.len() {
        assert(b.take(i) =~= b);
    } else {
        assert(b.drop_last().take(i) =~= b.take(i));
        lemma_pieces_prefix(b.drop_last(), i);
    }
}

#[verifier::external_type_specification]
#[verifier::external_body]
pub struct ExUtf8Error(core::str::Utf8Error);

/// `core::str::from_utf8` succeeds exactly on the byte strings that are
/// valid UTF-8, and the string slice it then returns has those bytes.
pub assume_specification[ core::str::from_utf8 ](v: &[u8]) -> (r: Result<
    &str,
    core::str::Utf8Error,
>)
    ensures
        r is Ok <==> valid_utf8(v@),
        r matches Ok(s) ==> encode_utf8(s@) == v@,
;

/// The message of the error for a line that is not valid UTF-8.
pub open spec fn not_text_message() -> Seq<char> {
    "stream did not contain valid UTF-8"@
}

/// The error for a line that is not valid UTF-8.
fn not_text() -> (e: Error)
    ensures
        e.kind() == ErrorKind::Io,
        e.spec_message() == not_text_message(),
{
    Error::with_kind(ErrorKind::Io, "stream did not contain valid UTF-8")
}

/// Reads the lines of a word list. Fails if a line is not valid UTF-8.
pub fn read_lines(bytes: &[u8]) -> (r: Result<Vec<String>, Error>)
    ensures
        r is Ok <==> all_text(lines(bytes@)),
        r matches Ok(list) ==> texts(list@) == decoded(lines(bytes@)),
        r matches Err(e) ==> e.kind() == ErrorKind::Io && e.spec_message() == not_text_message(),
{
    let n: usize = bytes.len();
    let mut list: Vec<String> = Vec::new();
    let mut start: usize = 0;
    let mut i: usize = 0;
    let ghost ended = Seq::<Seq<u8>>::empty();
    assert(bytes@.take(0) =~= Seq::<u8>::empty());
    assert(bytes@.subrange(0, 0) =~= Seq::<u8>::empty());
    assert(pieces(bytes@.take(0)) =~= ended.push(bytes@.subrange(0, 0)));
    while i < n
        invariant
            n == bytes@.len(),
            start <= i <= n,
            pieces(bytes@.take(i as int)) == ended.push(bytes@.subrange(start as int, i as int)),
            list@.len() == ended.len(),
            forall|k: int| 0 <= k < ended.len() ==> valid_utf8(chomp(#[trigger] ended[k])),
            forall|k: int|
                0 <= k < ended.len() ==> (#[trigger] list@[k])@ == decode_utf8(chomp(ended[k])),
        decreases n - i,
    {
        let ghost piece = bytes@.subrange(start as int, i as int);
        proof {
            assert(bytes@.take(i + 1).drop_last() =~= bytes@.take(i as int));
            assert(bytes@.take(i + 1).last() == bytes@[i as int]);
        }
        if bytes[i] == LINE_FEED {
            let mut end: usize = i;
            if end > start && bytes[end - 1] == CARRIAGE_RETURN {
                end -= 1;
            }
            let line = slice_subrange(bytes, start, end);
            assert(line@ =~= chomp(piece));
            match core::str::from_utf8(line) {
                Ok(text) => {
                    proof {
                        encode_utf8_decode_utf8(text@);
                        assert(text@ == decode_utf8(chomp(piece)));
                    }
                    list.push(text.to_owned());
                },
                Err(_) => {
                    proof {
                        let k = ended.len() as int;
                        lemma_pieces_prefix(bytes@, i + 1);
                        lemma_pieces_nonempty(bytes@);
                        assert(pieces(bytes@.take(i + 1)) =~= ended.push(piece).push(Seq::empty()));
                        assert(pieces(bytes@)[k] == piece);
                        assert(lines(bytes@)[k] == chomp(piece));
                    }
                    return Err(not_text());
                },
            }
            proof {
                ended = ended.push(piece);
                assert(bytes@.subrange(i + 1, i + 1) =~= Seq::<u8>::empty());
            }
            start = i + 1;
        } else {
            assert(bytes@.subrange(start as int, i + 1) =~= piece.push(bytes@[i as int]));
            assert(ended.push(piece).update(ended.len() as int, piece.push(bytes@[i as int]))
                =~= ended.push(piece.push(bytes@[i as int])));
        }
        i += 1;
    }
    let ghost rest = bytes@.subrange(start as int, n as int);
    proof {
        assert(bytes@.take(n as int) =~= bytes@);
        assert(pieces(bytes@).drop_last() =~= ended);
        assert(pieces(bytes@).last() == rest);
    }
    if start < n {
        let line = slice_subrange(bytes, start, n);
        match core::str::from_utf8(line) {
            Ok(text) => {
                proof {
                    encode_utf8_decode_utf8(text@);
                    assert(text@ == decode_utf8(rest));
                }
                list.push(text.to_owned());
            },
            Err(_) => {
                assert(lines(bytes@)[ended.len() as int] == rest);
                return Err(not_text());
            },
        }
    }
    proof {
        let ls = lines(bytes@);
        assert(texts(list@) =~= decoded(ls));
        assert(all_text(ls));
    }
    Ok(list)
}

} // verus!
