//! How the texts of a request are read at its other end: what the laws of this
//! library are stated with. Nothing here knows how the texts are written.

use vstd::prelude::*;
use vstd::utf8::encode_utf8;

verus! {

/// The pieces of a text between the marks, at least one.
pub open spec fn pieces(text: Seq<char>, mark: char) -> Seq<Seq<char>>
    decreases text.len(),
{
    if text.len() == 0 {
        seq![Seq::empty()]
    } else {
        let rest = pieces(text.skip(1), mark);
        if text[0] == mark {
            seq![Seq::<char>::empty()] + rest
        } else {
            rest.update(0, seq![text[0]] + rest[0])
        }
    }
}

/// The number that a hexadecimal digit of either case stands for.
pub open spec fn hex_value(c: char) -> int {
    if '0' <= c <= '9' {
        c as int - '0' as int
    } else if 'A' <= c <= 'F' {
        c as int - 'A' as int + 10
    } else {
        c as int - 'a' as int + 10
    }
}

/// The bytes of percent encoded text: two hexadecimal digits behind a percent
/// sign are a byte, and every other character is the byte of its code.
pub open spec fn percent_decoded(text: Seq<char>) -> Seq<u8>
    decreases text.len(),
{
    if text.len() == 0 {
        Seq::empty()
    } else if text[0] == '%' && text.len() >= 3 {
        seq![(hex_value(text[1]) * 16 + hex_value(text[2])) as u8] + percent_decoded(text.skip(3))
    } else {
        seq![text[0] as u8] + percent_decoded(text.skip(1))
    }
}

/// The name and the value of one parameter of a query, as bytes.
pub open spec fn query_pair(piece: Seq<char>) -> (Seq<u8>, Seq<u8>) {
    let halves = pieces(piece, '=');
    (percent_decoded(halves[0]), percent_decoded(halves[1]))
}

/// The names and values of a query, as bytes, in the order of the query.
pub open spec fn query_pairs(query: Seq<char>) -> Seq<(Seq<u8>, Seq<u8>)> {
    if query.len() == 0 {
        Seq::empty()
    } else {
        pieces(query, '&').map_values(|piece: Seq<char>| query_pair(piece))
    }
}

/// Whether `a` comes before `b` in a dictionary: the two part at some place,
/// where `a` ends or has the smaller byte.
pub open spec fn comes_before(a: Seq<u8>, b: Seq<u8>) -> bool {
    exists|at: int|
        #![trigger a.take(at)]
        0 <= at <= a.len() && at < b.len() && a.take(at) == b.take(at) && (at == a.len() || a[at]
            < b[at])
}

/// The number that a base64 digit stands for.
pub open spec fn base64_value(c: char) -> int {
    if 'A' <= c <= 'Z' {
        c as int - 'A' as int
    } else if 'a' <= c <= 'z' {
        c as int - 'a' as int + 26
    } else if '0' <= c <= '9' {
        c as int - '0' as int + 52
    } else if c == '+' {
        62
    } else {
        63
    }
}

/// The bytes of base64 text: four digits are three bytes, and each `=` at the
/// end is a byte less.
pub open spec fn base64_decoded(text: Seq<char>) -> Seq<u8>
    decreases text.len(),
{
    if text.len() < 4 {
        Seq::empty()
    } else {
        let bits = base64_value(text[0]) * 262_144 + base64_value(text[1]) * 4_096 + (if text[2]
            == '=' {
            0
        } else {
            base64_value(text[2])
        }) * 64 + (if text[3] == '=' {
            0
        } else {
            base64_value(text[3])
        });
        let bytes = seq![(bits / 65_536) as u8, (bits / 256 % 256) as u8, (bits % 256) as u8];
        if text[2] == '=' {
            bytes.take(1)
        } else if text[3] == '=' {
            bytes.take(2)
        } else {
            bytes + base64_decoded(text.skip(4))
        }
    }
}

/// Whether a text is a number in decimal, without leading zeros.
pub open spec fn is_decimal(digits: Seq<char>) -> bool {
    &&& digits.len() > 0
    &&& forall|i: int| 0 <= i < digits.len() ==> '0' <= #[trigger] digits[i] <= '9'
    &&& digits.len() > 1 ==> digits[0] != '0'
}

/// The character that stands behind a backslash in a JSON string, for those
/// that are written with one letter.
pub open spec fn json_letter(c: char) -> Option<char> {
    if c == '"' || c == '\\' || c == '/' {
        Some(c)
    } else if c == 'b' {
        Some('\u{8}')
    } else if c == 'f' {
        Some('\u{c}')
    } else if c == 'n' {
        Some('\n')
    } else if c == 'r' {
        Some('\r')
    } else if c == 't' {
        Some('\t')
    } else {
        None
    }
}

/// The text that stands between the quotes of a JSON string, or nothing where a
/// quote or a control character stands there bare, or a backslash before what
/// it cannot stand before.
pub open spec fn json_unescaped(body: Seq<char>) -> Option<Seq<char>>
    decreases body.len(),
{
    if body.len() == 0 {
        Some(Seq::empty())
    } else if body[0] == '"' || body[0] <= '\u{1f}' {
        None
    } else if body[0] != '\\' {
        match json_unescaped(body.skip(1)) {
            Some(rest) => Some(seq![body[0]] + rest),
            None => None,
        }
    } else if body.len() >= 6 && body[1] == 'u' {
        match json_unescaped(body.skip(6)) {
            Some(rest) => Some(
                seq![
                    (hex_value(body[2]) * 4_096 + hex_value(body[3]) * 256 + hex_value(body[4]) * 16
                        + hex_value(body[5])) as char,
                ] + rest,
            ),
            None => None,
        }
    } else if body.len() >= 2 && json_letter(body[1]) is Some {
        match json_unescaped(body.skip(2)) {
            Some(rest) => Some(seq![json_letter(body[1])->Some_0] + rest),
            None => None,
        }
    } else {
        None
    }
}

/// A text has at least one piece, and its pieces hold no mark.
pub(crate) proof fn lemma_pieces_hold_no_mark(text: Seq<char>, mark: char)
    ensures
        pieces(text, mark).len() > 0,
        forall|i: int|
            0 <= i < pieces(text, mark).len() ==> !(#[trigger] pieces(text, mark)[i]).contains(
                mark,
            ),
    decreases text.len(),
{
    if text.len() > 0 {
        lemma_pieces_hold_no_mark(text.skip(1), mark);
        let rest = pieces(text.skip(1), mark);
        let all = pieces(text, mark);
        assert forall|i: int| 0 <= i < all.len() implies !(#[trigger] all[i]).contains(mark) by {
            if text[0] == mark {
                if i > 0 {
                    assert(all[i] == rest[i - 1]);
                }
            } else if i == 0 {
                if all[0].contains(mark) {
                    let k = choose|k: int| 0 <= k < all[0].len() && all[0][k] == mark;
                    assert(rest[0][k - 1] == mark);
                    assert(rest[0].contains(mark));
                }
            } else {
                assert(all[i] == rest[i]);
            }
        }
    }
}

/// The pieces of a text with a mark in it are those before and those behind it.
pub(crate) proof fn lemma_pieces_at_mark(a: Seq<char>, b: Seq<char>, mark: char)
    ensures
        pieces(a + seq![mark] + b, mark) == pieces(a, mark) + pieces(b, mark),
    decreases a.len(),
{
    let all = a + seq![mark] + b;
    lemma_pieces_hold_no_mark(b, mark);
    if a.len() == 0 {
        assert(all.skip(1) =~= b);
        assert(pieces(all, mark) =~= pieces(a, mark) + pieces(b, mark));
    } else {
        lemma_pieces_hold_no_mark(a.skip(1), mark);
        lemma_pieces_at_mark(a.skip(1), b, mark);
        assert(all.skip(1) =~= a.skip(1) + seq![mark] + b);
        assert(all[0] == a[0]);
        assert(pieces(all, mark) =~= pieces(a, mark) + pieces(b, mark));
    }
}

/// A text without mark is its only piece.
pub(crate) proof fn lemma_one_piece(text: Seq<char>, mark: char)
    requires
        !text.contains(mark),
    ensures
        pieces(text, mark) == seq![text],
    decreases text.len(),
{
    if text.len() > 0 {
        let rest = text.skip(1);
        assert(text[0] != mark);
        assert forall|i: int| 0 <= i < rest.len() implies rest[i] != mark by {
            assert(text[i + 1] != mark);
        }
        lemma_one_piece(rest, mark);
        assert(seq![text[0]] + rest =~= text);
    } else {
        assert(text =~= Seq::empty());
    }
    assert(pieces(text, mark) =~= seq![text]);
}

/// UTF-8 goes character by character.
pub(crate) proof fn lemma_utf8_of_both(a: Seq<char>, b: Seq<char>)
    ensures
        encode_utf8(a + b) == encode_utf8(a) + encode_utf8(b),
    decreases a.len(),
{
    if a.len() == 0 {
        assert(a + b =~= b);
        assert(encode_utf8(a) + encode_utf8(b) =~= encode_utf8(b));
    } else {
        let rest = a.drop_first();
        lemma_utf8_of_both(rest, b);
        assert((a + b).drop_first() =~= rest + b);
        assert((a + b)[0] == a[0]);
        assert(encode_utf8(a + b) =~= encode_utf8(a) + encode_utf8(b));
    }
}

/// The byte of an ampersand.
pub(crate) proof fn lemma_utf8_of_ampersand(a: Seq<char>)
    ensures
        encode_utf8(a + seq!['&']) == encode_utf8(a) + seq!['&' as u8],
{
    lemma_utf8_of_both(a, seq!['&']);
    vstd::utf8::is_ascii_chars_encode_utf8(seq!['&']);
    assert(encode_utf8(seq!['&']) =~= seq!['&' as u8]);
}

} // verus!
