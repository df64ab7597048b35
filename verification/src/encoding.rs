//! Percent encoding as the Aliyun signature rules ask for it.

use crate::reading::{hex_value, lemma_utf8_of_both, percent_decoded};
use vstd::prelude::*;
use vstd::utf8::encode_utf8;

verus! {

/// `percent_encode_byte` gives a percent sign and the two upper case
/// hexadecimal digits of the byte.
pub assume_specification[ percent_encoding::percent_encode_byte ](byte: u8) -> (text: &'static str)
    ensures
        text@ == escaped_byte(byte),
;

/// Whether a byte stands for itself: ASCII letters and digits, and `!-._~`.
pub open spec fn is_left_alone(byte: u8) -> bool {
    ||| 'A' as u8 <= byte <= 'Z' as u8
    ||| 'a' as u8 <= byte <= 'z' as u8
    ||| '0' as u8 <= byte <= '9' as u8
    ||| byte == '!' as u8
    ||| byte == '-' as u8
    ||| byte == '.' as u8
    ||| byte == '_' as u8
    ||| byte == '~' as u8
}

/// The upper case hexadecimal digit of a number below 16.
pub open spec fn hex_digit(n: u8) -> char {
    if n < 10 {
        (48 + n) as char
    } else {
        (55 + n) as char
    }
}

/// A percent sign and the two hexadecimal digits of a byte.
pub open spec fn escaped_byte(byte: u8) -> Seq<char> {
    seq!['%', hex_digit(byte / 16), hex_digit(byte % 16)]
}

/// What stands for a byte in percent encoded text.
pub open spec fn encoded_byte(byte: u8) -> Seq<char> {
    if is_left_alone(byte) {
        seq![byte as char]
    } else {
        escaped_byte(byte)
    }
}

/// Bytes, percent encoded one after the other.
pub open spec fn encoded_bytes(bytes: Seq<u8>) -> Seq<char>
    decreases bytes.len(),
{
    if bytes.len() == 0 {
        Seq::empty()
    } else {
        encoded_byte(bytes[0]) + encoded_bytes(bytes.skip(1))
    }
}

/// The percent encoding of the UTF-8 bytes of a text.
pub open spec fn percent_encoded(text: Seq<char>) -> Seq<char> {
    encoded_bytes(encode_utf8(text))
}

/// Whether percent encoded text can hold a character.
pub open spec fn in_encoded_alphabet(c: char) -> bool {
    ||| 'A' <= c <= 'Z'
    ||| 'a' <= c <= 'z'
    ||| '0' <= c <= '9'
    ||| c == '!'
    ||| c == '-'
    ||| c == '.'
    ||| c == '_'
    ||| c == '~'
    ||| c == '%'
}

/// Whether a byte stands for itself in percent encoded text.
fn left_alone(byte: u8) -> (alone: bool)
    ensures
        alone == is_left_alone(byte),
{
    let c = byte as char;
    ('A' <= c && c <= 'Z') || ('a' <= c && c <= 'z') || ('0' <= c && c <= '9') || c == '!' || c
        == '-' || c == '.' || c == '_' || c == '~'
}

/// The percent encoding of a string.
pub fn aliyun_percent_encode(value: &str) -> (encoded: String)
    ensures
        encoded@ == percent_encoded(value@),
        percent_decoded(encoded@) == encode_utf8(value@),
{
    proof {
        law_percent_encoding_is_read_back(value@);
    }
    let bytes = value.as_bytes();
    let mut encoded = String::new();
    let mut i: usize = 0;
    assert(bytes@.skip(0) =~= bytes@);
    while i < bytes.len()
        invariant
            i <= bytes@.len(),
            encoded@ + encoded_bytes(bytes@.skip(i as int)) == encoded_bytes(bytes@),
        decreases bytes.len() - i,
    {
        let ghost before = encoded@;
        let byte: u8 = bytes[i];
        if left_alone(byte) {
            encoded.push(byte as char);
        } else {
            encoded.append(percent_encoding::percent_encode_byte(byte));
        }
        assert(encoded@ =~= before + encoded_byte(byte));
        assert(bytes@.skip(i as int).skip(1) =~= bytes@.skip(i + 1));
        assert(before + (encoded_byte(byte) + encoded_bytes(bytes@.skip(i + 1))) =~= (before
            + encoded_byte(byte)) + encoded_bytes(bytes@.skip(i + 1)));
        i = i + 1;
    }
    assert(encoded@ + encoded_bytes(bytes@.skip(i as int)) =~= encoded@);
    encoded
}

/// What stands for a byte is read as that byte, whatever follows.
proof fn lemma_encoded_byte_is_read_back(byte: u8, rest: Seq<char>)
    ensures
        percent_decoded(encoded_byte(byte) + rest) == seq![byte] + percent_decoded(rest),
{
    let text = encoded_byte(byte) + rest;
    assert(text.skip(encoded_byte(byte).len() as int) =~= rest);
    if is_left_alone(byte) {
        assert(text[0] == byte as char && text[0] != '%');
        assert((byte as char) as u8 == byte);
    } else {
        assert(text[1] == hex_digit(byte / 16) && text[2] == hex_digit(byte % 16));
        assert(hex_value(text[1]) == byte / 16 && hex_value(text[2]) == byte % 16);
    }
}

/// Encoded bytes are read as those bytes.
proof fn lemma_encoded_bytes_are_read_back(bytes: Seq<u8>)
    ensures
        percent_decoded(encoded_bytes(bytes)) == bytes,
    decreases bytes.len(),
{
    if bytes.len() > 0 {
        lemma_encoded_bytes_are_read_back(bytes.skip(1));
        lemma_encoded_byte_is_read_back(bytes[0], encoded_bytes(bytes.skip(1)));
        assert(seq![bytes[0]] + bytes.skip(1) =~= bytes);
    } else {
        assert(bytes =~= Seq::empty());
    }
}

/// Percent encoded text is read as the UTF-8 bytes of the text.
pub proof fn law_percent_encoding_is_read_back(text: Seq<char>)
    ensures
        percent_decoded(percent_encoded(text)) == encode_utf8(text),
{
    lemma_encoded_bytes_are_read_back(encode_utf8(text));
}

/// Bytes one behind the other are encoded one behind the other.
proof fn lemma_encoded_bytes_of_both(a: Seq<u8>, b: Seq<u8>)
    ensures
        encoded_bytes(a + b) == encoded_bytes(a) + encoded_bytes(b),
    decreases a.len(),
{
    if a.len() == 0 {
        assert(a + b =~= b);
        assert(encoded_bytes(a) + encoded_bytes(b) =~= encoded_bytes(b));
    } else {
        lemma_encoded_bytes_of_both(a.skip(1), b);
        assert((a + b).skip(1) =~= a.skip(1) + b);
        assert(encoded_bytes(a + b) =~= encoded_bytes(a) + encoded_bytes(b));
    }
}

/// Texts one behind the other are encoded one behind the other.
pub proof fn law_percent_encoding_of_both(a: Seq<char>, b: Seq<char>)
    ensures
        percent_encoded(a + b) == percent_encoded(a) + percent_encoded(b),
{
    lemma_utf8_of_both(a, b);
    lemma_encoded_bytes_of_both(encode_utf8(a), encode_utf8(b));
}

/// Encoded bytes hold no percent sign but in front of two upper case
/// hexadecimal digits, and those never stand for a byte that needs none.
proof fn lemma_escapes(bytes: Seq<u8>)
    ensures
        forall|i: int|
            0 <= i < encoded_bytes(bytes).len() && #[trigger] encoded_bytes(bytes)[i] == '%'
                ==> is_escape(encoded_bytes(bytes), i),
    decreases bytes.len(),
{
    if bytes.len() > 0 {
        lemma_escapes(bytes.skip(1));
        let head = encoded_byte(bytes[0]);
        let rest = encoded_bytes(bytes.skip(1));
        let all = encoded_bytes(bytes);
        assert forall|i: int| 0 <= i < all.len() && #[trigger] all[i] == '%' implies is_escape(
            all,
            i,
        ) by {
            if i >= head.len() {
                assert(all[i] == rest[i - head.len()]);
                assert(is_escape(rest, i - head.len()));
                assert(all[i + 1] == rest[i + 1 - head.len()]);
                assert(all[i + 2] == rest[i + 2 - head.len()]);
            } else {
                assert(all[i] == head[i]);
                assert(i == 0);
                assert(all[1] == head[1] && all[2] == head[2]);
                assert(hex_value(all[1]) * 16 + hex_value(all[2]) == bytes[0]);
            }
        }
    }
}

/// Whether a character is an upper case hexadecimal digit.
pub open spec fn is_upper_hex(c: char) -> bool {
    '0' <= c <= '9' || 'A' <= c <= 'F'
}

/// Whether two upper case hexadecimal digits follow the character at `i`, and
/// stand for no character that needs no escape.
pub open spec fn is_escape(text: Seq<char>, i: int) -> bool {
    &&& i + 2 < text.len()
    &&& is_upper_hex(text[i + 1])
    &&& is_upper_hex(text[i + 2])
    &&& ({
        let code = hex_value(text[i + 1]) * 16 + hex_value(text[i + 2]);
        &&& !('A' as int <= code <= 'Z' as int)
        &&& !('a' as int <= code <= 'z' as int)
        &&& !('0' as int <= code <= '9' as int)
        &&& code != '!' as int
        &&& code != '-' as int
        &&& code != '.' as int
        &&& code != '_' as int
        &&& code != '~' as int
    })
}

/// Percent encoded text escapes nothing that needs no escape, and writes its
/// escapes in upper case.
pub proof fn law_escapes_are_needed(text: Seq<char>)
    ensures
        forall|i: int|
            0 <= i < percent_encoded(text).len() && #[trigger] percent_encoded(text)[i] == '%'
                ==> is_escape(percent_encoded(text), i),
{
    lemma_escapes(encode_utf8(text));
}

/// Encoded bytes hold nothing but letters, digits and `!-._~%`.
proof fn lemma_encoded_alphabet(bytes: Seq<u8>)
    ensures
        forall|i: int|
            0 <= i < encoded_bytes(bytes).len() ==> in_encoded_alphabet(
                #[trigger] encoded_bytes(bytes)[i],
            ),
    decreases bytes.len(),
{
    if bytes.len() > 0 {
        lemma_encoded_alphabet(bytes.skip(1));
        let head = encoded_byte(bytes[0]);
        let rest = encoded_bytes(bytes.skip(1));
        assert forall|i: int| 0 <= i < encoded_bytes(bytes).len() implies in_encoded_alphabet(
            #[trigger] encoded_bytes(bytes)[i],
        ) by {
            if i >= head.len() {
                assert(encoded_bytes(bytes)[i] == rest[i - head.len()]);
            }
        }
    }
}

/// Percent encoded text holds nothing but letters, digits and `!-._~%`: in
/// particular neither `=` nor `&`.
pub proof fn law_encoded_alphabet(text: Seq<char>)
    ensures
        forall|i: int|
            0 <= i < percent_encoded(text).len() ==> in_encoded_alphabet(
                #[trigger] percent_encoded(text)[i],
            ),
        !percent_encoded(text).contains('='),
        !percent_encoded(text).contains('&'),
{
    lemma_encoded_alphabet(encode_utf8(text));
}

/// Bytes that stand for themselves are encoded as themselves.
proof fn lemma_left_alone_bytes(bytes: Seq<u8>)
    requires
        forall|i: int| 0 <= i < bytes.len() ==> is_left_alone(#[trigger] bytes[i]),
    ensures
        encoded_bytes(bytes) == Seq::new(bytes.len(), |i: int| bytes[i] as char),
    decreases bytes.len(),
{
    if bytes.len() > 0 {
        let rest = bytes.skip(1);
        assert(forall|i: int| 0 <= i < rest.len() ==> rest[i] == bytes[i + 1]);
        lemma_left_alone_bytes(rest);
    }
    assert(encoded_bytes(bytes) =~= Seq::new(bytes.len(), |i: int| bytes[i] as char));
}

/// Text of letters, digits and `!-._~` alone is left as it is.
pub proof fn law_plain_text_is_kept(text: Seq<char>)
    requires
        forall|i: int|
            0 <= i < text.len() ==> in_encoded_alphabet(#[trigger] text[i]) && text[i] != '%',
    ensures
        percent_encoded(text) == text,
{
    vstd::utf8::is_ascii_chars_encode_utf8(text);
    let bytes = encode_utf8(text);
    assert forall|i: int| 0 <= i < bytes.len() implies is_left_alone(#[trigger] bytes[i]) by {
        assert(in_encoded_alphabet(text[i]));
    }
    lemma_left_alone_bytes(bytes);
    assert(percent_encoded(text) =~= text);
}

/// Encoded bytes identify the bytes.
proof fn lemma_encoded_bytes_injective(a: Seq<u8>, b: Seq<u8>)
    requires
        encoded_bytes(a) == encoded_bytes(b),
    ensures
        a == b,
{
    lemma_encoded_bytes_are_read_back(a);
    lemma_encoded_bytes_are_read_back(b);
}

/// Percent encoded text identifies the text that it was made of.
pub proof fn law_percent_encoding_is_injective(a: Seq<char>, b: Seq<char>)
    requires
        percent_encoded(a) == percent_encoded(b),
    ensures
        a == b,
{
    lemma_encoded_bytes_injective(encode_utf8(a), encode_utf8(b));
    vstd::utf8::encode_utf8_decode_utf8(a);
    vstd::utf8::encode_utf8_decode_utf8(b);
}

} // verus!
