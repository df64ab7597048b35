//! JSON values: making them, reading them and writing them.

use crate::params::{ascending, Pair};
use crate::reading::{hex_value, json_letter, json_unescaped};
use crate::text::joined;
use serde_json::Value;
use vstd::prelude::*;

verus! {

/// `serde_json::Value`, a JSON value.
#[verifier::external_type_specification]
#[verifier::external_body]
pub struct ExValue(serde_json::Value);

/// What a JSON value holds, as its compact text.
pub uninterp spec fn json_text(value: serde_json::Value) -> Seq<char>;

/// The compact text of the value that a JSON text holds, or the error that the
/// parser has of a text that is not JSON.
pub uninterp spec fn parsed_json(text: Seq<char>) -> Result<Seq<char>, serde_json::Error>;

/// The indented text of the value with a compact text.
pub uninterp spec fn indented_json(compact: Seq<char>) -> Seq<char>;

/// The lower case hexadecimal digit of a number below 16.
pub open spec fn lower_hex_digit(n: int) -> char {
    if n < 10 {
        (48 + n) as char
    } else {
        (87 + n) as char
    }
}

/// What stands for a character in a JSON string.
pub open spec fn json_char(c: char) -> Seq<char> {
    if c == '"' {
        seq!['\\', '"']
    } else if c == '\\' {
        seq!['\\', '\\']
    } else if c == '\u{8}' {
        seq!['\\', 'b']
    } else if c == '\u{c}' {
        seq!['\\', 'f']
    } else if c == '\n' {
        seq!['\\', 'n']
    } else if c == '\r' {
        seq!['\\', 'r']
    } else if c == '\t' {
        seq!['\\', 't']
    } else if c <= '\u{1f}' {
        seq![
            '\\',
            'u',
            '0',
            '0',
            lower_hex_digit(c as int / 16),
            lower_hex_digit(c as int % 16),
        ]
    } else {
        seq![c]
    }
}

/// The characters of a JSON string.
pub open spec fn json_chars(s: Seq<char>) -> Seq<char>
    decreases s.len(),
{
    if s.len() == 0 {
        Seq::empty()
    } else {
        json_char(s[0]) + json_chars(s.skip(1))
    }
}

/// A text as a JSON string.
pub open spec fn json_string(s: Seq<char>) -> Seq<char> {
    seq!['"'] + json_chars(s) + seq!['"']
}

/// A JSON array of values.
pub open spec fn json_array(items: Seq<Seq<char>>) -> Seq<char> {
    seq!['['] + joined(items, seq![',']) + seq![']']
}

/// A JSON object of names and values.
pub open spec fn json_object(members: Seq<Pair>) -> Seq<char> {
    seq!['{'] + joined(
        members.map_values(|member: Pair| json_string(member.0) + seq![':'] + member.1),
        seq![','],
    ) + seq!['}']
}

/// The compact texts of values.
pub open spec fn json_texts(values: Seq<Value>) -> Seq<Seq<char>> {
    values.map_values(|value: Value| json_text(value))
}

/// The names and the compact texts of members.
pub open spec fn member_texts(members: Seq<(String, Value)>) -> Seq<Pair> {
    members.map_values(|member: (String, Value)| (member.0@, json_text(member.1)))
}

/// `Value::from` makes a JSON string of a text, which is written between quotes,
/// each character as `json_char` says.
#[verifier::external_body]
pub(crate) fn string_value(text: &str) -> (value: Value)
    ensures
        json_text(value) == json_string(text@),
{
    Value::from(text)
}

/// `Value::from` makes a JSON array of values, which is written as its items
/// with commas between them.
#[verifier::external_body]
pub(crate) fn array_value(items: Vec<Value>) -> (value: Value)
    ensures
        json_text(value) == json_array(json_texts(items@)),
{
    Value::from(items)
}

/// `Map::from_iter` makes a JSON object of members, which is written as its
/// members with commas between them. Names that come in ascending order are
/// written in that order.
#[verifier::external_body]
pub(crate) fn object_value(members: Vec<(String, Value)>) -> (value: Value)
    requires
        ascending(member_texts(members@)),
    ensures
        json_text(value) == json_object(member_texts(members@)),
{
    Value::Object(serde_json::Map::from_iter(members))
}

/// `Value::to_string` writes a value as its compact text.
#[verifier::external_body]
pub(crate) fn compact_text(value: &Value) -> (text: String)
    ensures
        text@ == json_text(*value),
{
    value.to_string()
}

/// `serde_json::from_str` reads a JSON text, or gives an error where the text is
/// not JSON. What comes rests on the text alone: an error holds what is wrong
/// with the text, and where.
#[verifier::external_body]
pub(crate) fn parse_value(text: &str) -> (value: Result<Value, serde_json::Error>)
    ensures
        match value {
            Ok(v) => parsed_json(text@) == Ok::<Seq<char>, serde_json::Error>(json_text(v)),
            Err(e) => parsed_json(text@) == Err::<Seq<char>, serde_json::Error>(e),
        },
{
    serde_json::from_str(text)
}

/// `serde_json::to_string_pretty` writes a value as its indented text. No JSON
/// value is refused, and the text rests on the value alone.
#[verifier::external_body]
pub(crate) fn indented_text(value: &Value) -> (text: Result<String, serde_json::Error>)
    ensures
        text is Ok,
        text->Ok_0@ == indented_json(json_text(*value)),
{
    serde_json::to_string_pretty(value)
}

/// What stands for a character identifies the character, whatever follows.
proof fn lemma_json_char(a: char, b: char, x: Seq<char>, y: Seq<char>)
    requires
        json_char(a) + x == json_char(b) + y,
    ensures
        a == b,
        x == y,
{
    let s = json_char(a) + x;
    let t = json_char(b) + y;
    assert(s[0] == json_char(a)[0] && t[0] == json_char(b)[0]);
    if s[0] == '\\' {
        assert(s[1] == json_char(a)[1] && t[1] == json_char(b)[1]);
        if s[1] == 'u' {
            assert(s[4] == json_char(a)[4] && t[4] == json_char(b)[4]);
            assert(s[5] == json_char(a)[5] && t[5] == json_char(b)[5]);
        }
    }
    assert(a == b);
    let n = json_char(a).len() as int;
    assert(s.skip(n) =~= x);
    assert(t.skip(n) =~= y);
}

/// The characters of a JSON string identify the text, up to the quote that ends
/// the string.
pub(crate) proof fn lemma_json_chars_end(a: Seq<char>, b: Seq<char>, x: Seq<char>, y: Seq<char>)
    requires
        json_chars(a) + seq!['"'] + x == json_chars(b) + seq!['"'] + y,
    ensures
        a == b,
        x == y,
    decreases a.len(),
{
    let s = json_chars(a) + seq!['"'] + x;
    let t = json_chars(b) + seq!['"'] + y;
    if a.len() == 0 || b.len() == 0 {
        if a.len() > 0 {
            assert(s[0] == json_char(a[0])[0]);
            assert(t[0] == '"');
        }
        if b.len() > 0 {
            assert(t[0] == json_char(b[0])[0]);
            assert(s[0] == '"');
        }
        assert(a =~= b);
        assert(s.skip(1) =~= x);
        assert(t.skip(1) =~= y);
    } else {
        let rest_a = json_chars(a.skip(1)) + seq!['"'] + x;
        let rest_b = json_chars(b.skip(1)) + seq!['"'] + y;
        assert(s =~= json_char(a[0]) + rest_a);
        assert(t =~= json_char(b[0]) + rest_b);
        lemma_json_char(a[0], b[0], rest_a, rest_b);
        lemma_json_chars_end(a.skip(1), b.skip(1), x, y);
        assert(a =~= seq![a[0]] + a.skip(1));
        assert(b =~= seq![b[0]] + b.skip(1));
    }
}

/// What stands for a character in a JSON string is read as that character,
/// whatever follows.
proof fn lemma_json_char_is_read_back(c: char, rest: Seq<char>)
    ensures
        json_unescaped(json_char(c) + rest) == match json_unescaped(rest) {
            Some(text) => Some(seq![c] + text),
            None => None,
        },
{
    let body = json_char(c) + rest;
    assert(body.skip(json_char(c).len() as int) =~= rest);
    if json_char(c).len() == 6 {
        assert(body[0] == '\\' && body[1] == 'u' && body[2] == '0' && body[3] == '0');
        assert(body[4] == lower_hex_digit(c as int / 16));
        assert(body[5] == lower_hex_digit(c as int % 16));
        assert(hex_value(body[4]) == c as int / 16 && hex_value(body[5]) == c as int % 16);
    } else if json_char(c).len() == 2 {
        assert(body[0] == '\\' && body[1] == json_char(c)[1]);
        assert(json_letter(body[1]) == Some(c));
    } else {
        assert(body[0] == c);
    }
}

/// The characters of a JSON string are read as the text.
proof fn lemma_json_chars_are_read_back(s: Seq<char>)
    ensures
        json_unescaped(json_chars(s)) == Some(s),
    decreases s.len(),
{
    if s.len() == 0 {
        assert(s =~= Seq::empty());
    } else {
        lemma_json_chars_are_read_back(s.skip(1));
        lemma_json_char_is_read_back(s[0], json_chars(s.skip(1)));
        assert(seq![s[0]] + s.skip(1) =~= s);
    }
}

/// A JSON string stands between quotes, and what stands there is read as the
/// text that it was made of.
pub proof fn law_json_string_is_read_back(s: Seq<char>)
    ensures
        json_string(s) == seq!['"'] + json_chars(s) + seq!['"'],
        json_unescaped(json_chars(s)) == Some(s),
{
    lemma_json_chars_are_read_back(s);
}

/// Text that needs no escape stands in a JSON string as it is.
pub proof fn law_plain_json_is_kept(s: Seq<char>)
    requires
        forall|i: int|
            0 <= i < s.len() ==> #[trigger] s[i] != '"' && s[i] != '\\' && s[i] > '\u{1f}',
    ensures
        json_chars(s) == s,
    decreases s.len(),
{
    if s.len() > 0 {
        assert(s[0] != '"' && s[0] != '\\' && s[0] > '\u{1f}');
        let rest = s.skip(1);
        assert(forall|i: int| 0 <= i < rest.len() ==> rest[i] == s[i + 1]);
        law_plain_json_is_kept(rest);
        assert(seq![s[0]] + rest =~= s);
    } else {
        assert(s =~= Seq::empty());
    }
}

/// A JSON string identifies the text that it was made of.
pub proof fn law_json_string_is_injective(a: Seq<char>, b: Seq<char>)
    requires
        json_string(a) == json_string(b),
    ensures
        a == b,
{
    let end = Seq::<char>::empty();
    assert(json_string(a).skip(1) =~= json_chars(a) + seq!['"'] + end);
    assert(json_string(b).skip(1) =~= json_chars(b) + seq!['"'] + end);
    lemma_json_chars_end(a, b, end, end);
}

} // verus!
