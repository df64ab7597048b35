//! Text: decimal numbers, joining, and building strings.

use crate::reading::is_decimal;
use vstd::prelude::*;

verus! {

/// `String::push` appends the character.
pub assume_specification[ String::push ](s: &mut String, c: char)
    ensures
        final(s)@ == old(s)@.push(c),
;

/// The character of a decimal digit.
pub open spec fn digit(d: nat) -> char {
    (48 + d) as char
}

/// `n` in decimal, without leading zeros.
pub open spec fn decimal(n: nat) -> Seq<char>
    decreases n,
{
    if n < 10 {
        seq![digit(n)]
    } else {
        decimal(n / 10).push(digit(n % 10))
    }
}

/// As many zeros as `n` says.
pub open spec fn zeros(n: nat) -> Seq<char> {
    Seq::new(n, |i: int| '0')
}

/// `n` in decimal, filled up with leading zeros to at least `width` characters.
pub open spec fn padded(n: nat, width: nat) -> Seq<char> {
    if decimal(n).len() >= width {
        decimal(n)
    } else {
        zeros((width - decimal(n).len()) as nat) + decimal(n)
    }
}

/// The parts one after the other, with `separator` between each two.
pub open spec fn joined(parts: Seq<Seq<char>>, separator: Seq<char>) -> Seq<char>
    decreases parts.len(),
{
    if parts.len() == 0 {
        Seq::empty()
    } else if parts.len() == 1 {
        parts[0]
    } else {
        joined(parts.drop_last(), separator) + separator + parts.last()
    }
}

/// The texts of a list of strings.
pub open spec fn texts(strings: Seq<String>) -> Seq<Seq<char>> {
    strings.map_values(|s: String| s@)
}

/// The number that a text of decimal digits stands for.
pub open spec fn number(digits: Seq<char>) -> int
    decreases digits.len(),
{
    if digits.len() == 0 {
        0
    } else {
        number(digits.drop_last()) * 10 + (digits.last() as int - 48)
    }
}

/// Decimal text is made of digits and stands for the number that it was made of.
proof fn lemma_decimal_number(n: nat)
    ensures
        number(decimal(n)) == n,
        decimal(n).len() >= 1,
        forall|i: int| 0 <= i < decimal(n).len() ==> '0' <= #[trigger] decimal(n)[i] <= '9',
    decreases n,
{
    if n < 10 {
        reveal_with_fuel(number, 2);
        assert(decimal(n).drop_last() =~= Seq::empty());
    } else {
        lemma_decimal_number(n / 10);
        assert(decimal(n).drop_last() =~= decimal(n / 10));
    }
}

/// Decimal text of a number that is not zero does not start with a zero.
proof fn lemma_decimal_first_digit(n: nat)
    requires
        n > 0,
    ensures
        decimal(n).len() > 0,
        decimal(n)[0] != '0',
    decreases n,
{
    if n >= 10 {
        lemma_decimal_first_digit(n / 10);
        assert(decimal(n)[0] == decimal(n / 10)[0]);
    }
}

/// Decimal text is read as the number that it was made of, and has no leading
/// zeros.
pub proof fn law_decimal_is_read_back(n: nat)
    ensures
        is_decimal(decimal(n)),
        number(decimal(n)) == n,
{
    lemma_decimal_number(n);
    if n > 0 {
        lemma_decimal_first_digit(n);
    }
}

/// Padded text is read as the number that it was made of. It fills the width,
/// and where it is wider it has no leading zeros.
pub proof fn law_padded_is_read_back(n: nat, width: nat)
    ensures
        number(padded(n, width)) == n,
        padded(n, width).len() >= width,
        padded(n, width).len() > width ==> is_decimal(padded(n, width)),
        forall|i: int|
            0 <= i < padded(n, width).len() ==> '0' <= #[trigger] padded(n, width)[i] <= '9',
{
    lemma_padded_number(n, width);
    law_decimal_is_read_back(n);
}

/// The texts of strings are the characters of each, one for one.
pub proof fn law_texts(strings: Seq<String>)
    ensures
        texts(strings).len() == strings.len(),
        forall|i: int| 0 <= i < strings.len() ==> texts(strings)[i] == (#[trigger] strings[i])@,
{
}

/// Joined parts: none are no text, one is its own text, and one more stands
/// behind the others and a separator.
pub proof fn law_joined(parts: Seq<Seq<char>>, part: Seq<char>, separator: Seq<char>)
    ensures
        joined(Seq::empty(), separator) == Seq::<char>::empty(),
        joined(seq![part], separator) == part,
        parts.len() > 0 ==> joined(parts.push(part), separator) == joined(parts, separator)
            + separator + part,
{
    assert(parts.push(part).drop_last() =~= parts);
}

/// Decimal text identifies its number.
pub(crate) proof fn lemma_decimal_injective(a: nat, b: nat)
    requires
        decimal(a) == decimal(b),
    ensures
        a == b,
{
    lemma_decimal_number(a);
    lemma_decimal_number(b);
}

/// Leading zeros do not change the number.
proof fn lemma_number_of_zeros(k: nat, digits: Seq<char>)
    ensures
        number(zeros(k) + digits) == number(digits),
    decreases k + digits.len(),
{
    let s = zeros(k) + digits;
    if digits.len() > 0 {
        lemma_number_of_zeros(k, digits.drop_last());
        assert(s.drop_last() =~= zeros(k) + digits.drop_last());
    } else if k > 0 {
        lemma_number_of_zeros((k - 1) as nat, digits);
        assert(s.drop_last() =~= zeros((k - 1) as nat) + digits);
    } else {
        assert(s =~= digits);
    }
}

/// Padded text is made of digits and stands for the number that it was made of.
pub(crate) proof fn lemma_padded_number(n: nat, width: nat)
    ensures
        number(padded(n, width)) == n,
        padded(n, width).len() >= 1,
        padded(n, width).len() >= width,
        forall|i: int|
            0 <= i < padded(n, width).len() ==> '0' <= #[trigger] padded(n, width)[i] <= '9',
{
    lemma_decimal_number(n);
    if decimal(n).len() < width {
        lemma_number_of_zeros((width - decimal(n).len()) as nat, decimal(n));
    }
}

/// Padded text identifies its number.
pub(crate) proof fn lemma_padded_injective(a: nat, b: nat, width: nat)
    requires
        padded(a, width) == padded(b, width),
    ensures
        a == b,
{
    lemma_padded_number(a, width);
    lemma_padded_number(b, width);
}

/// Padded text starts with a digit.
pub(crate) proof fn lemma_padded_starts_with_digit(n: nat, width: nat)
    ensures
        padded(n, width).len() > 0,
        '0' <= padded(n, width)[0] <= '9',
{
    lemma_padded_number(n, width);
}

/// A number of at most two digits fills two characters.
pub(crate) proof fn lemma_padded_two(n: nat)
    requires
        n < 100,
    ensures
        padded(n, 2).len() == 2,
{
    reveal_with_fuel(decimal, 2);
}

/// A number of at most four digits fills four characters.
pub(crate) proof fn lemma_padded_four(n: nat)
    requires
        n < 10_000,
    ensures
        padded(n, 4).len() == 4,
{
    reveal_with_fuel(decimal, 4);
}

/// Appends `n` in decimal.
pub(crate) fn push_decimal(out: &mut String, n: u64)
    ensures
        final(out)@ == old(out)@ + decimal(n as nat),
    decreases n,
{
    if n >= 10 {
        push_decimal(out, n / 10);
    }
    let d: u8 = (n % 10) as u8;
    out.push((48 + d) as char);
    assert(out@ =~= old(out)@ + decimal(n as nat));
}

/// Appends `n` in decimal, filled up with leading zeros to `width` characters.
pub(crate) fn push_padded(out: &mut String, n: u64, width: usize)
    ensures
        final(out)@ == old(out)@ + padded(n as nat, width as nat),
    decreases n,
{
    if n >= 10 {
        let rest: usize = if width > 0 {
            width - 1
        } else {
            0
        };
        push_padded(out, n / 10, rest);
    } else {
        let mut filled: usize = 1;
        while filled < width
            invariant
                1 <= filled,
                filled <= width || filled == 1,
                out@ == old(out)@ + zeros((filled - 1) as nat),
            decreases width - filled,
        {
            out.push('0');
            filled = filled + 1;
            assert(out@ =~= old(out)@ + zeros((filled - 1) as nat));
        }
    }
    let d: u8 = (n % 10) as u8;
    out.push((48 + d) as char);
    assert(out@ =~= old(out)@ + padded(n as nat, width as nat));
}

/// The characters of a string.
pub(crate) fn chars_of(s: &str) -> (chars: Vec<char>)
    ensures
        chars@ == s@,
{
    let mut chars: Vec<char> = Vec::new();
    for c in it: s.chars()
        invariant
            chars@ == it.seq().take(it.index() as int),
            it.seq() == s@,
    {
        chars.push(c);
        assert(chars@ =~= it.seq().take(it.index() + 1));
    }
    assert(chars@ =~= s@);
    chars
}

/// The string of the characters from `from` up to `to`.
pub(crate) fn substring(chars: &Vec<char>, from: usize, to: usize) -> (s: String)
    requires
        from <= to <= chars@.len(),
    ensures
        s@ == chars@.subrange(from as int, to as int),
{
    let mut s = String::new();
    let mut i: usize = from;
    while i < to
        invariant
            from <= i <= to <= chars@.len(),
            s@ == chars@.subrange(from as int, i as int),
        decreases to - i,
    {
        s.push(chars[i]);
        i = i + 1;
        assert(s@ =~= chars@.subrange(from as int, i as int));
    }
    s
}

/// The strings one after the other, with `separator` between each two.
pub(crate) fn join(strings: &[String], separator: &str) -> (s: String)
    ensures
        s@ == joined(texts(strings@), separator@),
{
    let mut s = String::new();
    let mut i: usize = 0;
    while i < strings.len()
        invariant
            i <= strings@.len(),
            s@ == joined(texts(strings@).take(i as int), separator@),
        decreases strings.len() - i,
    {
        if i > 0 {
            s.append(separator);
        }
        s.append(strings[i].as_str());
        i = i + 1;
        assert(texts(strings@).take(i as int).drop_last() =~= texts(strings@).take(i - 1));
        assert(s@ =~= joined(texts(strings@).take(i as int), separator@));
    }
    assert(texts(strings@).take(i as int) =~= texts(strings@));
    s
}

} // verus!
