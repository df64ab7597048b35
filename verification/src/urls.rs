//! The URLs of a cache refresh, written as one comma separated text.

use crate::error::ToolError;
use crate::options::RefreshType;
use crate::text::{chars_of, joined, substring, texts};
use vstd::prelude::*;

verus! {

/// Whether a character is white space in the sense of Unicode.
pub open spec fn is_white_space(c: char) -> bool {
    ||| '\u{9}' <= c <= '\u{d}'
    ||| c == ' '
    ||| c == '\u{85}'
    ||| c == '\u{a0}'
    ||| c == '\u{1680}'
    ||| '\u{2000}' <= c <= '\u{200a}'
    ||| c == '\u{2028}'
    ||| c == '\u{2029}'
    ||| c == '\u{202f}'
    ||| c == '\u{205f}'
    ||| c == '\u{3000}'
}

/// The text without its leading white space.
pub open spec fn trimmed_start(s: Seq<char>) -> Seq<char>
    decreases s.len(),
{
    if s.len() > 0 && is_white_space(s[0]) {
        trimmed_start(s.skip(1))
    } else {
        s
    }
}

/// The text without its trailing white space.
pub open spec fn trimmed_end(s: Seq<char>) -> Seq<char>
    decreases s.len(),
{
    if s.len() > 0 && is_white_space(s.last()) {
        trimmed_end(s.drop_last())
    } else {
        s
    }
}

/// The text without the white space around it.
pub open spec fn trimmed(s: Seq<char>) -> Seq<char> {
    trimmed_end(trimmed_start(s))
}

/// The pieces of a text between the separators, at least one.
pub open spec fn split(s: Seq<char>, separator: char) -> Seq<Seq<char>>
    decreases s.len(),
{
    if s.len() == 0 {
        seq![s]
    } else {
        let front = split(s.drop_last(), separator);
        if s.last() == separator {
            front.push(Seq::empty())
        } else {
            front.drop_last().push(front.last().push(s.last()))
        }
    }
}

/// The pieces, trimmed, that are not empty.
pub open spec fn non_empty_pieces(pieces: Seq<Seq<char>>) -> Seq<Seq<char>> {
    pieces.map_values(|piece: Seq<char>| trimmed(piece)).filter(|piece: Seq<char>| piece.len() > 0)
}

/// A URL as it is refreshed: that of a directory ends with a slash.
pub open spec fn completed(url: Seq<char>, refresh_type: RefreshType) -> Seq<char> {
    if refresh_type is Directory && !(url.len() > 0 && url.last() == '/') {
        url.push('/')
    } else {
        url
    }
}

/// URLs as they are refreshed.
pub open spec fn all_completed(urls: Seq<Seq<char>>, refresh_type: RefreshType) -> Seq<Seq<char>> {
    urls.map_values(|url: Seq<char>| completed(url, refresh_type))
}

/// The URLs that a comma separated text names.
pub open spec fn refresh_urls(text: Seq<char>, refresh_type: RefreshType) -> Seq<Seq<char>> {
    all_completed(non_empty_pieces(split(text, ',')), refresh_type)
}

/// Whether a character is white space.
fn white_space(c: char) -> (white: bool)
    ensures
        white == is_white_space(c),
{
    ('\u{9}' <= c && c <= '\u{d}') || c == ' ' || c == '\u{85}' || c == '\u{a0}' || c == '\u{1680}'
        || ('\u{2000}' <= c && c <= '\u{200a}') || c == '\u{2028}' || c == '\u{2029}' || c
        == '\u{202f}' || c == '\u{205f}' || c == '\u{3000}'
}

/// The part of a piece that is left without the white space around it.
fn trim_range(chars: &Vec<char>, from: usize, to: usize) -> (range: (usize, usize))
    requires
        from <= to <= chars@.len(),
    ensures
        from <= range.0 <= range.1 <= to,
        chars@.subrange(range.0 as int, range.1 as int) == trimmed(
            chars@.subrange(from as int, to as int),
        ),
{
    let mut a: usize = from;
    while a < to && white_space(chars[a])
        invariant
            from <= a <= to <= chars@.len(),
            trimmed_start(chars@.subrange(a as int, to as int)) == trimmed_start(
                chars@.subrange(from as int, to as int),
            ),
        decreases to - a,
    {
        assert(chars@.subrange(a as int, to as int).skip(1) =~= chars@.subrange(
            a + 1,
            to as int,
        ));
        a = a + 1;
    }
    let mut b: usize = to;
    while a < b && white_space(chars[b - 1])
        invariant
            a <= b <= to <= chars@.len(),
            trimmed_end(chars@.subrange(a as int, b as int)) == trimmed_end(
                chars@.subrange(a as int, to as int),
            ),
        decreases b,
    {
        assert(chars@.subrange(a as int, b as int).drop_last() =~= chars@.subrange(
            a as int,
            b - 1,
        ));
        b = b - 1;
    }
    (a, b)
}

/// Adds a piece of the text to the URLs, unless nothing is left of it.
fn push_url(
    parsed: &mut Vec<String>,
    chars: &Vec<char>,
    from: usize,
    to: usize,
    refresh_type: &RefreshType,
)
    requires
        from <= to <= chars@.len(),
    ensures
        ({
            let url = trimmed(chars@.subrange(from as int, to as int));
            texts(final(parsed)@) == if url.len() > 0 {
                texts(old(parsed)@).push(completed(url, *refresh_type))
            } else {
                texts(old(parsed)@)
            }
        }),
{
    let (a, b) = trim_range(chars, from, to);
    if a < b {
        let mut url = substring(chars, a, b);
        if matches!(refresh_type, RefreshType::Directory) && chars[b - 1] != '/' {
            url.push('/');
        }
        parsed.push(url);
        assert(texts(parsed@) =~= texts(old(parsed)@).push(url@));
    }
}

/// The pieces of a text grow by one.
proof fn lemma_one_more_piece(pieces: Seq<Seq<char>>, piece: Seq<char>, refresh_type: RefreshType)
    ensures
        all_completed(non_empty_pieces(pieces.push(piece)), refresh_type) == if trimmed(piece).len()
            > 0 {
            all_completed(non_empty_pieces(pieces), refresh_type).push(
                completed(trimmed(piece), refresh_type),
            )
        } else {
            all_completed(non_empty_pieces(pieces), refresh_type)
        },
{
    reveal_with_fuel(Seq::filter, 1);
    let trim = |piece: Seq<char>| trimmed(piece);
    assert(pieces.push(piece).map_values(trim) =~= pieces.map_values(trim).push(trimmed(piece)));
    assert(pieces.map_values(trim).push(trimmed(piece)).drop_last() =~= pieces.map_values(trim));
    assert(all_completed(non_empty_pieces(pieces.push(piece)), refresh_type) =~= if trimmed(
        piece,
    ).len() > 0 {
        all_completed(non_empty_pieces(pieces), refresh_type).push(
            completed(trimmed(piece), refresh_type),
        )
    } else {
        all_completed(non_empty_pieces(pieces), refresh_type)
    });
}

/// The URLs that a comma separated text names, without the white space around
/// them; the URLs of directories end with a slash. At least one is needed.
pub fn parse_refresh_urls(urls: &str, refresh_type: &RefreshType) -> (parsed: Result<
    Vec<String>,
    ToolError,
>)
    ensures
        match parsed {
            Ok(list) => list@.len() > 0 && texts(list@) == refresh_urls(urls@, *refresh_type),
            Err(ToolError::NoUrls) => refresh_urls(urls@, *refresh_type).len() == 0,
            Err(_) => false,
        },
{
    let chars = chars_of(urls);
    let mut parsed: Vec<String> = Vec::new();
    let ghost mut pieces: Seq<Seq<char>> = Seq::empty();
    let mut start: usize = 0;
    let mut i: usize = 0;
    proof {
        assert(chars@.take(0) =~= Seq::empty());
        assert(split(chars@.take(0), ',') =~= pieces.push(chars@.subrange(0, 0)));
        assert(texts(parsed@) =~= all_completed(non_empty_pieces(pieces), *refresh_type)) by {
            reveal_with_fuel(Seq::filter, 1);
        }
    }
    while i < chars.len()
        invariant
            start <= i <= chars@.len(),
            split(chars@.take(i as int), ',') == pieces.push(
                chars@.subrange(start as int, i as int),
            ),
            texts(parsed@) == all_completed(non_empty_pieces(pieces), *refresh_type),
        decreases chars.len() - i,
    {
        let ghost piece = chars@.subrange(start as int, i as int);
        assert(chars@.take(i + 1).drop_last() =~= chars@.take(i as int));
        if chars[i] == ',' {
            push_url(&mut parsed, &chars, start, i, refresh_type);
            proof {
                lemma_one_more_piece(pieces, piece, *refresh_type);
                pieces = pieces.push(piece);
            }
            start = i + 1;
            assert(chars@.subrange(start as int, i + 1) =~= Seq::empty());
        } else {
            assert(pieces.push(piece).drop_last() =~= pieces);
            assert(chars@.subrange(start as int, i + 1) =~= piece.push(chars@[i as int]));
        }
        i = i + 1;
    }
    push_url(&mut parsed, &chars, start, i, refresh_type);
    proof {
        lemma_one_more_piece(pieces, chars@.subrange(start as int, i as int), *refresh_type);
        assert(chars@.take(i as int) =~= urls@);
        assert(texts(parsed@).len() == parsed@.len());
    }
    if parsed.len() == 0 {
        Err(ToolError::NoUrls)
    } else {
        Ok(parsed)
    }
}

/// What is left of the start of a text is a part of the text, and has no white
/// space in front.
proof fn lemma_trimmed_start(s: Seq<char>)
    ensures
        trimmed_start(s).len() <= s.len(),
        trimmed_start(s) == s.skip(s.len() - trimmed_start(s).len()),
        trimmed_start(s).len() > 0 ==> !is_white_space(trimmed_start(s)[0]),
    decreases s.len(),
{
    if s.len() > 0 && is_white_space(s[0]) {
        lemma_trimmed_start(s.skip(1));
        assert(s.skip(1).skip(s.len() - 1 - trimmed_start(s).len()) =~= s.skip(
            s.len() - trimmed_start(s).len(),
        ));
    } else {
        assert(s.skip(0) =~= s);
    }
}

/// What is left of the end of a text is a part of the text, and has no white
/// space behind.
proof fn lemma_trimmed_end(s: Seq<char>)
    ensures
        trimmed_end(s).len() <= s.len(),
        trimmed_end(s) == s.take(trimmed_end(s).len() as int),
        trimmed_end(s).len() > 0 ==> !is_white_space(trimmed_end(s).last()),
    decreases s.len(),
{
    if s.len() > 0 && is_white_space(s.last()) {
        lemma_trimmed_end(s.drop_last());
        assert(s.drop_last().take(trimmed_end(s).len() as int) =~= s.take(
            trimmed_end(s).len() as int,
        ));
    } else {
        assert(s.take(s.len() as int) =~= s);
    }
}

/// Trimmed text has no white space at its ends, and holds no character that the
/// text does not hold.
proof fn lemma_trimmed(s: Seq<char>)
    ensures
        trimmed(s).len() > 0 ==> !is_white_space(trimmed(s)[0]) && !is_white_space(
            trimmed(s).last(),
        ),
        forall|c: char| #[trigger] trimmed(s).contains(c) ==> s.contains(c),
{
    lemma_trimmed_start(s);
    lemma_trimmed_end(trimmed_start(s));
    let start = trimmed_start(s);
    let end = trimmed(s);
    assert forall|c: char| #[trigger] end.contains(c) implies s.contains(c) by {
        let i = choose|i: int| 0 <= i < end.len() && end[i] == c;
        assert(end[i] == start[i]);
        assert(start[i] == s[i + s.len() - start.len()]);
    }
}

/// Text without white space at its ends is left as it is.
proof fn lemma_nothing_to_trim(s: Seq<char>)
    requires
        s.len() > 0,
        !is_white_space(s[0]),
        !is_white_space(s.last()),
    ensures
        trimmed(s) == s,
{
}

/// The pieces of a text hold no separator.
proof fn lemma_pieces_hold_no_separator(s: Seq<char>, separator: char)
    ensures
        split(s, separator).len() > 0,
        forall|i: int|
            0 <= i < split(s, separator).len() ==> !(#[trigger] split(s, separator)[i]).contains(
                separator,
            ),
    decreases s.len(),
{
    if s.len() > 0 {
        lemma_pieces_hold_no_separator(s.drop_last(), separator);
        let front = split(s.drop_last(), separator);
        let all = split(s, separator);
        assert forall|i: int| 0 <= i < all.len() implies !(#[trigger] all[i]).contains(
            separator,
        ) by {
            if i < front.len() - 1 || s.last() == separator {
                if i < front.len() {
                    assert(all[i] == front[i]);
                }
            } else {
                assert(all[i] == front.last().push(s.last()));
                assert(front.last() == front[front.len() - 1]);
                if all[i].contains(separator) {
                    let k = choose|k: int| 0 <= k < all[i].len() && all[i][k] == separator;
                    assert(front.last()[k] == separator);
                }
            }
        }
    }
}

/// A text behind a separator is a piece of its own.
proof fn lemma_split_last_piece(s: Seq<char>, piece: Seq<char>, separator: char)
    requires
        !piece.contains(separator),
    ensures
        split(s + seq![separator] + piece, separator) == split(s, separator).push(piece),
    decreases piece.len(),
{
    let all = s + seq![separator] + piece;
    if piece.len() == 0 {
        assert(all.drop_last() =~= s);
        assert(piece =~= Seq::empty());
    } else {
        let shorter = piece.drop_last();
        assert forall|i: int| 0 <= i < shorter.len() implies shorter[i] != separator by {
            assert(piece[i] != separator) by {
                if piece[i] == separator {
                    assert(piece.contains(separator));
                }
            }
        }
        lemma_split_last_piece(s, shorter, separator);
        assert(all.drop_last() =~= s + seq![separator] + shorter);
        assert(piece.last() != separator) by {
            assert(piece[piece.len() - 1] == piece.last());
        }
        assert(all.last() == piece.last());
        let front = split(s, separator).push(shorter);
        assert(front.drop_last() =~= split(s, separator));
        assert(shorter.push(piece.last()) =~= piece);
    }
}

/// A text without separator is one piece.
proof fn lemma_split_single_piece(piece: Seq<char>, separator: char)
    requires
        !piece.contains(separator),
    ensures
        split(piece, separator) == seq![piece],
    decreases piece.len(),
{
    if piece.len() > 0 {
        let shorter = piece.drop_last();
        assert forall|i: int| 0 <= i < shorter.len() implies shorter[i] != separator by {
            assert(piece[i] != separator) by {
                if piece[i] == separator {
                    assert(piece.contains(separator));
                }
            }
        }
        lemma_split_single_piece(shorter, separator);
        assert(piece.last() != separator) by {
            assert(piece[piece.len() - 1] == piece.last());
        }
        assert(seq![shorter].drop_last() =~= Seq::empty());
        assert(shorter.push(piece.last()) =~= piece);
        assert(split(piece, separator) =~= seq![piece]);
    } else {
        assert(split(piece, separator) =~= seq![piece]);
    }
}

/// Joined pieces are split again.
proof fn lemma_split_joined(pieces: Seq<Seq<char>>, separator: char)
    requires
        pieces.len() > 0,
        forall|i: int| 0 <= i < pieces.len() ==> !(#[trigger] pieces[i]).contains(separator),
    ensures
        split(joined(pieces, seq![separator]), separator) == pieces,
    decreases pieces.len(),
{
    if pieces.len() == 1 {
        lemma_split_single_piece(pieces[0], separator);
        assert(seq![pieces[0]] =~= pieces);
    } else {
        let front = pieces.drop_last();
        assert(forall|i: int| 0 <= i < front.len() ==> front[i] == pieces[i]);
        lemma_split_joined(front, separator);
        assert(!pieces[pieces.len() - 1].contains(separator));
        lemma_split_last_piece(joined(front, seq![separator]), pieces.last(), separator);
        assert(front.push(pieces.last()) =~= pieces);
    }
}

/// What holds of each URL that a text names: it is not empty, holds no comma,
/// has no white space around it, and that of a directory ends with a slash.
pub open spec fn well_formed_url(url: Seq<char>, refresh_type: RefreshType) -> bool {
    &&& url.len() > 0
    &&& !url.contains(',')
    &&& trimmed(url) == url
    &&& completed(url, refresh_type) == url
    &&& refresh_type is Directory ==> url.last() == '/'
}

/// A trimmed piece makes a well formed URL.
proof fn lemma_completed_piece(piece: Seq<char>, refresh_type: RefreshType)
    requires
        !piece.contains(','),
        trimmed(piece).len() > 0,
    ensures
        well_formed_url(completed(trimmed(piece), refresh_type), refresh_type),
{
    lemma_trimmed(piece);
    let core = trimmed(piece);
    let url = completed(core, refresh_type);
    if url.contains(',') {
        let i = choose|i: int| 0 <= i < url.len() && url[i] == ',';
        assert(core[i] == ',');
        assert(core.contains(','));
    }
    lemma_nothing_to_trim(url);
}

/// The URLs made of pieces without commas are well formed.
proof fn lemma_pieces_make_urls(pieces: Seq<Seq<char>>, refresh_type: RefreshType)
    requires
        forall|i: int| 0 <= i < pieces.len() ==> !(#[trigger] pieces[i]).contains(','),
    ensures
        forall|i: int|
            0 <= i < all_completed(non_empty_pieces(pieces), refresh_type).len()
                ==> well_formed_url(
                #[trigger] all_completed(non_empty_pieces(pieces), refresh_type)[i],
                refresh_type,
            ),
    decreases pieces.len(),
{
    reveal_with_fuel(Seq::filter, 1);
    if pieces.len() > 0 {
        let front = pieces.drop_last();
        assert(forall|i: int| 0 <= i < front.len() ==> front[i] == pieces[i]);
        lemma_pieces_make_urls(front, refresh_type);
        lemma_one_more_piece(front, pieces.last(), refresh_type);
        assert(front.push(pieces.last()) =~= pieces);
        assert(!pieces[pieces.len() - 1].contains(','));
        if trimmed(pieces.last()).len() > 0 {
            lemma_completed_piece(pieces.last(), refresh_type);
        }
    } else {
        assert(all_completed(non_empty_pieces(pieces), refresh_type).len() == 0);
    }
}

/// Every URL that is refreshed is well formed.
pub proof fn law_urls_are_well_formed(text: Seq<char>, refresh_type: RefreshType)
    ensures
        forall|i: int|
            0 <= i < refresh_urls(text, refresh_type).len() ==> well_formed_url(
                #[trigger] refresh_urls(text, refresh_type)[i],
                refresh_type,
            ),
{
    lemma_pieces_hold_no_separator(text, ',');
    lemma_pieces_make_urls(split(text, ','), refresh_type);
}

/// A text names the same directories as files, but for the slashes at the end.
pub proof fn law_directories_are_completed_files(text: Seq<char>)
    ensures
        refresh_urls(text, RefreshType::Directory) == all_completed(
            refresh_urls(text, RefreshType::File),
            RefreshType::Directory,
        ),
{
    let urls = non_empty_pieces(split(text, ','));
    assert(all_completed(urls, RefreshType::File) =~= urls);
}

/// Pieces that are well formed URLs are kept as they are.
proof fn lemma_urls_are_kept(urls: Seq<Seq<char>>, refresh_type: RefreshType)
    requires
        forall|i: int| 0 <= i < urls.len() ==> well_formed_url(#[trigger] urls[i], refresh_type),
    ensures
        all_completed(non_empty_pieces(urls), refresh_type) == urls,
    decreases urls.len(),
{
    reveal_with_fuel(Seq::filter, 1);
    if urls.len() > 0 {
        let front = urls.drop_last();
        assert(forall|i: int| 0 <= i < front.len() ==> front[i] == urls[i]);
        lemma_urls_are_kept(front, refresh_type);
        lemma_one_more_piece(front, urls.last(), refresh_type);
        assert(well_formed_url(urls[urls.len() - 1], refresh_type));
        assert(front.push(urls.last()) =~= urls);
    } else {
        assert(all_completed(non_empty_pieces(urls), refresh_type) =~= urls);
    }
}

/// URLs that are written down again, with commas between them, are read as the
/// same URLs.
pub proof fn law_urls_are_read_again(urls: Seq<Seq<char>>, refresh_type: RefreshType)
    requires
        urls.len() > 0,
        forall|i: int| 0 <= i < urls.len() ==> well_formed_url(#[trigger] urls[i], refresh_type),
    ensures
        refresh_urls(joined(urls, seq![',']), refresh_type) == urls,
{
    assert forall|i: int| 0 <= i < urls.len() implies !(#[trigger] urls[i]).contains(',') by {
        assert(well_formed_url(urls[i], refresh_type));
    }
    lemma_split_joined(urls, ',');
    lemma_urls_are_kept(urls, refresh_type);
}

/// A separator parts the pieces before it from those behind it.
proof fn lemma_split_at_separator(a: Seq<char>, b: Seq<char>, separator: char)
    ensures
        split(a + seq![separator] + b, separator) == split(a, separator) + split(b, separator),
    decreases b.len(),
{
    let all = a + seq![separator] + b;
    if b.len() == 0 {
        assert(all.drop_last() =~= a);
        assert(b =~= Seq::empty());
        assert(split(all, separator) =~= split(a, separator) + split(b, separator));
    } else {
        lemma_split_at_separator(a, b.drop_last(), separator);
        lemma_pieces_hold_no_separator(b.drop_last(), separator);
        assert(all.drop_last() =~= a + seq![separator] + b.drop_last());
        assert(all.last() == b.last());
        assert(split(all, separator) =~= split(a, separator) + split(b, separator));
    }
}

/// A comma parts the URLs before it from those behind it.
pub proof fn law_urls_at_comma(a: Seq<char>, b: Seq<char>, refresh_type: RefreshType)
    ensures
        refresh_urls(a + seq![','] + b, refresh_type) == refresh_urls(a, refresh_type)
            + refresh_urls(b, refresh_type),
{
    lemma_split_at_separator(a, b, ',');
    let x = split(a, ',');
    let y = split(b, ',');
    let trim = |piece: Seq<char>| trimmed(piece);
    let full = |piece: Seq<char>| piece.len() > 0;
    assert((x + y).map_values(trim) =~= x.map_values(trim) + y.map_values(trim));
    Seq::filter_distributes_over_add(x.map_values(trim), y.map_values(trim), full);
    assert(refresh_urls(a + seq![','] + b, refresh_type) =~= refresh_urls(a, refresh_type)
        + refresh_urls(b, refresh_type));
}

/// White space in front of a text is trimmed.
proof fn lemma_trim_start(blank: Seq<char>, s: Seq<char>)
    requires
        forall|i: int| 0 <= i < blank.len() ==> is_white_space(#[trigger] blank[i]),
        s.len() > 0 ==> !is_white_space(s[0]),
    ensures
        trimmed_start(blank + s) == s,
    decreases blank.len(),
{
    if blank.len() == 0 {
        assert(blank + s =~= s);
    } else {
        assert(is_white_space(blank[0]));
        let rest = blank.skip(1);
        assert(forall|i: int| 0 <= i < rest.len() ==> rest[i] == blank[i + 1]);
        lemma_trim_start(rest, s);
        assert((blank + s).skip(1) =~= rest + s);
    }
}

/// White space behind a text is trimmed.
proof fn lemma_trim_end(s: Seq<char>, blank: Seq<char>)
    requires
        forall|i: int| 0 <= i < blank.len() ==> is_white_space(#[trigger] blank[i]),
        s.len() > 0 ==> !is_white_space(s.last()),
    ensures
        trimmed_end(s + blank) == s,
    decreases blank.len(),
{
    if blank.len() == 0 {
        assert(s + blank =~= s);
    } else {
        assert(is_white_space(blank[blank.len() - 1]));
        let rest = blank.drop_last();
        assert(forall|i: int| 0 <= i < rest.len() ==> rest[i] == blank[i]);
        lemma_trim_end(s, rest);
        assert((s + blank).drop_last() =~= s + rest);
    }
}

/// A single piece makes a single URL, or none.
proof fn lemma_one_piece_urls(text: Seq<char>, refresh_type: RefreshType)
    requires
        !text.contains(','),
    ensures
        refresh_urls(text, refresh_type) == if trimmed(text).len() > 0 {
            seq![completed(trimmed(text), refresh_type)]
        } else {
            Seq::empty()
        },
{
    lemma_split_single_piece(text, ',');
    let none = Seq::<Seq<char>>::empty();
    lemma_one_more_piece(none, text, refresh_type);
    assert(none.push(text) =~= seq![text]);
    assert(all_completed(non_empty_pieces(none), refresh_type) =~= none) by {
        reveal_with_fuel(Seq::filter, 1);
    }
    assert(refresh_urls(text, refresh_type) =~= if trimmed(text).len() > 0 {
        seq![completed(trimmed(text), refresh_type)]
    } else {
        Seq::empty()
    });
}

/// A URL with white space around it, and no comma, is refreshed whole: that of a
/// file as it is, and that of a directory with one slash behind it unless it
/// ends with one.
pub proof fn law_one_url(
    lead: Seq<char>,
    url: Seq<char>,
    tail: Seq<char>,
    refresh_type: RefreshType,
)
    requires
        forall|i: int| 0 <= i < lead.len() ==> is_white_space(#[trigger] lead[i]),
        forall|i: int| 0 <= i < tail.len() ==> is_white_space(#[trigger] tail[i]),
        url.len() > 0,
        !is_white_space(url[0]),
        !is_white_space(url.last()),
        !url.contains(','),
    ensures
        refresh_urls(lead + url + tail, refresh_type) == seq![
            if refresh_type is Directory && url.last() != '/' {
                url + seq!['/']
            } else {
                url
            },
        ],
{
    let text = lead + url + tail;
    assert(text =~= lead + (url + tail));
    lemma_trim_start(lead, url + tail);
    lemma_trim_end(url, tail);
    if text.contains(',') {
        let i = choose|i: int| 0 <= i < text.len() && text[i] == ',';
        if i < lead.len() {
            assert(is_white_space(lead[i]));
        } else if i < lead.len() + url.len() {
            assert(url[i - lead.len()] == ',');
        } else {
            assert(is_white_space(tail[i - lead.len() - url.len()]));
        }
    }
    lemma_one_piece_urls(text, refresh_type);
    assert(url.push('/') =~= url + seq!['/']);
}

/// White space alone names no URL.
pub proof fn law_no_url(blank: Seq<char>, refresh_type: RefreshType)
    requires
        forall|i: int| 0 <= i < blank.len() ==> is_white_space(#[trigger] blank[i]),
    ensures
        refresh_urls(blank, refresh_type).len() == 0,
{
    let none = Seq::<char>::empty();
    lemma_trim_start(blank, none);
    assert(blank + none =~= blank);
    if blank.contains(',') {
        let i = choose|i: int| 0 <= i < blank.len() && blank[i] == ',';
        assert(is_white_space(blank[i]));
    }
    lemma_one_piece_urls(blank, refresh_type);
}

/// Each directory is the file that the same text names at the same place, whole,
/// with one slash behind it unless it ends with one.
pub proof fn law_directories_extend_files(text: Seq<char>, i: int)
    requires
        0 <= i < refresh_urls(text, RefreshType::File).len(),
    ensures
        refresh_urls(text, RefreshType::Directory).len() == refresh_urls(
            text,
            RefreshType::File,
        ).len(),
        ({
            let file = refresh_urls(text, RefreshType::File)[i];
            let directory = refresh_urls(text, RefreshType::Directory)[i];
            &&& file.len() > 0
            &&& directory.take(file.len() as int) == file
            &&& file.last() == '/' ==> directory.len() == file.len()
            &&& file.last() != '/' ==> directory.len() == file.len() + 1
            &&& directory.last() == '/'
        }),
{
    law_directories_are_completed_files(text);
    law_urls_are_well_formed(text, RefreshType::File);
    let file = refresh_urls(text, RefreshType::File)[i];
    assert(well_formed_url(file, RefreshType::File));
    let directory = refresh_urls(text, RefreshType::Directory)[i];
    assert(directory == completed(file, RefreshType::Directory));
    assert(directory.take(file.len() as int) =~= file);
}

} // verus!
