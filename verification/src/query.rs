//! The canonicalized query, the text of the parameters that a signature covers.

use crate::encoding::{
    aliyun_percent_encode, law_encoded_alphabet, law_percent_encoding_is_injective,
    law_percent_encoding_is_read_back, percent_encoded,
};
use crate::params::{
    law_names_are_in_dictionary_order, law_sorted_pairs, lemma_listing_length,
    lemma_same_listing_same_map, name_precedes, pair_texts, sorted_pairs, Pair, Params,
};
use crate::reading::{
    comes_before, lemma_one_piece, lemma_pieces_at_mark, percent_decoded, pieces, query_pair,
    query_pairs,
};
use crate::text::joined;
use vstd::prelude::*;
use vstd::utf8::encode_utf8;

verus! {

/// A parameter in a query: the encoded name, `=` and the encoded value.
pub open spec fn pair_text(pair: Pair) -> Seq<char> {
    percent_encoded(pair.0) + seq!['='] + percent_encoded(pair.1)
}

/// The texts of parameters in a query.
pub open spec fn query_parts(pairs: Seq<Pair>) -> Seq<Seq<char>> {
    pairs.map_values(|pair: Pair| pair_text(pair))
}

/// All parameters in ascending order of their names, with `&` between them.
pub open spec fn query_text(params: Map<Seq<char>, Seq<char>>) -> Seq<char> {
    joined(query_parts(sorted_pairs(params)), seq!['&'])
}

/// The canonicalized query of request parameters.
pub fn canonicalized_query(params: &Params) -> (query: String)
    ensures
        query@ == query_text(params@),
{
    let pairs = params.pairs();
    let ghost parts = query_parts(pair_texts(pairs@));
    let mut query = String::new();
    let mut i: usize = 0;
    while i < pairs.len()
        invariant
            i <= pairs@.len(),
            parts == query_parts(pair_texts(pairs@)),
            query@ == joined(parts.take(i as int), seq!['&']),
        decreases pairs.len() - i,
    {
        let ghost before = query@;
        if i > 0 {
            query.push('&');
        }
        let name = aliyun_percent_encode(pairs[i].0.as_str());
        let value = aliyun_percent_encode(pairs[i].1.as_str());
        let ghost start = query@;
        query.append(name.as_str());
        query.push('=');
        query.append(value.as_str());
        assert(query@ =~= start + parts[i as int]);
        assert(parts.take(i + 1).drop_last() =~= parts.take(i as int));
        if i > 0 {
            assert(start =~= before + seq!['&']);
        } else {
            assert(start =~= Seq::empty());
            assert(query@ =~= parts[0]);
        }
        i = i + 1;
    }
    assert(parts.take(i as int) =~= parts);
    query
}

/// Text is parted in only one way at its last `mark`.
proof fn lemma_parted_at_last(
    a: Seq<char>,
    x: Seq<char>,
    b: Seq<char>,
    y: Seq<char>,
    mark: char,
)
    requires
        a + seq![mark] + x == b + seq![mark] + y,
        !x.contains(mark),
        !y.contains(mark),
    ensures
        a == b,
        x == y,
{
    let s = a + seq![mark] + x;
    let t = b + seq![mark] + y;
    assert(s.len() == a.len() + 1 + x.len());
    assert(t.len() == b.len() + 1 + y.len());
    assert(s[a.len() as int] == mark);
    assert(t[b.len() as int] == mark);
    if a.len() < b.len() {
        assert(s[b.len() as int] == x[b.len() - a.len() - 1]);
        assert(x.contains(mark));
    }
    if b.len() < a.len() {
        assert(t[a.len() as int] == y[a.len() - b.len() - 1]);
        assert(y.contains(mark));
    }
    assert(s.take(a.len() as int) =~= a);
    assert(t.take(b.len() as int) =~= b);
    assert(s.skip(a.len() as int + 1) =~= x);
    assert(t.skip(b.len() as int + 1) =~= y);
}

/// Joined parts are found again, as long as none is empty or holds the separator.
proof fn lemma_joined_injective(a: Seq<Seq<char>>, b: Seq<Seq<char>>, mark: char)
    requires
        joined(a, seq![mark]) == joined(b, seq![mark]),
        forall|i: int| 0 <= i < a.len() ==> (#[trigger] a[i]).len() > 0 && !a[i].contains(mark),
        forall|i: int| 0 <= i < b.len() ==> (#[trigger] b[i]).len() > 0 && !b[i].contains(mark),
    ensures
        a == b,
    decreases a.len(),
{
    let s = joined(a, seq![mark]);
    let t = joined(b, seq![mark]);
    if a.len() >= 2 {
        let at = joined(a.drop_last(), seq![mark]).len() as int;
        assert(s[at] == mark);
        assert(s.contains(mark));
    }
    if b.len() >= 2 {
        let at = joined(b.drop_last(), seq![mark]).len() as int;
        assert(t[at] == mark);
        assert(t.contains(mark));
    }
    if a.len() == 1 {
        assert(!a[0].contains(mark));
    }
    if b.len() == 1 {
        assert(!b[0].contains(mark));
    }
    if a.len() >= 2 && b.len() >= 2 {
        assert(!a[a.len() - 1].contains(mark));
        assert(!b[b.len() - 1].contains(mark));
        lemma_parted_at_last(
            joined(a.drop_last(), seq![mark]),
            a.last(),
            joined(b.drop_last(), seq![mark]),
            b.last(),
            mark,
        );
        assert(forall|i: int| 0 <= i < a.len() - 1 ==> a.drop_last()[i] == a[i]);
        assert(forall|i: int| 0 <= i < b.len() - 1 ==> b.drop_last()[i] == b[i]);
        lemma_joined_injective(a.drop_last(), b.drop_last(), mark);
        assert(a =~= a.drop_last().push(a.last()));
        assert(b =~= b.drop_last().push(b.last()));
    } else {
        assert(a =~= b);
    }
}

/// The text of a parameter identifies it, and holds no `&`.
proof fn lemma_pair_text(a: Pair, b: Pair)
    ensures
        pair_text(a).len() > 0,
        !pair_text(a).contains('&'),
        pair_text(a) == pair_text(b) ==> a == b,
{
    law_encoded_alphabet(a.0);
    law_encoded_alphabet(a.1);
    law_encoded_alphabet(b.1);
    let name = percent_encoded(a.0);
    let value = percent_encoded(a.1);
    if pair_text(a).contains('&') {
        let i = choose|i: int| 0 <= i < pair_text(a).len() && pair_text(a)[i] == '&';
        if i < name.len() {
            assert(name[i] == '&');
        } else if i > name.len() {
            assert(value[i - name.len() - 1] == '&');
        }
    }
    if pair_text(a) == pair_text(b) {
        lemma_parted_at_last(
            percent_encoded(a.0),
            percent_encoded(a.1),
            percent_encoded(b.0),
            percent_encoded(b.1),
            '=',
        );
        law_percent_encoding_is_injective(a.0, b.0);
        law_percent_encoding_is_injective(a.1, b.1);
    }
}

/// Joined parts without the mark are the pieces of the text.
pub(crate) proof fn lemma_pieces_of_joined(parts: Seq<Seq<char>>, mark: char)
    requires
        parts.len() > 0,
        forall|i: int| 0 <= i < parts.len() ==> !(#[trigger] parts[i]).contains(mark),
    ensures
        pieces(joined(parts, seq![mark]), mark) == parts,
    decreases parts.len(),
{
    assert(!parts[parts.len() - 1].contains(mark));
    lemma_one_piece(parts.last(), mark);
    if parts.len() > 1 {
        let front = parts.drop_last();
        assert(forall|i: int| 0 <= i < front.len() ==> front[i] == parts[i]);
        lemma_pieces_of_joined(front, mark);
        lemma_pieces_at_mark(joined(front, seq![mark]), parts.last(), mark);
        assert(front + seq![parts.last()] =~= parts);
    } else {
        assert(seq![parts.last()] =~= parts);
    }
}

/// A parameter in a query is read as its name and its value.
proof fn lemma_pair_is_read_back(pair: Pair)
    ensures
        pieces(pair_text(pair), '=').len() == 2,
        query_pair(pair_text(pair)) == (encode_utf8(pair.0), encode_utf8(pair.1)),
{
    let name = percent_encoded(pair.0);
    let value = percent_encoded(pair.1);
    law_encoded_alphabet(pair.0);
    law_encoded_alphabet(pair.1);
    lemma_pieces_at_mark(name, value, '=');
    lemma_one_piece(name, '=');
    lemma_one_piece(value, '=');
    law_percent_encoding_is_read_back(pair.0);
    law_percent_encoding_is_read_back(pair.1);
}

/// A canonicalized query is read as the parameters that it was made of: cut at
/// each `&`, and each piece at its one `=`, it gives the bytes of every name and
/// of its value, once each, and the names in ascending order.
pub proof fn law_query_is_read_back(params: Map<Seq<char>, Seq<char>>)
    requires
        params.dom().finite(),
    ensures
        query_pairs(query_text(params)).len() == params.dom().len(),
        forall|i: int, j: int|
            0 <= i < j < params.dom().len() ==> comes_before(
                (#[trigger] query_pairs(query_text(params))[i]).0,
                (#[trigger] query_pairs(query_text(params))[j]).0,
            ),
        forall|i: int|
            #![trigger query_pairs(query_text(params))[i]]
            0 <= i < params.dom().len() ==> exists|name: Seq<char>| #[trigger]
                params.contains_key(name) && query_pairs(query_text(params))[i] == (
                    encode_utf8(name),
                    encode_utf8(params[name]),
                ),
        forall|name: Seq<char>| #[trigger]
            params.contains_key(name) ==> query_pairs(query_text(params)).contains(
                (encode_utf8(name), encode_utf8(params[name])),
            ),
{
    law_sorted_pairs(params);
    let pairs = sorted_pairs(params);
    lemma_listing_length(pairs, params);
    let parts = query_parts(pairs);
    let read = query_pairs(query_text(params));
    assert forall|i: int| 0 <= i < parts.len() implies (#[trigger] parts[i]).len() > 0
        && !parts[i].contains('&') by {
        lemma_pair_text(pairs[i], pairs[i]);
    }
    if pairs.len() > 0 {
        lemma_pieces_of_joined(parts, '&');
        lemma_query_text_is_not_empty(parts);
    }
    assert(read.len() == pairs.len());
    assert forall|i: int| 0 <= i < pairs.len() implies #[trigger] read[i] == (
        encode_utf8(pairs[i].0),
        encode_utf8(pairs[i].1),
    ) by {
        lemma_pair_is_read_back(pairs[i]);
        assert(parts[i] == pair_text(pairs[i]));
    }
    assert forall|i: int, j: int| 0 <= i < j < pairs.len() implies comes_before(
        (#[trigger] read[i]).0,
        (#[trigger] read[j]).0,
    ) by {
        assert(name_precedes(pairs[i].0, pairs[j].0));
        law_names_are_in_dictionary_order(pairs[i].0, pairs[j].0);
    }
    assert forall|i: int|
        #![trigger read[i]]
        0 <= i < pairs.len() implies exists|name: Seq<char>| #[trigger]
        params.contains_key(name) && read[i] == (encode_utf8(name), encode_utf8(params[name])) by {
        assert(params.contains_key(pairs[i].0) && params[pairs[i].0] == pairs[i].1);
        assert(read[i] == (encode_utf8(pairs[i].0), encode_utf8(pairs[i].1)));
    }
    assert forall|name: Seq<char>| #[trigger] params.contains_key(name) implies read.contains(
        (encode_utf8(name), encode_utf8(params[name])),
    ) by {
        let i = choose|i: int| 0 <= i < pairs.len() && #[trigger] pairs[i].0 == name;
        assert(params[pairs[i].0] == pairs[i].1);
        assert(read[i] == (encode_utf8(name), encode_utf8(params[name])));
    }
}

/// A canonicalized query has a piece for each parameter: its name and its value,
/// each percent encoded, with `=` between them.
pub proof fn law_query_pieces(params: Map<Seq<char>, Seq<char>>, i: int)
    requires
        params.dom().finite(),
        0 <= i < params.dom().len(),
    ensures
        pieces(query_text(params), '&').len() == params.dom().len(),
        exists|name: Seq<char>| #[trigger]
            params.contains_key(name) && pieces(query_text(params), '&')[i] == percent_encoded(name)
                + seq!['='] + percent_encoded(params[name]),
{
    law_sorted_pairs(params);
    let pairs = sorted_pairs(params);
    lemma_listing_length(pairs, params);
    let parts = query_parts(pairs);
    assert forall|k: int| 0 <= k < parts.len() implies !(#[trigger] parts[k]).contains('&') by {
        lemma_pair_text(pairs[k], pairs[k]);
    }
    lemma_pieces_of_joined(parts, '&');
    assert(params.contains_key(pairs[i].0) && params[pairs[i].0] == pairs[i].1);
    assert(parts[i] == pair_text(pairs[i]));
}

/// Joined parts are not empty where none of them is.
proof fn lemma_query_text_is_not_empty(parts: Seq<Seq<char>>)
    requires
        parts.len() > 0,
        forall|i: int| 0 <= i < parts.len() ==> (#[trigger] parts[i]).len() > 0,
    ensures
        joined(parts, seq!['&']).len() > 0,
{
    assert(parts[0].len() > 0);
}

/// A canonicalized query identifies the parameters that it was made of: no two
/// different requests have the same query.
pub proof fn law_query_identifies_params(
    a: Map<Seq<char>, Seq<char>>,
    b: Map<Seq<char>, Seq<char>>,
)
    requires
        a.dom().finite(),
        b.dom().finite(),
        query_text(a) == query_text(b),
    ensures
        a == b,
{
    law_sorted_pairs(a);
    law_sorted_pairs(b);
    let p = sorted_pairs(a);
    let q = sorted_pairs(b);
    assert forall|i: int| 0 <= i < query_parts(p).len() implies (
    #[trigger] query_parts(p)[i]).len() > 0 && !query_parts(p)[i].contains('&') by {
        lemma_pair_text(p[i], p[i]);
    }
    assert forall|i: int| 0 <= i < query_parts(q).len() implies (
    #[trigger] query_parts(q)[i]).len() > 0 && !query_parts(q)[i].contains('&') by {
        lemma_pair_text(q[i], q[i]);
    }
    lemma_joined_injective(query_parts(p), query_parts(q), '&');
    assert(p.len() == query_parts(p).len() && q.len() == query_parts(q).len());
    assert forall|i: int| 0 <= i < p.len() implies p[i] == q[i] by {
        assert(query_parts(p)[i] == query_parts(q)[i]);
        lemma_pair_text(p[i], q[i]);
    }
    assert(p =~= q);
    lemma_same_listing_same_map(p, a, b);
}

} // verus!
