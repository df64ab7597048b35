//! Request parameters, kept in the order of their names.

use crate::reading::comes_before;
use vstd::prelude::*;
use vstd::utf8::encode_utf8;

verus! {

/// A name and a value, as texts.
pub type Pair = (Seq<char>, Seq<char>);

/// Whether `a` comes before `b` in lexicographic order.
pub open spec fn bytes_precede(a: Seq<u8>, b: Seq<u8>) -> bool
    decreases a.len(),
{
    if b.len() == 0 {
        false
    } else if a.len() == 0 {
        true
    } else {
        a[0] < b[0] || (a[0] == b[0] && bytes_precede(a.skip(1), b.skip(1)))
    }
}

/// Whether the name `a` comes before the name `b`: names are ordered by their
/// UTF-8 bytes.
pub open spec fn name_precedes(a: Seq<char>, b: Seq<char>) -> bool {
    bytes_precede(encode_utf8(a), encode_utf8(b))
}

/// Whether the names of `pairs` stand in strictly ascending order.
pub open spec fn ascending(pairs: Seq<Pair>) -> bool {
    forall|i: int, j: int|
        0 <= i < j < pairs.len() ==> name_precedes(#[trigger] pairs[i].0, #[trigger] pairs[j].0)
}

/// Whether `pairs` lists all of `map`, and nothing else, in ascending order.
pub open spec fn lists(pairs: Seq<Pair>, map: Map<Seq<char>, Seq<char>>) -> bool {
    &&& ascending(pairs)
    &&& forall|i: int|
        0 <= i < pairs.len() ==> map.contains_key((#[trigger] pairs[i]).0) && map[pairs[i].0]
            == pairs[i].1
    &&& forall|name: Seq<char>| #[trigger]
        map.contains_key(name) ==> exists|i: int|
            0 <= i < pairs.len() && #[trigger] pairs[i].0 == name
}

/// The names and values of `map` in ascending order of the names.
pub open spec fn sorted_pairs(map: Map<Seq<char>, Seq<char>>) -> Seq<Pair> {
    choose|pairs: Seq<Pair>| lists(pairs, map)
}

/// The names and values of `pairs`, the last value of a name for all.
spec fn map_of(pairs: Seq<Pair>) -> Map<Seq<char>, Seq<char>>
    decreases pairs.len(),
{
    if pairs.len() == 0 {
        Map::empty()
    } else {
        map_of(pairs.drop_last()).insert(pairs.last().0, pairs.last().1)
    }
}

proof fn lemma_precede_irreflexive(a: Seq<u8>)
    ensures
        !bytes_precede(a, a),
    decreases a.len(),
{
    if a.len() > 0 {
        lemma_precede_irreflexive(a.skip(1));
    }
}

proof fn lemma_precede_transitive(a: Seq<u8>, b: Seq<u8>, c: Seq<u8>)
    requires
        bytes_precede(a, b),
        bytes_precede(b, c),
    ensures
        bytes_precede(a, c),
    decreases a.len(),
{
    if a.len() > 0 && a[0] == b[0] && b[0] == c[0] {
        lemma_precede_transitive(a.skip(1), b.skip(1), c.skip(1));
    }
}

proof fn lemma_precede_total(a: Seq<u8>, b: Seq<u8>)
    ensures
        bytes_precede(a, b) || bytes_precede(b, a) || a == b,
    decreases a.len(),
{
    if a.len() > 0 && b.len() > 0 {
        if a[0] == b[0] {
            lemma_precede_total(a.skip(1), b.skip(1));
            if a.skip(1) == b.skip(1) {
                assert(a =~= seq![a[0]] + a.skip(1));
                assert(b =~= seq![b[0]] + b.skip(1));
            }
        }
    } else if a.len() == 0 && b.len() == 0 {
        assert(a =~= b);
    }
}

/// Names are strictly and totally ordered.
pub proof fn law_names_are_ordered(a: Seq<char>, b: Seq<char>, c: Seq<char>)
    ensures
        !name_precedes(a, a),
        name_precedes(a, b) && name_precedes(b, c) ==> name_precedes(a, c),
        name_precedes(a, b) || name_precedes(b, a) || a == b,
{
    lemma_precede_irreflexive(encode_utf8(a));
    if name_precedes(a, b) && name_precedes(b, c) {
        lemma_precede_transitive(encode_utf8(a), encode_utf8(b), encode_utf8(c));
    }
    lemma_precede_total(encode_utf8(a), encode_utf8(b));
    if encode_utf8(a) == encode_utf8(b) {
        vstd::utf8::encode_utf8_decode_utf8(a);
        vstd::utf8::encode_utf8_decode_utf8(b);
    }
}

/// Bytes that come first in lexicographic order come first in a dictionary.
proof fn lemma_precede_comes_before(a: Seq<u8>, b: Seq<u8>)
    requires
        bytes_precede(a, b),
    ensures
        comes_before(a, b),
    decreases a.len(),
{
    if a.len() == 0 || a[0] < b[0] {
        assert(a.take(0) =~= b.take(0));
    } else {
        lemma_precede_comes_before(a.skip(1), b.skip(1));
        let x = a.skip(1);
        let y = b.skip(1);
        let at = choose|at: int|
            #![trigger x.take(at)]
            0 <= at <= x.len() && at < y.len() && x.take(at) == y.take(at) && (at == x.len() || x[at]
                < y[at]);
        assert forall|i: int| 0 <= i < at implies #[trigger] x[i] == y[i] by {
            assert(x.take(at)[i] == y.take(at)[i]);
        }
        assert forall|i: int| 0 <= i < at + 1 implies #[trigger] a[i] == b[i] by {
            if i > 0 {
                assert(x[i - 1] == y[i - 1]);
            }
        }
        assert(a.take(at + 1) =~= b.take(at + 1));
    }
}

/// No bytes come before one another in a dictionary.
proof fn lemma_comes_before_one_way(a: Seq<u8>, b: Seq<u8>)
    requires
        comes_before(a, b),
    ensures
        !comes_before(b, a),
        a != b,
{
    let at = choose|at: int|
        #![trigger a.take(at)]
        0 <= at <= a.len() && at < b.len() && a.take(at) == b.take(at) && (at == a.len() || a[at]
            < b[at]);
    assert forall|k: int|
        #![trigger b.take(k)]
        !(0 <= k <= b.len() && k < a.len() && b.take(k) == a.take(k) && (k == b.len() || b[k]
            < a[k])) by {
        if 0 <= k <= b.len() && k < a.len() && b.take(k) == a.take(k) && (k == b.len() || b[k]
            < a[k]) {
            if k < at {
                assert(a.take(at)[k] == b.take(at)[k]);
            } else if at < k {
                assert(a.take(k)[at] == b.take(k)[at]);
            }
        }
    }
}

/// Names are in the order of a dictionary, byte by byte of their UTF-8.
pub proof fn law_names_are_in_dictionary_order(a: Seq<char>, b: Seq<char>)
    ensures
        name_precedes(a, b) <==> comes_before(encode_utf8(a), encode_utf8(b)),
{
    let x = encode_utf8(a);
    let y = encode_utf8(b);
    if bytes_precede(x, y) {
        lemma_precede_comes_before(x, y);
    }
    if comes_before(x, y) {
        lemma_comes_before_one_way(x, y);
        lemma_precede_total(x, y);
        if bytes_precede(y, x) {
            lemma_precede_comes_before(y, x);
        }
    }
}

/// A listing is as long as what it lists.
pub(crate) proof fn lemma_listing_length(pairs: Seq<Pair>, map: Map<Seq<char>, Seq<char>>)
    requires
        lists(pairs, map),
        map.dom().finite(),
    ensures
        pairs.len() == map.dom().len(),
    decreases pairs.len(),
{
    if pairs.len() == 0 {
        assert forall|name: Seq<char>| !map.contains_key(name) by {
            if map.contains_key(name) {
                let i = choose|i: int| 0 <= i < pairs.len() && #[trigger] pairs[i].0 == name;
            }
        }
        assert(map.dom() =~= Set::empty());
    } else {
        assert(map.contains_key(pairs[0].0));
        lemma_listing_without_first(pairs, map);
        lemma_listing_length(pairs.skip(1), map.remove(pairs[0].0));
        assert(map.remove(pairs[0].0).dom() =~= map.dom().remove(pairs[0].0));
    }
}

/// Ascending pairs list their own map, which is finite.
proof fn lemma_map_of(pairs: Seq<Pair>)
    requires
        ascending(pairs),
    ensures
        lists(pairs, map_of(pairs)),
        map_of(pairs).dom().finite(),
    decreases pairs.len(),
{
    let map = map_of(pairs);
    if pairs.len() > 0 {
        let front = pairs.drop_last();
        lemma_map_of(front);
        assert forall|i: int| 0 <= i < pairs.len() implies map.contains_key(
            (#[trigger] pairs[i]).0,
        ) && map[pairs[i].0] == pairs[i].1 by {
            if i < front.len() {
                assert(front[i] == pairs[i]);
                assert(name_precedes(pairs[i].0, pairs[front.len() as int].0));
                law_names_are_ordered(pairs[i].0, pairs[i].0, pairs[i].0);
            }
        }
        assert forall|name: Seq<char>| #[trigger] map.contains_key(name) implies exists|i: int|
            0 <= i < pairs.len() && #[trigger] pairs[i].0 == name by {
            if name == pairs.last().0 {
                assert(pairs[pairs.len() - 1].0 == name);
            } else {
                assert(map_of(front).contains_key(name));
                let i = choose|i: int| 0 <= i < front.len() && #[trigger] front[i].0 == name;
                assert(pairs[i].0 == name);
            }
        }
    }
}

/// A new name, put in its place, is listed with the others.
proof fn lemma_list_new_name(
    pairs: Seq<Pair>,
    map: Map<Seq<char>, Seq<char>>,
    at: int,
    name: Seq<char>,
    value: Seq<char>,
)
    requires
        lists(pairs, map),
        0 <= at <= pairs.len(),
        forall|i: int| 0 <= i < at ==> name_precedes(#[trigger] pairs[i].0, name),
        forall|i: int| at <= i < pairs.len() ==> name_precedes(name, #[trigger] pairs[i].0),
    ensures
        lists(pairs.insert(at, (name, value)), map.insert(name, value)),
{
    let longer = pairs.insert(at, (name, value));
    let larger = map.insert(name, value);
    law_names_are_ordered(name, name, name);
    assert(forall|i: int| 0 <= i < at ==> longer[i] == pairs[i]);
    assert(forall|i: int| at < i < longer.len() ==> longer[i] == pairs[i - 1]);
    assert(longer[at] == (name, value));
    assert forall|i: int| 0 <= i < longer.len() implies larger.contains_key(
        (#[trigger] longer[i]).0,
    ) && larger[longer[i].0] == longer[i].1 by {
        if i < at {
            assert(pairs[i].0 != name);
        } else if i > at {
            assert(pairs[i - 1].0 != name);
        }
    }
    assert forall|n: Seq<char>| #[trigger] larger.contains_key(n) implies exists|i: int|
        0 <= i < longer.len() && #[trigger] longer[i].0 == n by {
        if n == name {
            assert(longer[at].0 == n);
        } else {
            assert(map.contains_key(n));
            let i = choose|i: int| 0 <= i < pairs.len() && #[trigger] pairs[i].0 == n;
            if i < at {
                assert(longer[i].0 == n);
            } else {
                assert(longer[i + 1].0 == n);
            }
        }
    }
}

/// A listed name can be given another value.
proof fn lemma_list_new_value(
    pairs: Seq<Pair>,
    map: Map<Seq<char>, Seq<char>>,
    at: int,
    value: Seq<char>,
)
    requires
        lists(pairs, map),
        0 <= at < pairs.len(),
    ensures
        lists(pairs.update(at, (pairs[at].0, value)), map.insert(pairs[at].0, value)),
{
    let name = pairs[at].0;
    let changed = pairs.update(at, (name, value));
    let new_map = map.insert(name, value);
    law_names_are_ordered(name, name, name);
    assert(forall|i: int| 0 <= i < pairs.len() ==> changed[i].0 == pairs[i].0);
    assert forall|i: int| 0 <= i < changed.len() implies new_map.contains_key(
        (#[trigger] changed[i]).0,
    ) && new_map[changed[i].0] == changed[i].1 by {
        if i < at {
            assert(name_precedes(pairs[i].0, pairs[at].0));
        } else if i > at {
            assert(name_precedes(pairs[at].0, pairs[i].0));
        }
    }
    assert forall|n: Seq<char>| #[trigger] new_map.contains_key(n) implies exists|i: int|
        0 <= i < changed.len() && #[trigger] changed[i].0 == n by {
        if n == name {
            assert(changed[at].0 == n);
        } else {
            assert(map.contains_key(n));
            let i = choose|i: int| 0 <= i < pairs.len() && #[trigger] pairs[i].0 == n;
            assert(changed[i].0 == n);
        }
    }
}

/// A map has no more than one ascending listing.
proof fn lemma_listing_is_unique(
    a: Seq<Pair>,
    b: Seq<Pair>,
    map: Map<Seq<char>, Seq<char>>,
)
    requires
        lists(a, map),
        lists(b, map),
    ensures
        a == b,
    decreases a.len(),
{
    if a.len() == 0 || b.len() == 0 {
        if a.len() > 0 {
            assert(map.contains_key(a[0].0));
        }
        if b.len() > 0 {
            assert(map.contains_key(b[0].0));
        }
        assert(a =~= b);
    } else {
        let in_b = choose|i: int| 0 <= i < b.len() && #[trigger] b[i].0 == a[0].0;
        let in_a = choose|i: int| 0 <= i < a.len() && #[trigger] a[i].0 == b[0].0;
        assert(map.contains_key(a[0].0) && map.contains_key(b[0].0));
        assert(0 <= in_b < b.len() && b[in_b].0 == a[0].0);
        assert(0 <= in_a < a.len() && a[in_a].0 == b[0].0);
        if in_b > 0 && in_a > 0 {
            assert(name_precedes(b[0].0, b[in_b].0));
            assert(name_precedes(a[0].0, a[in_a].0));
            law_names_are_ordered(a[0].0, b[0].0, a[0].0);
        }
        assert(a[0] == b[0]);
        let name = a[0].0;
        lemma_listing_without_first(a, map);
        lemma_listing_without_first(b, map);
        lemma_listing_is_unique(a.skip(1), b.skip(1), map.remove(name));
        assert(a =~= seq![a[0]] + a.skip(1));
        assert(b =~= seq![b[0]] + b.skip(1));
    }
}

/// Without its first name a listing lists the rest.
proof fn lemma_listing_without_first(pairs: Seq<Pair>, map: Map<Seq<char>, Seq<char>>)
    requires
        lists(pairs, map),
        pairs.len() > 0,
    ensures
        lists(pairs.skip(1), map.remove(pairs[0].0)),
{
    let name = pairs[0].0;
    let rest = pairs.skip(1);
    let smaller = map.remove(name);
    law_names_are_ordered(name, name, name);
    assert(forall|i: int| 0 <= i < rest.len() ==> rest[i] == pairs[i + 1]);
    assert forall|i: int| 0 <= i < rest.len() implies smaller.contains_key(
        (#[trigger] rest[i]).0,
    ) && smaller[rest[i].0] == rest[i].1 by {
        assert(name_precedes(pairs[0].0, pairs[i + 1].0));
    }
    assert forall|n: Seq<char>| #[trigger] smaller.contains_key(n) implies exists|i: int|
        0 <= i < rest.len() && #[trigger] rest[i].0 == n by {
        assert(map.contains_key(n));
        let i = choose|i: int| 0 <= i < pairs.len() && #[trigger] pairs[i].0 == n;
        assert(rest[i - 1].0 == n);
    }
}

/// Where a name belongs among ascending pairs that do not hold it.
proof fn lemma_place(pairs: Seq<Pair>, name: Seq<char>) -> (at: int)
    requires
        ascending(pairs),
        forall|i: int| 0 <= i < pairs.len() ==> #[trigger] pairs[i].0 != name,
    ensures
        0 <= at <= pairs.len(),
        forall|i: int| 0 <= i < at ==> name_precedes(#[trigger] pairs[i].0, name),
        forall|i: int| at <= i < pairs.len() ==> name_precedes(name, #[trigger] pairs[i].0),
    decreases pairs.len(),
{
    if pairs.len() == 0 {
        0
    } else {
        let last = pairs.last().0;
        law_names_are_ordered(last, name, last);
        if name_precedes(last, name) {
            assert forall|i: int| 0 <= i < pairs.len() implies name_precedes(
                #[trigger] pairs[i].0,
                name,
            ) by {
                if i < pairs.len() - 1 {
                    assert(name_precedes(pairs[i].0, pairs[pairs.len() - 1].0));
                    law_names_are_ordered(pairs[i].0, last, name);
                }
            }
            pairs.len() as int
        } else {
            let front = pairs.drop_last();
            assert(forall|i: int| 0 <= i < front.len() ==> front[i] == pairs[i]);
            let at = lemma_place(front, name);
            assert(forall|i: int| 0 <= i < at ==> name_precedes(#[trigger] pairs[i].0, name)) by {
                assert(forall|i: int| 0 <= i < at ==> pairs[i] == front[i]);
            }
            assert forall|i: int| at <= i < pairs.len() implies name_precedes(
                name,
                #[trigger] pairs[i].0,
            ) by {
                if i < front.len() {
                    assert(front[i] == pairs[i]);
                }
            }
            at
        }
    }
}

/// Every finite set of parameters has exactly one listing in ascending order of
/// the names, whatever the order in which the parameters came.
pub proof fn law_sorted_pairs(map: Map<Seq<char>, Seq<char>>)
    requires
        map.dom().finite(),
    ensures
        lists(sorted_pairs(map), map),
        forall|pairs: Seq<Pair>| #[trigger] lists(pairs, map) ==> pairs == sorted_pairs(map),
    decreases map.dom().len(),
{
    if map.dom().len() == 0 {
        assert forall|name: Seq<char>| !map.contains_key(name) by {
            if map.contains_key(name) {
                assert(map.dom() =~= Set::empty());
            }
        }
        assert(lists(Seq::<Pair>::empty(), map));
    } else {
        let name = map.dom().choose();
        let smaller = map.remove(name);
        assert(map.contains_key(name));
        law_sorted_pairs(smaller);
        let pairs = sorted_pairs(smaller);
        assert forall|i: int| 0 <= i < pairs.len() implies #[trigger] pairs[i].0 != name by {
            assert(smaller.contains_key(pairs[i].0));
        }
        let at = lemma_place(pairs, name);
        lemma_list_new_name(pairs, smaller, at, name, map[name]);
        assert(smaller.insert(name, map[name]) =~= map);
        assert(lists(pairs.insert(at, (name, map[name])), map));
    }
    assert forall|pairs: Seq<Pair>| #[trigger] lists(pairs, map) implies pairs == sorted_pairs(
        map,
    ) by {
        lemma_listing_is_unique(pairs, sorted_pairs(map), map);
    }
}

/// How two names are ordered.
enum NameOrder {
    Before,
    Same,
    After,
}

/// Orders two names by their UTF-8 bytes.
fn order_names(a: &str, b: &str) -> (order: NameOrder)
    ensures
        match order {
            NameOrder::Before => name_precedes(a@, b@),
            NameOrder::Same => a@ == b@,
            NameOrder::After => name_precedes(b@, a@),
        },
{
    let x = a.as_bytes();
    let y = b.as_bytes();
    let mut i: usize = 0;
    assert(x@.skip(0) =~= x@ && y@.skip(0) =~= y@);
    while i < x.len() && i < y.len() && x[i] == y[i]
        invariant
            i <= x@.len(),
            i <= y@.len(),
            x@.take(i as int) == y@.take(i as int),
            bytes_precede(x@.skip(i as int), y@.skip(i as int)) ==> bytes_precede(x@, y@),
            bytes_precede(y@.skip(i as int), x@.skip(i as int)) ==> bytes_precede(y@, x@),
        decreases x.len() - i,
    {
        assert(x@.skip(i as int).skip(1) =~= x@.skip(i + 1));
        assert(y@.skip(i as int).skip(1) =~= y@.skip(i + 1));
        assert(x@.take(i + 1) =~= x@.take(i as int).push(x@[i as int]));
        assert(y@.take(i + 1) =~= y@.take(i as int).push(y@[i as int]));
        i = i + 1;
    }
    if i < x.len() && i < y.len() {
        if x[i] < y[i] {
            NameOrder::Before
        } else {
            NameOrder::After
        }
    } else if i < x.len() {
        NameOrder::After
    } else if i < y.len() {
        NameOrder::Before
    } else {
        proof {
            assert(x@ =~= y@.take(i as int));
            assert(y@ =~= y@.take(i as int));
            vstd::utf8::encode_utf8_decode_utf8(a@);
            vstd::utf8::encode_utf8_decode_utf8(b@);
        }
        NameOrder::Same
    }
}

/// Parameters of a request: values by name, in ascending order of the names.
#[derive(Debug)]
pub struct Params {
    entries: Vec<(String, String)>,
}

/// The texts of names and values.
pub open spec fn pair_texts(entries: Seq<(String, String)>) -> Seq<Pair> {
    entries.map_values(|entry: (String, String)| (entry.0@, entry.1@))
}

impl View for Params {
    type V = Map<Seq<char>, Seq<char>>;

    closed spec fn view(&self) -> Map<Seq<char>, Seq<char>> {
        map_of(pair_texts(self.entries@))
    }
}

impl Params {
    #[verifier::type_invariant]
    spec fn in_order(self) -> bool {
        ascending(pair_texts(self.entries@))
    }

    /// No parameters.
    pub fn new() -> (params: Params)
        ensures
            params@ == Map::<Seq<char>, Seq<char>>::empty(),
    {
        Params { entries: Vec::new() }
    }

    /// Where a name stands among the entries, or where it belongs.
    fn place(entries: &Vec<(String, String)>, name: &str) -> (place: (usize, bool))
        requires
            ascending(pair_texts(entries@)),
        ensures
            place.0 <= entries@.len(),
            forall|i: int|
                0 <= i < place.0 ==> name_precedes(
                    #[trigger] pair_texts(entries@)[i].0,
                    name@,
                ),
            place.1 ==> place.0 < entries@.len() && pair_texts(entries@)[place.0 as int].0 == name@,
            !place.1 ==> forall|i: int|
                place.0 <= i < entries@.len() ==> name_precedes(
                    name@,
                    #[trigger] pair_texts(entries@)[i].0,
                ),
    {
        let ghost pairs = pair_texts(entries@);
        let mut at: usize = 0;
        while at < entries.len()
            invariant
                at <= entries@.len(),
                pairs == pair_texts(entries@),
                ascending(pairs),
                forall|i: int| 0 <= i < at ==> name_precedes(#[trigger] pairs[i].0, name@),
            decreases entries.len() - at,
        {
            match order_names(entries[at].0.as_str(), name) {
                NameOrder::Before => {
                    at = at + 1;
                },
                NameOrder::Same => {
                    return (at, true);
                },
                NameOrder::After => {
                    assert forall|i: int| at <= i < entries@.len() implies name_precedes(
                        name@,
                        #[trigger] pairs[i].0,
                    ) by {
                        if i > at {
                            assert(name_precedes(pairs[at as int].0, pairs[i].0));
                            law_names_are_ordered(name@, pairs[at as int].0, pairs[i].0);
                        }
                    }
                    return (at, false);
                },
            }
        }
        (at, false)
    }

    /// Sets the value of a name, in place of the value that it had.
    pub fn insert(&mut self, name: String, value: String)
        ensures
            final(self)@ == old(self)@.insert(name@, value@),
    {
        proof {
            use_type_invariant(&*self);
        }
        let mut entries: Vec<(String, String)> = Vec::new();
        std::mem::swap(&mut entries, &mut self.entries);
        let ghost pairs = pair_texts(entries@);
        let ghost map = map_of(pairs);
        let (at, present) = Self::place(&entries, name.as_str());
        let ghost n = name@;
        let ghost v = value@;
        proof {
            lemma_map_of(pairs);
            if present {
                lemma_list_new_value(pairs, map, at as int, v);
            } else {
                lemma_list_new_name(pairs, map, at as int, n, v);
            }
        }
        if present {
            entries.set(at, (name, value));
            assert(pair_texts(entries@) =~= pairs.update(at as int, (n, v)));
        } else {
            entries.insert(at, (name, value));
            assert(pair_texts(entries@) =~= pairs.insert(at as int, (n, v)));
        }
        proof {
            lemma_map_of(pair_texts(entries@));
            lemma_same_listing_same_map(
                pair_texts(entries@),
                map_of(pair_texts(entries@)),
                map.insert(n, v),
            );
        }
        self.entries = entries;
    }

    /// The names and values, in ascending order of the names. They are finitely
    /// many.
    pub fn pairs(&self) -> (pairs: &Vec<(String, String)>)
        ensures
            lists(pair_texts(pairs@), self@),
            pair_texts(pairs@) == sorted_pairs(self@),
            self@.dom().finite(),
            pairs@.len() == self@.dom().len(),
            forall|i: int|
                0 <= i < pairs@.len() ==> self@.contains_key((#[trigger] pairs@[i]).0@)
                    && self@[pairs@[i].0@] == pairs@[i].1@,
            forall|i: int, j: int|
                0 <= i < j < pairs@.len() ==> comes_before(
                    encode_utf8((#[trigger] pairs@[i]).0@),
                    encode_utf8((#[trigger] pairs@[j]).0@),
                ),
    {
        proof {
            use_type_invariant(self);
            lemma_map_of(pair_texts(self.entries@));
            lemma_listing_is_unique(pair_texts(self.entries@), sorted_pairs(self@), self@);
            lemma_listing_length(pair_texts(self.entries@), self@);
            let texts = pair_texts(self.entries@);
            assert forall|i: int| 0 <= i < self.entries@.len() implies self@.contains_key(
                (#[trigger] self.entries@[i]).0@,
            ) && self@[self.entries@[i].0@] == self.entries@[i].1@ by {
                assert(texts[i] == (self.entries@[i].0@, self.entries@[i].1@));
            }
            assert forall|i: int, j: int| 0 <= i < j < self.entries@.len() implies comes_before(
                encode_utf8((#[trigger] self.entries@[i]).0@),
                encode_utf8((#[trigger] self.entries@[j]).0@),
            ) by {
                assert(name_precedes(texts[i].0, texts[j].0));
                law_names_are_in_dictionary_order(texts[i].0, texts[j].0);
            }
        }
        &self.entries
    }
}

/// What is listed alike is the same.
pub(crate) proof fn lemma_same_listing_same_map(
    pairs: Seq<Pair>,
    a: Map<Seq<char>, Seq<char>>,
    b: Map<Seq<char>, Seq<char>>,
)
    requires
        lists(pairs, a),
        lists(pairs, b),
    ensures
        a == b,
{
    assert forall|name: Seq<char>| a.contains_key(name) == b.contains_key(name) && (
    a.contains_key(name) ==> a[name] == b[name]) by {
        if a.contains_key(name) {
            let i = choose|i: int| 0 <= i < pairs.len() && #[trigger] pairs[i].0 == name;
            assert(pairs[i].0 == name);
        }
        if b.contains_key(name) {
            let i = choose|i: int| 0 <= i < pairs.len() && #[trigger] pairs[i].0 == name;
            assert(pairs[i].0 == name);
        }
    }
    assert(a =~= b);
}

} // verus!
