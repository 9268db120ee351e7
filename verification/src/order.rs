//! The order of texts: byte by byte over their UTF-8 encoding, which is the
//! order in which Rust compares strings.

use crate::text::texts;
use vstd::prelude::*;
use vstd::relations::*;
use vstd::seq_lib::*;
use vstd::string::*;
use vstd::utf8::*;

verus! {

/// Whether `x` comes before `y`: at the first place where they differ `x`
/// has the smaller byte, or `x` ends there and `y` goes on.
pub open spec fn bytes_before(x: Seq<u8>, y: Seq<u8>) -> bool
    decreases x.len(),
{
    if y.len() == 0 {
        false
    } else if x.len() == 0 {
        true
    } else if x[0] != y[0] {
        x[0] < y[0]
    } else {
        bytes_before(x.drop_first(), y.drop_first())
    }
}

/// Whether the text `a` comes before the text `b`.
pub open spec fn before(a: Seq<char>, b: Seq<char>) -> bool {
    bytes_before(encode_utf8(a), encode_utf8(b))
}

/// Whether `a` comes before `b` or is `b`.
pub open spec fn not_after(a: Seq<char>, b: Seq<char>) -> bool {
    a == b || before(a, b)
}

/// Whether the texts stand in order, equal ones side by side.
pub open spec fn ordered(s: Seq<Seq<char>>) -> bool {
    forall|i: int, j: int| 0 <= i < j < s.len() ==> not_after(#[trigger] s[i], #[trigger] s[j])
}

/// The order of texts as a relation: `a` comes before `b` or is `b`.
pub open spec fn text_order() -> spec_fn(Seq<char>, Seq<char>) -> bool {
    |a: Seq<char>, b: Seq<char>| not_after(a, b)
}

/// The texts of `s`, each as often as in `s`, in order.
pub open spec fn in_order(s: Seq<Seq<char>>) -> Seq<Seq<char>> {
    s.sort_by(text_order())
}

/// No byte string comes before itself.
pub proof fn lemma_bytes_before_irreflexive(x: Seq<u8>)
    ensures
        !bytes_before(x, x),
    decreases x.len(),
{
    if x.len() > 0 {
        lemma_bytes_before_irreflexive(x.drop_first());
    }
}

/// What comes before something that comes before a third comes before the
/// third.
pub proof fn lemma_bytes_before_transitive(x: Seq<u8>, y: Seq<u8>, z: Seq<u8>)
    requires
        bytes_before(x, y),
        bytes_before(y, z),
    ensures
        bytes_before(x, z),
    decreases x.len(),
{
    if x.len() > 0 && x[0] == y[0] && y[0] == z[0] {
        lemma_bytes_before_transitive(x.drop_first(), y.drop_first(), z.drop_first());
    }
}

/// Of two different byte strings one comes before the other.
pub proof fn lemma_bytes_before_total(x: Seq<u8>, y: Seq<u8>)
    ensures
        bytes_before(x, y) || x == y || bytes_before(y, x),
    decreases x.len(),
{
    if x.len() > 0 && y.len() > 0 && x[0] == y[0] {
        lemma_bytes_before_total(x.drop_first(), y.drop_first());
        if x.drop_first() == y.drop_first() {
            assert(x =~= seq![x[0]] + x.drop_first());
            assert(y =~= seq![y[0]] + y.drop_first());
        }
    } else if x.len() == 0 && y.len() == 0 {
        assert(x =~= y);
    }
}

/// The order of texts is a strict total order.
pub proof fn lemma_before_is_total_order(a: Seq<char>, b: Seq<char>, c: Seq<char>)
    ensures
        !before(a, a),
        before(a, b) && before(b, c) ==> before(a, c),
        before(a, b) || a == b || before(b, a),
        !(before(a, b) && before(b, a)),
{
    lemma_bytes_before_irreflexive(encode_utf8(a));
    if before(a, b) && before(b, c) {
        lemma_bytes_before_transitive(encode_utf8(a), encode_utf8(b), encode_utf8(c));
    }
    lemma_bytes_before_total(encode_utf8(a), encode_utf8(b));
    if encode_utf8(a) == encode_utf8(b) {
        encode_utf8_decode_utf8(a);
        encode_utf8_decode_utf8(b);
    }
    if before(a, b) && before(b, a) {
        lemma_bytes_before_transitive(encode_utf8(a), encode_utf8(b), encode_utf8(a));
    }
}

/// Whether `a` comes before `b`.
pub fn precedes(a: &str, b: &str) -> (r: bool)
    ensures
        r == before(a@, b@),
{
    let x = a.as_bytes();
    let y = b.as_bytes();
    let mut i: usize = 0;
    assert(x@.skip(0) =~= x@);
    assert(y@.skip(0) =~= y@);
    while i < x.len() && i < y.len()
        invariant
            i <= x.len(),
            i <= y.len(),
            x@ == encode_utf8(a@),
            y@ == encode_utf8(b@),
            bytes_before(x@, y@) == bytes_before(x@.skip(i as int), y@.skip(i as int)),
        decreases x.len() - i,
    {
        let ghost xs = x@.skip(i as int);
        let ghost ys = y@.skip(i as int);
        assert(xs[0] == x@[i as int]);
        assert(ys[0] == y@[i as int]);
        assert(xs.drop_first() =~= x@.skip(i as int + 1));
        assert(ys.drop_first() =~= y@.skip(i as int + 1));
        if x[i] != y[i] {
            return x[i] < y[i];
        }
        i = i + 1;
    }
    assert(x@.skip(i as int).len() == x@.len() - i);
    assert(y@.skip(i as int).len() == y@.len() - i);
    i < y.len()
}

/// Puts `item` into `sorted` in front of the first text that comes after
/// it.
fn insert_ordered(sorted: &mut Vec<String>, item: String)
    requires
        ordered(texts(old(sorted)@)),
    ensures
        ordered(texts(final(sorted)@)),
        texts(final(sorted)@).to_multiset() == texts(old(sorted)@).to_multiset().insert(item@),
        final(sorted)@.len() == old(sorted)@.len() + 1,
{
    let ghost start = texts(sorted@);
    let mut at: usize = 0;
    while at < sorted.len() && !precedes(item.as_str(), sorted[at].as_str())
        invariant
            at <= sorted.len(),
            texts(sorted@) == start,
            ordered(start),
            forall|k: int| 0 <= k < at ==> not_after(#[trigger] start[k], item@),
        decreases sorted.len() - at,
    {
        proof {
            lemma_before_is_total_order(item@, start[at as int], item@);
        }
        at = at + 1;
    }
    proof {
        if at < sorted.len() {
            assert(before(item@, start[at as int]));
            assert forall|k: int| at <= k < start.len() implies not_after(
                item@,
                #[trigger] start[k],
            ) by {
                if k > at {
                    assert(not_after(start[at as int], start[k]));
                    lemma_before_is_total_order(item@, start[at as int], start[k]);
                }
            }
        }
    }
    let ghost placed = item@;
    sorted.insert(at, item);
    proof {
        let after = texts(sorted@);
        assert(after =~= start.insert(at as int, placed));
        to_multiset_insert(start, at as int, placed);
        assert forall|i: int, j: int| 0 <= i < j < after.len() implies not_after(
            #[trigger] after[i],
            #[trigger] after[j],
        ) by {
            if j < at {
                assert(after[i] == start[i] && after[j] == start[j]);
            } else if j == at {
                assert(after[i] == start[i]);
            } else if i < at {
                assert(after[i] == start[i] && after[j] == start[j - 1]);
            } else if i == at {
                assert(after[j] == start[j - 1]);
            } else {
                assert(after[i] == start[i - 1] && after[j] == start[j - 1]);
            }
        }
    }
}

/// Sorts texts: the same texts, each as often as before, in order.
pub fn sort_texts(items: Vec<String>) -> (sorted: Vec<String>)
    ensures
        texts(sorted@) == in_order(texts(items@)),
        ordered(texts(sorted@)),
        texts(sorted@).to_multiset() == texts(items@).to_multiset(),
{
    let mut sorted: Vec<String> = Vec::new();
    let mut items = items;
    let ghost all = texts(items@);
    let ghost mut taken: Seq<Seq<char>> = Seq::empty();
    assert(texts(sorted@) =~= Seq::<Seq<char>>::empty());
    while items.len() > 0
        invariant
            ordered(texts(sorted@)),
            texts(sorted@).to_multiset() == taken.to_multiset(),
            all == texts(items@) + taken.reverse(),
        decreases items.len(),
    {
        let ghost before_items = texts(items@);
        let item = items.pop().unwrap();
        proof {
            assert(texts(items@) =~= before_items.drop_last());
            assert(before_items =~= texts(items@).push(item@));
            to_multiset_build(taken, item@);
            assert(taken.push(item@).reverse() =~= seq![item@] + taken.reverse());
            assert(all =~= texts(items@) + taken.push(item@).reverse());
            taken = taken.push(item@);
        }
        insert_ordered(&mut sorted, item);
    }
    proof {
        assert(texts(items@) =~= Seq::<Seq<char>>::empty());
        assert(all =~= taken.reverse());
        taken.lemma_reverse_to_multiset();
        lemma_in_order(all);
        lemma_ordered_unique(texts(sorted@), in_order(all));
    }
    sorted
}

/// There is one way only to put given texts in order.
pub proof fn lemma_ordered_unique(x: Seq<Seq<char>>, y: Seq<Seq<char>>)
    requires
        ordered(x),
        ordered(y),
        x.to_multiset() == y.to_multiset(),
    ensures
        x == y,
    decreases x.len(),
{
    to_multiset_len(x);
    to_multiset_len(y);
    assert(x.len() == y.len());
    if x.len() > 0 {
        let a = x.first();
        let b = y.first();
        assert(x.contains(a));
        assert(y.contains(b));
        to_multiset_contains(x, a);
        to_multiset_contains(y, a);
        to_multiset_contains(x, b);
        to_multiset_contains(y, b);
        assert(y.contains(a));
        assert(x.contains(b));
        let i = choose|i: int| 0 <= i < y.len() && y[i] == a;
        let j = choose|j: int| 0 <= j < x.len() && x[j] == b;
        assert(not_after(y[0], y[i]) || i == 0);
        assert(not_after(x[0], x[j]) || j == 0);
        lemma_before_is_total_order(a, b, a);
        assert(a == b);
        assert(x.drop_first() =~= x.remove(0));
        assert(y.drop_first() =~= y.remove(0));
        to_multiset_remove(x, 0);
        to_multiset_remove(y, 0);
        lemma_ordered_unique(x.drop_first(), y.drop_first());
        assert(x =~= seq![a] + x.drop_first());
        assert(y =~= seq![b] + y.drop_first());
    } else {
        assert(x =~= y);
    }
}

/// The order of texts is a total order.
pub proof fn lemma_text_order_total()
    ensures
        total_ordering(text_order()),
{
    let r = text_order();
    assert forall|x: Seq<char>, y: Seq<char>| #[trigger] r(x, y) && #[trigger] r(y, x) implies x
        == y by {
        lemma_before_is_total_order(x, y, x);
    }
    assert forall|x: Seq<char>, y: Seq<char>, z: Seq<char>| #[trigger] r(x, y) && #[trigger] r(
        y,
        z,
    ) implies r(x, z) by {
        lemma_before_is_total_order(x, y, z);
    }
    assert forall|x: Seq<char>, y: Seq<char>| #[trigger] r(x, y) || #[trigger] r(y, x) by {
        lemma_before_is_total_order(x, y, x);
    }
}

/// Putting texts in order keeps each text as often as it was there, and
/// puts them in order.
pub proof fn lemma_in_order(s: Seq<Seq<char>>)
    ensures
        ordered(in_order(s)),
        in_order(s).to_multiset() == s.to_multiset(),
        forall|x: Seq<char>| s.contains(x) <==> in_order(s).contains(x),
{
    lemma_text_order_total();
    s.lemma_sort_by_ensures(text_order());
    let sorted = in_order(s);
    assert forall|i: int, j: int| 0 <= i < j < sorted.len() implies not_after(
        #[trigger] sorted[i],
        #[trigger] sorted[j],
    ) by {
        assert(text_order()(sorted[i], sorted[j]));
    }
    assert forall|x: Seq<char>| s.contains(x) <==> sorted.contains(x) by {
        to_multiset_contains(s, x);
        to_multiset_contains(sorted, x);
    }
}

} // verus!
