//! Orders: the lexicographic order of texts, and stable sorting by an order.

use vstd::prelude::*;
use crate::text::chars_of;

verus! {

/// Whether `a` comes strictly before `b` character by character.
///
/// Characters are ordered by code point, which is also the order of the UTF-8 bytes.
pub open spec fn text_before(a: Seq<char>, b: Seq<char>) -> bool
    decreases a.len(),
{
    if b.len() == 0 {
        false
    } else if a.len() == 0 {
        true
    } else if a[0] != b[0] {
        a[0] < b[0]
    } else {
        text_before(a.drop_first(), b.drop_first())
    }
}

/// No text comes before itself.
pub proof fn lemma_text_irreflexive(a: Seq<char>)
    ensures
        !text_before(a, a),
    decreases a.len(),
{
    if a.len() > 0 {
        lemma_text_irreflexive(a.drop_first());
    }
}

/// Of two different texts one comes before the other, and only one.
pub proof fn lemma_text_trichotomy(a: Seq<char>, b: Seq<char>)
    ensures
        a != b <==> text_before(a, b) || text_before(b, a),
        !(text_before(a, b) && text_before(b, a)),
    decreases a.len(),
{
    lemma_text_irreflexive(a);
    if a.len() == 0 || b.len() == 0 {
        if a.len() == 0 && b.len() == 0 {
            assert(a == b);
        }
    } else if a[0] == b[0] {
        lemma_text_trichotomy(a.drop_first(), b.drop_first());
        if a.drop_first() == b.drop_first() {
            assert(a == seq![a[0]] + a.drop_first());
            assert(b == seq![b[0]] + b.drop_first());
        }
    }
}

/// The order of texts is transitive.
pub proof fn lemma_text_transitive(a: Seq<char>, b: Seq<char>, c: Seq<char>)
    requires
        text_before(a, b),
        text_before(b, c),
    ensures
        text_before(a, c),
    decreases a.len(),
{
    if a.len() > 0 && a[0] == b[0] && b[0] == c[0] {
        lemma_text_transitive(a.drop_first(), b.drop_first(), c.drop_first());
    }
}

/// Of three texts the order holds between any two, and carries over the one in the middle.
pub proof fn lemma_texts_ordered(a: Seq<char>, b: Seq<char>, c: Seq<char>)
    ensures
        a != b <==> text_before(a, b) || text_before(b, a),
        b != c <==> text_before(b, c) || text_before(c, b),
        a != c <==> text_before(a, c) || text_before(c, a),
        !(text_before(a, b) && text_before(b, a)),
        !(text_before(b, c) && text_before(c, b)),
        !(text_before(a, c) && text_before(c, a)),
        !text_before(a, b) && !text_before(b, c) ==> !text_before(a, c),
{
    lemma_text_trichotomy(a, b);
    lemma_text_trichotomy(b, c);
    lemma_text_trichotomy(a, c);
    if text_before(c, b) && text_before(b, a) {
        lemma_text_transitive(c, b, a);
    }
}

/// Whether the first text comes strictly before the second.
pub fn is_text_before(a: &str, b: &str) -> (r: bool)
    ensures
        r == text_before(a@, b@),
{
    let left = chars_of(a);
    let right = chars_of(b);
    let mut i: usize = 0;
    assert(a@.skip(0) == a@);
    assert(b@.skip(0) == b@);
    while i < left.len() && i < right.len() && left[i] == right[i]
        invariant
            left@ == a@,
            right@ == b@,
            i <= a@.len(),
            i <= b@.len(),
            text_before(a@, b@) == text_before(a@.skip(i as int), b@.skip(i as int)),
        decreases a@.len() - i,
    {
        assert(a@.skip(i as int).drop_first() == a@.skip(i + 1));
        assert(b@.skip(i as int).drop_first() == b@.skip(i + 1));
        i += 1;
    }
    if i >= right.len() {
        false
    } else if i >= left.len() {
        true
    } else {
        left[i] < right[i]
    }
}

/// `x` put into `items` behind the last item that it does not come before.
pub open spec fn inserted<A>(items: Seq<A>, x: A, less: spec_fn(A, A) -> bool) -> Seq<A>
    decreases items.len(),
{
    if items.len() == 0 || !less(x, items.last()) {
        items.push(x)
    } else {
        inserted(items.drop_last(), x, less).push(items.last())
    }
}

/// The items in the order of `less`; items that neither comes before keep their places.
pub open spec fn sorted_by<A>(items: Seq<A>, less: spec_fn(A, A) -> bool) -> Seq<A>
    decreases items.len(),
{
    if items.len() == 0 {
        items
    } else {
        inserted(sorted_by(items.drop_last(), less), items.last(), less)
    }
}

/// The order in which items come as their mathematical values do.
pub open spec fn viewed<T: View>(less: spec_fn(T::V, T::V) -> bool) -> spec_fn(T, T) -> bool {
    |x: T, y: T| less(x@, y@)
}

/// Whether no later item comes before an earlier one.
pub open spec fn in_order<A>(items: Seq<A>, less: spec_fn(A, A) -> bool) -> bool {
    forall|i: int, j: int|
        0 <= i < j < items.len() ==> !less(#[trigger] items[j], #[trigger] items[i])
}

/// Whether `less` is a strict order in which items that tie may be exchanged.
pub open spec fn strict_weak_order<A>(less: spec_fn(A, A) -> bool) -> bool {
    &&& forall|x: A, y: A| #[trigger] less(x, y) ==> !less(y, x)
    &&& forall|x: A, y: A, z: A|
        #![trigger less(x, y), less(y, z)]
        !less(x, y) && !less(y, z) ==> !less(x, z)
}

/// Inserting adds exactly the one item.
pub proof fn lemma_inserted<A>(items: Seq<A>, x: A, less: spec_fn(A, A) -> bool)
    ensures
        inserted(items, x, less).len() == items.len() + 1,
        inserted(items, x, less).to_multiset() == items.to_multiset().insert(x),
    decreases items.len(),
{
    broadcast use vstd::seq_lib::group_to_multiset_ensures;
    if items.len() == 0 || !less(x, items.last()) {
    } else {
        lemma_inserted(items.drop_last(), x, less);
        assert(items == items.drop_last().push(items.last()));
        assert(items.to_multiset().insert(x) =~= items.drop_last().to_multiset().insert(x).insert(
            items.last(),
        ));
    }
}

/// Inserting keeps an ordered sequence ordered.
pub proof fn lemma_inserted_in_order<A>(items: Seq<A>, x: A, less: spec_fn(A, A) -> bool)
    requires
        strict_weak_order(less),
        in_order(items, less),
    ensures
        in_order(inserted(items, x, less), less),
        forall|y: A| inserted(items, x, less).contains(y) ==> y == x || items.contains(y),
    decreases items.len(),
{
    let out = inserted(items, x, less);
    if items.len() == 0 || !less(x, items.last()) {
        assert forall|i: int, j: int| 0 <= i < j < out.len() implies !less(
            #[trigger] out[j],
            #[trigger] out[i],
        ) by {
            if j == items.len() && i < items.len() - 1 {
                assert(!less(items.last(), items[i]));
                assert(!less(x, items.last()));
            }
        }
        assert forall|y: A| out.contains(y) implies y == x || items.contains(y) by {
            let i = choose|i: int| 0 <= i < out.len() && out[i] == y;
            if i < items.len() {
                assert(items[i] == y);
            }
        }
    } else {
        let rest = items.drop_last();
        let inner = inserted(rest, x, less);
        lemma_inserted(rest, x, less);
        assert(in_order(rest, less)) by {
            assert forall|i: int, j: int| 0 <= i < j < rest.len() implies !less(
                #[trigger] rest[j],
                #[trigger] rest[i],
            ) by {
                assert(items[j] == rest[j] && items[i] == rest[i]);
            }
        }
        lemma_inserted_in_order(rest, x, less);
        assert forall|i: int, j: int| 0 <= i < j < out.len() implies !less(
            #[trigger] out[j],
            #[trigger] out[i],
        ) by {
            if j < inner.len() {
                assert(inner[j] == out[j] && inner[i] == out[i]);
            } else {
                assert(inner[i] == out[i]);
                assert(inner.contains(out[i]));
                assert(less(x, items.last()));
                assert(out[j] == items.last());
                if out[i] != x {
                    assert(rest.contains(out[i]));
                    let k = choose|k: int| 0 <= k < rest.len() && rest[k] == out[i];
                    assert(items[k] == rest[k]);
                    assert(!less(items[items.len() - 1], items[k]));
                }
            }
        }
        assert forall|y: A| out.contains(y) implies y == x || items.contains(y) by {
            let i = choose|i: int| 0 <= i < out.len() && out[i] == y;
            if i < inner.len() {
                assert(inner[i] == y);
                assert(inner.contains(y));
                if y != x {
                    assert(rest.contains(y));
                    let k = choose|k: int| 0 <= k < rest.len() && rest[k] == y;
                    assert(items[k] == rest[k]);
                }
            } else {
                assert(items[items.len() - 1] == y);
            }
        }
    }
}

/// Sorting keeps exactly the items that were there, and puts them in order.
pub proof fn lemma_sorted_by<A>(items: Seq<A>, less: spec_fn(A, A) -> bool)
    ensures
        sorted_by(items, less).len() == items.len(),
        sorted_by(items, less).to_multiset() == items.to_multiset(),
        strict_weak_order(less) ==> in_order(sorted_by(items, less), less),
    decreases items.len(),
{
    broadcast use vstd::seq_lib::group_to_multiset_ensures;
    if items.len() > 0 {
        lemma_sorted_by(items.drop_last(), less);
        lemma_inserted(sorted_by(items.drop_last(), less), items.last(), less);
        assert(items == items.drop_last().push(items.last()));
        if strict_weak_order(less) {
            lemma_inserted_in_order(sorted_by(items.drop_last(), less), items.last(), less);
        }
    }
}

/// An image under a function that keeps the order is sorted like what it is the image of.
pub proof fn lemma_sorted_map<A, B>(
    items: Seq<A>,
    f: spec_fn(A) -> B,
    less: spec_fn(A, A) -> bool,
    image: spec_fn(B, B) -> bool,
)
    requires
        forall|x: A, y: A| #[trigger] less(x, y) == image(f(x), f(y)),
    ensures
        sorted_by(items.map_values(f), image) == sorted_by(items, less).map_values(f),
    decreases items.len(),
{
    if items.len() > 0 {
        let rest = items.drop_last();
        lemma_sorted_map(rest, f, less, image);
        lemma_inserted_map(sorted_by(rest, less), items.last(), f, less, image);
        assert(items.map_values(f).drop_last() == rest.map_values(f));
    } else {
        assert(items.map_values(f) == Seq::<B>::empty());
        assert(sorted_by(items, less).map_values(f) == Seq::<B>::empty());
    }
}

proof fn lemma_inserted_map<A, B>(
    items: Seq<A>,
    x: A,
    f: spec_fn(A) -> B,
    less: spec_fn(A, A) -> bool,
    image: spec_fn(B, B) -> bool,
)
    requires
        forall|x: A, y: A| #[trigger] less(x, y) == image(f(x), f(y)),
    ensures
        inserted(items.map_values(f), f(x), image) == inserted(items, x, less).map_values(f),
    decreases items.len(),
{
    if items.len() == 0 || !less(x, items.last()) {
        assert(items.push(x).map_values(f) == items.map_values(f).push(f(x)));
        if items.len() > 0 {
            assert(!less(x, items.last()));
            assert(items.map_values(f).last() == f(items.last()));
        }
    } else {
        let rest = items.drop_last();
        assert(less(x, items.last()));
        lemma_inserted_map(rest, x, f, less, image);
        assert(items.map_values(f).drop_last() == rest.map_values(f));
        assert(items.map_values(f).last() == f(items.last()));
        assert(inserted(rest, x, less).push(items.last()).map_values(f) == inserted(
            rest,
            x,
            less,
        ).map_values(f).push(f(items.last())));
    }
}

/// Items with an order of their own.
pub trait Precedes: Sized {
    /// Whether this item comes strictly before the other.
    spec fn before(self, other: Self) -> bool;

    /// Whether this item comes strictly before the other.
    fn is_before(&self, other: &Self) -> (r: bool)
        ensures
            r == self.before(*other),
    ;
}

/// The order of a type that has one.
pub open spec fn precedence<T: Precedes>() -> spec_fn(T, T) -> bool {
    |x: T, y: T| x.before(y)
}

/// Sorts the items by their order; items that neither comes before keep their places.
pub fn stable_sort<T: Precedes>(items: Vec<T>) -> (r: Vec<T>)
    ensures
        r@ == sorted_by(items@, precedence::<T>()),
{
    let ghost all = items@;
    let ghost less = precedence::<T>();
    let mut out: Vec<T> = Vec::new();
    assert(all.take(0) == Seq::<T>::empty());
    for item in it: items
        invariant
            it.seq() == all,
            less == precedence::<T>(),
            out@ == sorted_by(all.take(it.index()), less),
    {
        let mut at: usize = out.len();
        let ghost sorted = out@;
        assert(sorted.take(sorted.len() as int) == sorted);
        assert(inserted(sorted, item, less) == inserted(sorted, item, less) + sorted.skip(
            sorted.len() as int,
        ));
        while at > 0 && item.is_before(&out[at - 1])
            invariant
                at <= out@.len(),
                out@ == sorted,
                less == precedence::<T>(),
                inserted(sorted, item, less) == inserted(sorted.take(at as int), item, less)
                    + sorted.skip(at as int),
            decreases at,
        {
            proof {
                let front = sorted.take(at as int);
                assert(front.last() == sorted[at - 1]);
                assert(front.drop_last() == sorted.take(at - 1));
                assert(less(item, front.last()));
                assert(inserted(front, item, less) == inserted(sorted.take(at - 1), item, less).push(
                    sorted[at - 1],
                ));
                assert(inserted(sorted.take(at - 1), item, less).push(sorted[at - 1]) + sorted.skip(at as int)
                    == inserted(sorted.take(at - 1), item, less) + sorted.skip(at - 1));
            }
            at -= 1;
        }
        proof {
            let front = sorted.take(at as int);
            if at > 0 {
                assert(front.last() == sorted[at - 1]);
                assert(!less(item, front.last()));
            }
            assert(inserted(front, item, less) == front.push(item));
            assert(front.push(item) + sorted.skip(at as int) == sorted.insert(at as int, item));
            let next = all.take(it.index() + 1);
            assert(next.drop_last() == all.take(it.index()));
            assert(next.last() == item);
        }
        out.insert(at, item);
    }
    assert(all.take(all.len() as int) == all);
    out
}

/// What a filter keeps was there.
pub proof fn lemma_filtered_from<A>(items: Seq<A>, ok: spec_fn(A) -> bool, i: int)
    requires
        0 <= i < items.filter(ok).len(),
    ensures
        items.contains(items.filter(ok)[i]),
    decreases items.len(),
{
    reveal(Seq::filter);
    let front = items.drop_last();
    if i < front.filter(ok).len() {
        lemma_filtered_from(front, ok, i);
        let j = choose|j: int| 0 <= j < front.len() && front[j] == front.filter(ok)[i];
        assert(items[j] == items.filter(ok)[i]);
    } else {
        assert(items[items.len() - 1] == items.filter(ok)[i]);
    }
}

/// Whether an item ties with another: neither comes before the other.
pub open spec fn ties_with<A>(less: spec_fn(A, A) -> bool, a: A) -> spec_fn(A) -> bool {
    |x: A| !less(x, a) && !less(a, x)
}

/// Sorting is stable: items that tie keep the order in which they stood.
pub proof fn law_ties_keep_their_order<A>(items: Seq<A>, less: spec_fn(A, A) -> bool, a: A)
    requires
        strict_weak_order(less),
    ensures
        sorted_by(items, less).filter(ties_with(less, a)) == items.filter(ties_with(less, a)),
    decreases items.len(),
{
    reveal(Seq::filter);
    if items.len() > 0 {
        let front = items.drop_last();
        law_ties_keep_their_order(front, less, a);
        lemma_inserted_behind_ties(sorted_by(front, less), items.last(), less, a);
    }
}

proof fn lemma_inserted_behind_ties<A>(items: Seq<A>, x: A, less: spec_fn(A, A) -> bool, a: A)
    requires
        strict_weak_order(less),
    ensures
        inserted(items, x, less).filter(ties_with(less, a)) == (if ties_with(less, a)(x) {
            items.filter(ties_with(less, a)).push(x)
        } else {
            items.filter(ties_with(less, a))
        }),
    decreases items.len(),
{
    reveal(Seq::filter);
    let p = ties_with(less, a);
    if items.len() == 0 || !less(x, items.last()) {
        assert(items.push(x).drop_last() =~= items);
    } else {
        let rest = items.drop_last();
        let inner = inserted(rest, x, less);
        lemma_inserted_behind_ties(rest, x, less, a);
        assert(inner.push(items.last()).drop_last() =~= inner);
        if p(x) && p(items.last()) {
            assert(!less(x, a) && !less(a, items.last()));
        }
    }
}

/// One text comes before another where it is a prefix of it, or where the first character in which
/// they differ comes first.
pub proof fn law_texts_are_ordered_by_their_first_difference(
    common: Seq<char>,
    a: Seq<char>,
    b: Seq<char>,
)
    ensures
        b.len() > 0 ==> text_before(common, common + b),
        !text_before(common + a, common),
        a.len() > 0 && b.len() > 0 && a[0] != b[0] ==> (text_before(common + a, common + b)
            <==> (a[0] as int) < (b[0] as int)),
    decreases common.len(),
{
    if common.len() > 0 {
        let rest = common.drop_first();
        law_texts_are_ordered_by_their_first_difference(rest, a, b);
        assert((common + a).drop_first() =~= rest + a);
        assert((common + b).drop_first() =~= rest + b);
    } else {
        assert(common + a =~= a);
        assert(common + b =~= b);
    }
}

} // verus!
