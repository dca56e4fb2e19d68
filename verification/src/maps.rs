//! Maps from texts to values, walked in the order of their keys.

use vstd::prelude::*;
use crate::order::{
    is_text_before, lemma_text_irreflexive, lemma_text_transitive, lemma_text_trichotomy, text_before,
};
use crate::text::{str_eq, view_opt};

verus! {

/// The value kept under a key: the first that has it.
pub open spec fn find<V>(pairs: Seq<(Seq<char>, V)>, key: Seq<char>) -> Option<V>
    decreases pairs.len(),
{
    if pairs.len() == 0 {
        None
    } else if pairs[0].0 == key {
        Some(pairs[0].1)
    } else {
        find(pairs.drop_first(), key)
    }
}

/// The pairs with a value put under a key: in place of the value there, or at the key's place in
/// the order.
pub open spec fn put<V>(pairs: Seq<(Seq<char>, V)>, key: Seq<char>, value: V) -> Seq<(Seq<char>, V)>
    decreases pairs.len(),
{
    if pairs.len() == 0 {
        seq![(key, value)]
    } else if pairs[0].0 == key {
        seq![(key, value)] + pairs.drop_first()
    } else if text_before(key, pairs[0].0) {
        seq![(key, value)] + pairs
    } else {
        seq![pairs[0]] + put(pairs.drop_first(), key, value)
    }
}

/// Whether each key comes before the keys behind it.
pub open spec fn ordered<V>(pairs: Seq<(Seq<char>, V)>) -> bool {
    forall|i: int, j: int|
        0 <= i < j < pairs.len() ==> text_before(
            (#[trigger] pairs[i]).0,
            (#[trigger] pairs[j]).0,
        )
}

/// Putting keeps the order, and every key but the one keeps its value.
pub proof fn lemma_put<V>(pairs: Seq<(Seq<char>, V)>, key: Seq<char>, value: V)
    requires
        ordered(pairs),
    ensures
        ordered(put(pairs, key, value)),
        forall|k: Seq<char>| #[trigger]
            find(put(pairs, key, value), k) == (if k == key {
                Some(value)
            } else {
                find(pairs, k)
            }),
        forall|i: int|
            0 <= i < put(pairs, key, value).len() ==> (#[trigger] put(pairs, key, value)[i]).0
                == key || exists|j: int|
                0 <= j < pairs.len() && (#[trigger] pairs[j]).0 == put(pairs, key, value)[i].0,
    decreases pairs.len(),
{
    let out = put(pairs, key, value);
    if pairs.len() == 0 {
        assert(out.drop_first() =~= pairs);
    } else {
        let rest = pairs.drop_first();
        assert(ordered(rest)) by {
            assert forall|i: int, j: int| 0 <= i < j < rest.len() implies text_before(
                (#[trigger] rest[i]).0,
                (#[trigger] rest[j]).0,
            ) by {
                assert(pairs[i + 1] == rest[i] && pairs[j + 1] == rest[j]);
            }
        }
        if pairs[0].0 == key {
            assert(out.drop_first() =~= rest);
            assert forall|i: int, j: int| 0 <= i < j < out.len() implies text_before(
                (#[trigger] out[i]).0,
                (#[trigger] out[j]).0,
            ) by {
                assert(pairs[i].0 == out[i].0 && pairs[j].0 == out[j].0);
            }
            assert forall|i: int| 0 <= i < out.len() implies (#[trigger] out[i]).0 == key || exists|
                j: int,
            |
                0 <= j < pairs.len() && (#[trigger] pairs[j]).0 == out[i].0 by {
                assert(pairs[i].0 == out[i].0);
            }
        } else if text_before(key, pairs[0].0) {
            assert(out.drop_first() =~= pairs);
            assert forall|i: int, j: int| 0 <= i < j < out.len() implies text_before(
                (#[trigger] out[i]).0,
                (#[trigger] out[j]).0,
            ) by {
                assert(out[j] == pairs[j - 1]);
                if i > 0 {
                    assert(out[i] == pairs[i - 1]);
                } else if j > 1 {
                    assert(text_before(pairs[0].0, pairs[j - 1].0));
                    lemma_text_transitive(key, pairs[0].0, pairs[j - 1].0);
                }
            }
            assert forall|i: int| 0 <= i < out.len() implies (#[trigger] out[i]).0 == key || exists|
                j: int,
            |
                0 <= j < pairs.len() && (#[trigger] pairs[j]).0 == out[i].0 by {
                if i > 0 {
                    assert(pairs[i - 1].0 == out[i].0);
                }
            }
        } else {
            let tail = put(rest, key, value);
            lemma_put(rest, key, value);
            assert(out.drop_first() =~= tail);
            lemma_text_trichotomy(key, pairs[0].0);
            assert forall|i: int, j: int| 0 <= i < j < out.len() implies text_before(
                (#[trigger] out[i]).0,
                (#[trigger] out[j]).0,
            ) by {
                assert(out[j] == tail[j - 1]);
                if i > 0 {
                    assert(out[i] == tail[i - 1]);
                } else if tail[j - 1].0 != key {
                    let k = choose|k: int|
                        0 <= k < rest.len() && (#[trigger] rest[k]).0 == tail[j - 1].0;
                    assert(pairs[k + 1] == rest[k]);
                }
            }
            assert forall|i: int| 0 <= i < out.len() implies (#[trigger] out[i]).0 == key || exists|
                j: int,
            |
                0 <= j < pairs.len() && (#[trigger] pairs[j]).0 == out[i].0 by {
                if i == 0 {
                    assert(pairs[0].0 == out[0].0);
                } else {
                    assert(out[i] == tail[i - 1]);
                    if tail[i - 1].0 != key {
                        let k = choose|k: int|
                            0 <= k < rest.len() && (#[trigger] rest[k]).0 == tail[i - 1].0;
                        assert(pairs[k + 1].0 == out[i].0);
                    }
                }
            }
            assert forall|k: Seq<char>| #[trigger] find(out, k) == (if k == key {
                Some(value)
            } else {
                find(pairs, k)
            }) by {
                assert(find(tail, k) == find(tail, k));
            }
        }
    }
}

/// A map from texts to values.
#[derive(Debug, PartialEq, Eq)]
pub struct StringMap<V> {
    entries: Vec<(String, V)>,
}

/// The pairs of some entries, the keys by their views.
pub open spec fn pairs_of<V>(entries: Seq<(String, V)>) -> Seq<(Seq<char>, V)> {
    entries.map_values(|entry: (String, V)| (entry.0@, entry.1))
}

impl<V> StringMap<V> {
    #[verifier::type_invariant]
    spec fn keys_in_order(self) -> bool {
        ordered(pairs_of(self.entries@))
    }

    /// The pairs of the map in the order of their keys.
    pub closed spec fn pairs(self) -> Seq<(Seq<char>, V)> {
        pairs_of(self.entries@)
    }

    /// A map without entries.
    pub fn new() -> (r: StringMap<V>)
        ensures
            r.pairs() == Seq::<(Seq<char>, V)>::empty(),
    {
        let entries: Vec<(String, V)> = Vec::new();
        assert(pairs_of(entries@) =~= Seq::<(Seq<char>, V)>::empty());
        StringMap { entries }
    }

    /// How many entries the map has.
    pub fn len(&self) -> (r: usize)
        ensures
            r == self.pairs().len(),
            ordered(self.pairs()),
    {
        proof {
            use_type_invariant(self);
        }
        self.entries.len()
    }

    /// Whether the map has no entries.
    pub fn is_empty(&self) -> (r: bool)
        ensures
            r == (self.pairs().len() == 0),
    {
        self.entries.len() == 0
    }

    /// The key at a position in the order.
    pub fn key_at(&self, i: usize) -> (r: &str)
        requires
            i < self.pairs().len(),
        ensures
            r@ == self.pairs()[i as int].0,
    {
        self.entries[i].0.as_str()
    }

    /// The value at a position in the order.
    pub fn value_at(&self, i: usize) -> (r: &V)
        requires
            i < self.pairs().len(),
        ensures
            *r == self.pairs()[i as int].1,
    {
        &self.entries[i].1
    }

    /// The value kept under a key.
    pub fn get(&self, key: &str) -> (r: Option<&V>)
        ensures
            r matches Some(value) ==> find(self.pairs(), key@) == Some(*value),
            r is None ==> find(self.pairs(), key@) is None,
    {
        let ghost all = self.pairs();
        let mut i: usize = 0;
        assert(all.skip(0) =~= all);
        while i < self.entries.len()
            invariant
                i <= self.entries@.len(),
                all == pairs_of(self.entries@),
                find(all, key@) == find(all.skip(i as int), key@),
            decreases self.entries@.len() - i,
        {
            assert(all.skip(i as int)[0] == all[i as int]);
            if str_eq(self.entries[i].0.as_str(), key) {
                return Some(&self.entries[i].1);
            }
            assert(all.skip(i as int).drop_first() =~= all.skip(i + 1));
            i += 1;
        }
        None
    }

    /// Whether a value is kept under a key.
    pub fn contains_key(&self, key: &str) -> (r: bool)
        ensures
            r == (find(self.pairs(), key@) is Some),
    {
        self.get(key).is_some()
    }

    /// Puts a value under a key.
    pub fn insert(&mut self, key: String, value: V)
        ensures
            final(self).pairs() == put(old(self).pairs(), key@, value),
    {
        proof {
            use_type_invariant(&*self);
        }
        let mut entries: Vec<(String, V)> = Vec::new();
        assert(pairs_of(entries@) =~= Seq::<(Seq<char>, V)>::empty());
        std::mem::swap(&mut entries, &mut self.entries);
        let ghost all = pairs_of(entries@);
        proof {
            lemma_put(all, key@, value);
        }
        let mut i: usize = 0;
        assert(all.skip(0) =~= all);
        assert(put(all, key@, value) =~= all.take(0) + put(all.skip(0), key@, value));
        while i < entries.len() && is_text_before(entries[i].0.as_str(), key.as_str())
            invariant
                i <= entries@.len(),
                all == pairs_of(entries@),
                put(all, key@, value) == all.take(i as int) + put(all.skip(i as int), key@, value),
            decreases entries@.len() - i,
        {
            proof {
                let rest = all.skip(i as int);
                assert(rest[0] == all[i as int]);
                lemma_text_trichotomy(rest[0].0, key@);
                assert(rest.drop_first() =~= all.skip(i + 1));
                assert(put(rest, key@, value) == seq![rest[0]] + put(all.skip(i + 1), key@, value));
                assert(all.take(i as int) + (seq![rest[0]] + put(all.skip(i + 1), key@, value))
                    =~= all.take(i + 1) + put(all.skip(i + 1), key@, value));
            }
            i += 1;
        }
        let ghost rest = all.skip(i as int);
        if i < entries.len() && str_eq(entries[i].0.as_str(), key.as_str()) {
            let _old = entries.remove(i);
            entries.insert(i, (key, value));
            proof {
                assert(rest[0] == all[i as int]);
                assert(pairs_of(entries@) =~= all.take(i as int) + (seq![(key@, value)]
                    + rest.drop_first()));
            }
        } else {
            proof {
                if i < all.len() {
                    assert(rest[0] == all[i as int]);
                    lemma_text_trichotomy(rest[0].0, key@);
                    assert(text_before(key@, rest[0].0));
                    assert(put(rest, key@, value) == seq![(key@, value)] + rest);
                } else {
                    assert(rest =~= Seq::<(Seq<char>, V)>::empty());
                    assert(put(rest, key@, value) == seq![(key@, value)] + rest);
                }
            }
            entries.insert(i, (key, value));
            assert(pairs_of(entries@) =~= all.take(i as int) + (seq![(key@, value)] + rest));
        }
        self.entries = entries;
    }
}

impl Clone for StringMap<String> {
    fn clone(&self) -> (r: StringMap<String>)
        ensures
            r.pairs() == self.pairs(),
    {
        proof {
            use_type_invariant(self);
        }
        let mut entries: Vec<(String, String)> = Vec::new();
        let mut i: usize = 0;
        while i < self.entries.len()
            invariant
                i <= self.entries@.len(),
                entries@.len() == i,
                forall|j: int|
                    0 <= j < i ==> (#[trigger] entries@[j]).0@ == self.entries@[j].0@
                        && entries@[j].1 == self.entries@[j].1,
            decreases self.entries@.len() - i,
        {
            entries.push((self.entries[i].0.clone(), self.entries[i].1.clone()));
            i += 1;
        }
        assert(pairs_of(entries@) =~= pairs_of(self.entries@));
        StringMap { entries }
    }
}

/// Where a key stands among pairs in the order of their keys, or would stand.
pub open spec fn placed<V>(pairs: Seq<(Seq<char>, V)>, key: Seq<char>) -> int
    decreases pairs.len(),
{
    if pairs.len() == 0 || pairs[0].0 == key || text_before(key, pairs[0].0) {
        0
    } else {
        1 + placed(pairs.drop_first(), key)
    }
}

/// Whether a key stands at its place.
pub open spec fn holds<V>(pairs: Seq<(Seq<char>, V)>, key: Seq<char>) -> bool {
    placed(pairs, key) < pairs.len() && pairs[placed(pairs, key)].0 == key
}

/// A key's place is within the pairs, and depends on the keys alone.
pub proof fn lemma_placed<V, W>(pairs: Seq<(Seq<char>, V)>, others: Seq<(Seq<char>, W)>, key: Seq<char>)
    requires
        pairs.len() == others.len(),
        forall|i: int| 0 <= i < pairs.len() ==> (#[trigger] pairs[i]).0 == others[i].0,
    ensures
        0 <= placed(pairs, key) <= pairs.len(),
        placed(pairs, key) == placed(others, key),
        holds(pairs, key) == holds(others, key),
    decreases pairs.len(),
{
    if pairs.len() > 0 {
        let rest = pairs.drop_first();
        let other_rest = others.drop_first();
        assert(pairs[0].0 == others[0].0);
        assert forall|i: int| 0 <= i < rest.len() implies (#[trigger] rest[i]).0 == other_rest[i].0 by {
            assert(pairs[i + 1].0 == others[i + 1].0);
        }
        lemma_placed(rest, other_rest, key);
        if pairs[0].0 != key && !text_before(key, pairs[0].0) {
            if placed(rest, key) < rest.len() {
                let at = placed(rest, key);
                assert(pairs[at + 1] == rest[at]);
                assert(others[at + 1] == other_rest[at]);
            }
        }
    }
}

/// Takes the value of a key out of entries in the order of their keys, and says where the key
/// stands or would stand.
pub fn take_value<V>(entries: &mut Vec<(String, V)>, key: &str) -> (r: (usize, Option<V>))
    ensures
        r.0 == placed(pairs_of(old(entries)@), key@),
        r.0 <= final(entries)@.len(),
        r.1 is Some <==> holds(pairs_of(old(entries)@), key@),
        r.1 matches Some(value) ==> value == old(entries)@[r.0 as int].1 && final(entries)@ == old(
            entries,
        )@.remove(r.0 as int),
        r.1 is None ==> final(entries)@ == old(entries)@,
{
    let ghost all = pairs_of(entries@);
    let mut i: usize = 0;
    assert(all.skip(0) =~= all);
    while i < entries.len() && !str_eq(entries[i].0.as_str(), key) && !is_text_before(
        key,
        entries[i].0.as_str(),
    )
        invariant
            i <= entries@.len(),
            entries@ == old(entries)@,
            all == pairs_of(entries@),
            placed(all, key@) == i + placed(all.skip(i as int), key@),
        decreases entries@.len() - i,
    {
        assert(all.skip(i as int)[0] == all[i as int]);
        assert(all.skip(i as int).drop_first() =~= all.skip(i + 1));
        i += 1;
    }
    if i < entries.len() {
        assert(all.skip(i as int)[0] == all[i as int]);
    }
    assert(placed(all, key@) == i);
    if i < entries.len() && str_eq(entries[i].0.as_str(), key) {
        let (_, value) = entries.remove(i);
        (i, Some(value))
    } else {
        (i, None)
    }
}

/// The pairs with the views of their values.
pub open spec fn value_views<V: View>(pairs: Seq<(Seq<char>, V)>) -> Seq<(Seq<char>, V::V)> {
    pairs.map_values(|pair: (Seq<char>, V)| (pair.0, pair.1@))
}

/// Putting and finding can be exchanged with viewing.
pub proof fn lemma_value_views<V: View>(pairs: Seq<(Seq<char>, V)>, key: Seq<char>, value: V)
    ensures
        value_views(put(pairs, key, value)) == put(value_views(pairs), key, value@),
        find(value_views(pairs), key) == view_opt(find(pairs, key)),
    decreases pairs.len(),
{
    let shown = value_views(pairs);
    if pairs.len() == 0 {
        assert(value_views(put(pairs, key, value)) =~= put(shown, key, value@));
    } else {
        assert(shown[0].0 == pairs[0].0);
        assert(shown.drop_first() =~= value_views(pairs.drop_first()));
        lemma_value_views(pairs.drop_first(), key, value);
        assert(value_views(put(pairs, key, value)) =~= put(shown, key, value@));
    }
}

/// A key behind all others is put last.
pub proof fn lemma_put_last<V>(pairs: Seq<(Seq<char>, V)>, key: Seq<char>, value: V)
    requires
        forall|i: int| 0 <= i < pairs.len() ==> text_before((#[trigger] pairs[i]).0, key),
    ensures
        put(pairs, key, value) == pairs.push((key, value)),
    decreases pairs.len(),
{
    if pairs.len() == 0 {
        assert(put(pairs, key, value) =~= pairs.push((key, value)));
    } else {
        let rest = pairs.drop_first();
        assert(text_before(pairs[0].0, key));
        lemma_text_trichotomy(pairs[0].0, key);
        assert forall|i: int| 0 <= i < rest.len() implies text_before((#[trigger] rest[i]).0, key) by {
            assert(pairs[i + 1] == rest[i]);
        }
        lemma_put_last(rest, key, value);
        assert(put(pairs, key, value) =~= pairs.push((key, value)));
    }
}

impl StringMap<String> {
    /// The pairs of the map, keys and values by their views.
    pub open spec fn texts(self) -> Seq<(Seq<char>, Seq<char>)> {
        value_views(self.pairs())
    }

    /// The text kept under a key.
    pub fn get_text(&self, key: &str) -> (r: Option<&String>)
        ensures
            r matches Some(text) ==> find(self.texts(), key@) == Some(text@),
            r is None ==> find(self.texts(), key@) is None,
    {
        let r = self.get(key);
        proof {
            lemma_value_views(self.pairs(), key@, arbitrary());
        }
        r
    }

    /// Puts a text under a key.
    pub fn insert_text(&mut self, key: String, value: String)
        ensures
            final(self).texts() == put(old(self).texts(), key@, value@),
    {
        proof {
            lemma_value_views(self.pairs(), key@, value);
        }
        self.insert(key, value);
    }
}

/// The pairs with a value set for a key: in place of the one there, or at the key's place.
pub open spec fn with_value<V>(pairs: Seq<(Seq<char>, V)>, key: Seq<char>, value: V) -> Seq<
    (Seq<char>, V),
> {
    if holds(pairs, key) {
        pairs.update(placed(pairs, key), (key, value))
    } else {
        pairs.insert(placed(pairs, key), (key, value))
    }
}

/// The value that stands at a key's place.
pub open spec fn value_of<V>(pairs: Seq<(Seq<char>, V)>, key: Seq<char>) -> Option<V> {
    if holds(pairs, key) {
        Some(pairs[placed(pairs, key)].1)
    } else {
        None
    }
}

/// Setting a value is putting it, and among keys in order the value at a key's place is the one
/// that is found.
pub proof fn lemma_with_value<V>(pairs: Seq<(Seq<char>, V)>, key: Seq<char>, value: V)
    ensures
        0 <= placed(pairs, key) <= pairs.len(),
        with_value(pairs, key, value) == put(pairs, key, value),
        ordered(pairs) ==> value_of(pairs, key) == find(pairs, key),
    decreases pairs.len(),
{
    if pairs.len() == 0 {
        assert(with_value(pairs, key, value) =~= put(pairs, key, value));
    } else {
        let rest = pairs.drop_first();
        lemma_with_value(rest, key, value);
        if pairs[0].0 == key {
            assert(with_value(pairs, key, value) =~= put(pairs, key, value));
        } else if text_before(key, pairs[0].0) {
            assert(with_value(pairs, key, value) =~= put(pairs, key, value));
            if ordered(pairs) {
                lemma_text_trichotomy(key, pairs[0].0);
                lemma_absent(pairs, key);
            }
        } else {
            let at = placed(rest, key);
            assert(placed(pairs, key) == at + 1);
            if at < rest.len() {
                assert(pairs[at + 1] == rest[at]);
            }
            assert(with_value(pairs, key, value) =~= seq![pairs[0]] + with_value(rest, key, value));
            if ordered(pairs) {
                assert(ordered(rest)) by {
                    assert forall|i: int, j: int| 0 <= i < j < rest.len() implies text_before(
                        (#[trigger] rest[i]).0,
                        (#[trigger] rest[j]).0,
                    ) by {
                        assert(pairs[i + 1] == rest[i] && pairs[j + 1] == rest[j]);
                    }
                }
            }
        }
    }
}

/// A key before the first of an order is not there.
proof fn lemma_absent<V>(pairs: Seq<(Seq<char>, V)>, key: Seq<char>)
    requires
        ordered(pairs),
        pairs.len() > 0,
        text_before(key, pairs[0].0),
    ensures
        find(pairs, key) is None,
    decreases pairs.len(),
{
    lemma_text_trichotomy(key, pairs[0].0);
    let rest = pairs.drop_first();
    if rest.len() > 0 {
        assert(ordered(rest)) by {
            assert forall|i: int, j: int| 0 <= i < j < rest.len() implies text_before(
                (#[trigger] rest[i]).0,
                (#[trigger] rest[j]).0,
            ) by {
                assert(pairs[i + 1] == rest[i] && pairs[j + 1] == rest[j]);
            }
        }
        assert(pairs[1] == rest[0]);
        assert(text_before(pairs[0].0, pairs[1].0));
        lemma_text_transitive(key, pairs[0].0, rest[0].0);
        lemma_absent(rest, key);
    } else {
        assert(find(rest, key) is None);
    }
}

/// What is found is there, under its key.
pub proof fn lemma_found<V>(pairs: Seq<(Seq<char>, V)>, key: Seq<char>)
    ensures
        find(pairs, key) matches Some(value) ==> exists|i: int|
            0 <= i < pairs.len() && (#[trigger] pairs[i]).0 == key && pairs[i].1 == value,
    decreases pairs.len(),
{
    if pairs.len() > 0 {
        if pairs[0].0 == key {
            assert(pairs[0].1 == find(pairs, key)->0);
        } else {
            let rest = pairs.drop_first();
            lemma_found(rest, key);
            if find(rest, key) is Some {
                let i = choose|i: int|
                    0 <= i < rest.len() && (#[trigger] rest[i]).0 == key && rest[i].1 == find(
                        rest,
                        key,
                    )->0;
                assert(pairs[i + 1] == rest[i]);
            }
        }
    }
}

/// Where no key occurs twice, what stands under a key is found.
pub proof fn lemma_find_at<V>(pairs: Seq<(Seq<char>, V)>, i: int)
    requires
        ordered(pairs),
        0 <= i < pairs.len(),
    ensures
        find(pairs, pairs[i].0) == Some(pairs[i].1),
    decreases pairs.len(),
{
    if i > 0 {
        let rest = pairs.drop_first();
        assert(text_before(pairs[0].0, pairs[i].0));
        lemma_text_irreflexive(pairs[i].0);
        assert forall|a: int, b: int| 0 <= a < b < rest.len() implies text_before(
            (#[trigger] rest[a]).0,
            (#[trigger] rest[b]).0,
        ) by {
            assert(rest[a] == pairs[a + 1] && rest[b] == pairs[b + 1]);
        }
        assert(rest[i - 1] == pairs[i]);
        lemma_find_at(rest, i - 1);
    }
}

/// Pairs with the same keys stand in the same order.
pub proof fn lemma_same_keys<V, W>(pairs: Seq<(Seq<char>, V)>, others: Seq<(Seq<char>, W)>)
    requires
        ordered(pairs),
        others.len() == pairs.len(),
        forall|i: int| 0 <= i < pairs.len() ==> (#[trigger] others[i]).0 == pairs[i].0,
    ensures
        ordered(others),
{
    assert forall|i: int, j: int| 0 <= i < j < others.len() implies text_before(
        (#[trigger] others[i]).0,
        (#[trigger] others[j]).0,
    ) by {
        assert(text_before(pairs[i].0, pairs[j].0));
    }
}

/// What stands last under a key among some pairs.
pub open spec fn last_under<V>(pairs: Seq<(Seq<char>, V)>, key: Seq<char>) -> Option<V>
    decreases pairs.len(),
{
    if pairs.len() == 0 {
        None
    } else if pairs.last().0 == key {
        Some(pairs.last().1)
    } else {
        last_under(pairs.drop_last(), key)
    }
}

} // verus!
