//! Lists of contacts without repetitions.

use vstd::prelude::*;
use crate::model::{Contact, ContactView};
use crate::text::{str_eq, views};

verus! {

/// The items whose keys do not occur before them, in order.
pub open spec fn first_of_each<A>(items: Seq<A>, keys: Seq<Seq<char>>) -> Seq<A>
    decreases items.len(),
{
    if items.len() == 0 {
        items
    } else {
        let front = first_of_each(items.drop_last(), keys.drop_last());
        if keys.drop_last().contains(keys.last()) {
            front
        } else {
            front.push(items.last())
        }
    }
}

/// The source identifiers of contacts.
pub open spec fn source_ids(contacts: Seq<ContactView>) -> Seq<Seq<char>> {
    contacts.map_values(|contact: ContactView| contact.source_id)
}

/// The contacts whose source identifiers do not occur before them, in order.
pub open spec fn unique_contacts(contacts: Seq<ContactView>) -> Seq<ContactView> {
    first_of_each(contacts, source_ids(contacts))
}

/// Keeps the contacts whose keys do not occur before them.
pub fn keep_first_of_each(contacts: Vec<Contact>, keys: &Vec<String>) -> (r: Vec<Contact>)
    requires
        keys@.len() == contacts@.len(),
    ensures
        views(r@) == first_of_each(views(contacts@), views(keys@)),
        r@.len() <= contacts@.len(),
{
    let ghost all = views(contacts@);
    let ghost names = views(keys@);
    let mut out: Vec<Contact> = Vec::new();
    let n: usize = keys.len();
    let mut i: usize = 0;
    assert(all.take(0) =~= seq![]);
    assert(views(out@) =~= seq![]);
    for contact in it: contacts
        invariant
            it.seq() == contacts@,
            all == views(contacts@),
            names == views(keys@),
            keys@.len() == contacts@.len(),
            n == keys@.len(),
            i == it.index(),
            i <= keys@.len(),
            out@.len() <= i,
            views(out@) == first_of_each(all.take(i as int), names.take(i as int)),
    {
        let mut j: usize = 0;
        let mut seen = false;
        while j < i && !seen
            invariant
                j <= i,
                i < keys@.len(),
                names == views(keys@),
                seen ==> names.take(i as int).contains(names[i as int]),
                !seen ==> forall|k: int| 0 <= k < j ==> names[k] != names[i as int],
            decreases i - j + (if seen { 0int } else { 1 }),
        {
            if str_eq(keys[j].as_str(), keys[i].as_str()) {
                assert(names.take(i as int)[j as int] == names[i as int]);
                seen = true;
            }
            j += 1;
        }
        let ghost before = out@;
        proof {
            let next = all.take(i + 1);
            let next_names = names.take(i + 1);
            assert(next.drop_last() =~= all.take(i as int));
            assert(next_names.drop_last() =~= names.take(i as int));
            assert(next.last() == contact@);
            assert(next_names.last() == names[i as int]);
        }
        if !seen {
            out.push(contact);
            assert(views(out@) =~= views(before).push(contact@));
        }
        i += 1;
    }
    assert(all.take(all.len() as int) =~= all);
    assert(names.take(names.len() as int) =~= names);
    out
}

/// Keeps the contacts whose source identifiers do not occur before them.
pub fn dedupe_contacts(contacts: Vec<Contact>) -> (r: Vec<Contact>)
    ensures
        views(r@) == unique_contacts(views(contacts@)),
        r@.len() <= contacts@.len(),
{
    let mut keys: Vec<String> = Vec::new();
    let mut i: usize = 0;
    while i < contacts.len()
        invariant
            i <= contacts@.len(),
            keys@.len() == i,
            forall|j: int| 0 <= j < i ==> (#[trigger] keys@[j])@ == contacts@[j].source_id@,
        decreases contacts@.len() - i,
    {
        keys.push(contacts[i].source_id.clone());
        i += 1;
    }
    assert(views(keys@) =~= source_ids(views(contacts@)));
    keep_first_of_each(contacts, &keys)
}

/// Among the kept items every key stands once, and none is missing.
pub proof fn law_one_item_for_each_key<A>(items: Seq<A>, keys: Seq<Seq<char>>, key: spec_fn(A) -> Seq<char>)
    requires
        keys == items.map_values(key),
    ensures
        first_of_each(items, keys).map_values(key).no_duplicates(),
        forall|k: Seq<char>|
            keys.contains(k) <==> #[trigger] first_of_each(items, keys).map_values(key).contains(k),
    decreases items.len(),
{
    let kept = first_of_each(items, keys);
    if items.len() > 0 {
        let front_items = items.drop_last();
        let front_keys = keys.drop_last();
        let front = first_of_each(front_items, front_keys);
        assert(front_keys =~= front_items.map_values(key));
        law_one_item_for_each_key(front_items, front_keys, key);
        let last = keys.last();
        assert(last == key(items.last()));
        if !front_keys.contains(last) {
            assert(kept.map_values(key) =~= front.map_values(key).push(last));
            assert(!front.map_values(key).contains(last));
        }
        assert forall|k: Seq<char>|
            keys.contains(k) <==> #[trigger] kept.map_values(key).contains(k) by {
            assert(keys =~= front_keys.push(last));
            if keys.contains(k) {
                let i = choose|i: int| 0 <= i < keys.len() && keys[i] == k;
                if i < front_keys.len() {
                    assert(front_keys[i] == k);
                }
                if front_keys.contains(k) {
                    assert(front.map_values(key).contains(k));
                    let j = choose|j: int|
                        0 <= j < front.map_values(key).len() && front.map_values(key)[j] == k;
                    assert(kept.map_values(key)[j] == k);
                } else {
                    let n = kept.len() - 1;
                    assert(kept.map_values(key)[n] == k);
                }
            }
            if kept.map_values(key).contains(k) {
                let j = choose|j: int|
                    0 <= j < kept.map_values(key).len() && kept.map_values(key)[j] == k;
                if j < front.len() {
                    assert(front.map_values(key)[j] == k);
                    assert(front.map_values(key).contains(k));
                    assert(front_keys.contains(k));
                    let i = choose|i: int| 0 <= i < front_keys.len() && front_keys[i] == k;
                    assert(keys[i] == k);
                } else {
                    assert(keys[keys.len() - 1] == k);
                }
            }
        }
    } else {
        assert forall|k: Seq<char>|
            keys.contains(k) <==> #[trigger] kept.map_values(key).contains(k) by {}
    }
}

pub proof fn lemma_contains_either<A>(a: Seq<A>, b: Seq<A>, x: A)
    ensures
        (a + b).contains(x) <==> a.contains(x) || b.contains(x),
{
    if a.contains(x) {
        let i = choose|i: int| 0 <= i < a.len() && a[i] == x;
        assert((a + b)[i] == x);
    }
    if b.contains(x) {
        let i = choose|i: int| 0 <= i < b.len() && b[i] == x;
        assert((a + b)[a.len() + i] == x);
    }
    if (a + b).contains(x) {
        let i = choose|i: int| 0 <= i < (a + b).len() && (a + b)[i] == x;
        if i < a.len() {
            assert(a[i] == x);
        } else {
            assert(b[i - a.len()] == x);
        }
    }
}

/// Whether an item is the first with its key.
pub open spec fn first_with_key(keys: Seq<Seq<char>>, i: int) -> bool {
    0 <= i < keys.len() && forall|j: int| 0 <= j < i ==> #[trigger] keys[j] != keys[i]
}

/// Whether an item stands at a place where its key comes first.
pub open spec fn first_somewhere<A>(items: Seq<A>, keys: Seq<Seq<char>>, item: A) -> bool {
    exists|i: int| first_with_key(keys, i) && items[i] == item
}

/// Of the items with a key the first stays, and no other.
pub proof fn law_the_first_item_of_a_key_stays<A>(items: Seq<A>, keys: Seq<Seq<char>>)
    requires
        keys.len() == items.len(),
    ensures
        forall|i: int|
            #![trigger items[i]]
            first_with_key(keys, i) ==> first_of_each(items, keys).contains(items[i]),
        forall|k: int|
            0 <= k < first_of_each(items, keys).len() ==> first_somewhere(
                items,
                keys,
                #[trigger] first_of_each(items, keys)[k],
            ),
    decreases items.len(),
{
    if items.len() > 0 {
        let n = items.len() - 1;
        let front = items.drop_last();
        let known = keys.drop_last();
        law_the_first_item_of_a_key_stays(front, known);
        let before = first_of_each(front, known);
        let all = first_of_each(items, keys);
        assert forall|i: int|
            #![trigger items[i]]
            first_with_key(keys, i) implies all.contains(items[i]) by {
            if i < n {
                assert(first_with_key(known, i)) by {
                    assert forall|j: int| 0 <= j < i implies #[trigger] known[j] != known[i] by {
                        assert(keys[j] != keys[i]);
                    }
                }
                assert(front[i] == items[i]);
                let k = choose|k: int| 0 <= k < before.len() && before[k] == front[i];
                assert(all[k] == items[i]);
            } else {
                assert(!known.contains(keys.last())) by {
                    if known.contains(keys.last()) {
                        let j = choose|j: int| 0 <= j < known.len() && known[j] == keys.last();
                        assert(keys[j] == keys[i]);
                    }
                }
                assert(all.last() == items[i]);
            }
        }
        assert forall|k: int| 0 <= k < all.len() implies first_somewhere(
            items,
            keys,
            #[trigger] all[k],
        ) by {
            if k < before.len() {
                assert(all[k] == before[k]);
                assert(first_somewhere(front, known, before[k]));
                let i = choose|i: int| first_with_key(known, i) && front[i] == before[k];
                assert forall|j: int| 0 <= j < i implies #[trigger] keys[j] != keys[i] by {
                    assert(known[j] != known[i]);
                }
                assert(first_with_key(keys, i) && items[i] == all[k]);
            } else {
                assert forall|j: int| 0 <= j < n implies #[trigger] keys[j] != keys[n] by {
                    assert(known[j] == keys[j]);
                }
                assert(first_with_key(keys, n) && items[n] == all[k]);
            }
        }
    }
}

} // verus!
