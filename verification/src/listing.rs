//! Listings: the entries of a store in the order of their keys.
//!
//! A store is a map from keys to values. It is kept, and handed out to
//! cursors, as a listing: its entries one after the other, each key before
//! all greater ones. A map has exactly one such listing.

use crate::order::{lemma_precedes_irreflexive, precedes};
use vstd::prelude::*;

verus! {

/// Whether the keys of `listing` rise strictly from entry to entry.
pub open spec fn ascending(listing: Seq<(Seq<u8>, Seq<u8>)>) -> bool {
    forall|i: int, j: int|
        0 <= i < j < listing.len() ==> precedes(
            (#[trigger] listing[i]).0,
            (#[trigger] listing[j]).0,
        )
}

/// Whether `listing` has an entry under `key`.
pub open spec fn lists(listing: Seq<(Seq<u8>, Seq<u8>)>, key: Seq<u8>) -> bool {
    exists|i: int| 0 <= i < listing.len() && (#[trigger] listing[i]).0 == key
}

/// A place at which `listing` has an entry under `key`.
pub open spec fn place_of(listing: Seq<(Seq<u8>, Seq<u8>)>, key: Seq<u8>) -> int {
    choose|i: int| 0 <= i < listing.len() && (#[trigger] listing[i]).0 == key
}

/// The map that `listing` lists.
pub open spec fn listed(listing: Seq<(Seq<u8>, Seq<u8>)>) -> Map<Seq<u8>, Seq<u8>> {
    Map::new(|key: Seq<u8>| lists(listing, key), |key: Seq<u8>| listing[place_of(listing, key)].1)
}

/// Whether `key` belongs at place `at` of `listing`: after all entries
/// before that place, and before those after it. The entry at the place
/// itself may have the key.
pub open spec fn belongs_at(listing: Seq<(Seq<u8>, Seq<u8>)>, key: Seq<u8>, at: int) -> bool {
    &&& 0 <= at <= listing.len()
    &&& forall|i: int| 0 <= i < at ==> precedes((#[trigger] listing[i]).0, key)
    &&& forall|i: int|
        at <= i < listing.len() ==> (#[trigger] listing[i]).0 == key && i == at || precedes(
            key,
            listing[i].0,
        )
}

/// In an ascending listing no key stands twice.
pub proof fn lemma_ascending_distinct(listing: Seq<(Seq<u8>, Seq<u8>)>, i: int, j: int)
    requires
        ascending(listing),
        0 <= i < listing.len(),
        0 <= j < listing.len(),
        listing[i].0 == listing[j].0,
    ensures
        i == j,
{
    lemma_precedes_irreflexive(listing[i].0, 0);
    if i < j {
        assert(precedes(listing[i].0, listing[j].0));
    } else if j < i {
        assert(precedes(listing[j].0, listing[i].0));
    }
}

/// The map of an ascending listing holds each entry of the listing.
pub proof fn lemma_listed_at(listing: Seq<(Seq<u8>, Seq<u8>)>, i: int)
    requires
        ascending(listing),
        0 <= i < listing.len(),
    ensures
        lists(listing, listing[i].0),
        listed(listing).contains_key(listing[i].0),
        listed(listing)[listing[i].0] == listing[i].1,
{
    let key = listing[i].0;
    assert(lists(listing, key));
    lemma_ascending_distinct(listing, place_of(listing, key), i);
}

/// A key that belongs at a place whose entry has another key, or at the
/// end, is not in the listing.
pub proof fn lemma_not_listed(listing: Seq<(Seq<u8>, Seq<u8>)>, key: Seq<u8>, at: int)
    requires
        belongs_at(listing, key, at),
        at == listing.len() || listing[at].0 != key,
    ensures
        !lists(listing, key),
        !listed(listing).contains_key(key),
{
    lemma_precedes_irreflexive(key, 0);
    if lists(listing, key) {
        let i = place_of(listing, key);
        if i < at {
            assert(precedes(listing[i].0, key));
        } else {
            assert(listing[i].0 == key && i == at || precedes(key, listing[i].0));
        }
    }
}

/// Putting a new key where it belongs keeps the listing ascending and adds
/// the entry to its map.
pub proof fn lemma_listed_insert(
    listing: Seq<(Seq<u8>, Seq<u8>)>,
    at: int,
    key: Seq<u8>,
    value: Seq<u8>,
)
    requires
        ascending(listing),
        belongs_at(listing, key, at),
        at == listing.len() || listing[at].0 != key,
    ensures
        ascending(listing.insert(at, (key, value))),
        listed(listing.insert(at, (key, value))) == listed(listing).insert(key, value),
{
    let longer = listing.insert(at, (key, value));
    assert(longer.len() == listing.len() + 1);
    assert forall|i: int| 0 <= i < longer.len() implies #[trigger] longer[i] == (if i < at {
        listing[i]
    } else if i == at {
        (key, value)
    } else {
        listing[i - 1]
    }) by {}
    assert forall|i: int, j: int| 0 <= i < j < longer.len() implies precedes(
        (#[trigger] longer[i]).0,
        (#[trigger] longer[j]).0,
    ) by {
        if j < at {
            assert(precedes(listing[i].0, listing[j].0));
        } else if j == at {
            assert(precedes(listing[i].0, key));
        } else if i < at {
            assert(precedes(listing[i].0, listing[j - 1].0));
        } else if i == at {
            assert(listing[j - 1].0 == key && j - 1 == at || precedes(key, listing[j - 1].0));
        } else {
            assert(precedes(listing[i - 1].0, listing[j - 1].0));
        }
    }
    lemma_not_listed(listing, key, at);
    assert forall|q: Seq<u8>| listed(longer).contains_key(q) == listed(listing).insert(
        key,
        value,
    ).contains_key(q) by {
        if lists(longer, q) {
            let i = place_of(longer, q);
            if i < at {
                assert(listing[i].0 == q);
            } else if i > at {
                assert(listing[i - 1].0 == q);
            }
        }
        if lists(listing, q) {
            let i = place_of(listing, q);
            if i < at {
                assert(longer[i].0 == q);
            } else {
                assert(longer[i + 1].0 == q);
            }
        }
        if q == key {
            assert(longer[at].0 == q);
        }
    }
    assert forall|q: Seq<u8>| listed(longer).contains_key(q) implies listed(longer)[q] == listed(
        listing,
    ).insert(key, value)[q] by {
        let i = place_of(longer, q);
        lemma_listed_at(longer, i);
        if i < at {
            lemma_listed_at(listing, i);
        } else if i > at {
            lemma_listed_at(listing, i - 1);
        }
    }
    assert(listed(longer) =~= listed(listing).insert(key, value));
}

/// Replacing the value of an entry keeps the listing ascending and puts the
/// new value in its map.
pub proof fn lemma_listed_update(listing: Seq<(Seq<u8>, Seq<u8>)>, at: int, value: Seq<u8>)
    requires
        ascending(listing),
        0 <= at < listing.len(),
    ensures
        ascending(listing.update(at, (listing[at].0, value))),
        listed(listing.update(at, (listing[at].0, value))) == listed(listing).insert(
            listing[at].0,
            value,
        ),
{
    let key = listing[at].0;
    let changed = listing.update(at, (key, value));
    assert forall|i: int, j: int| 0 <= i < j < changed.len() implies precedes(
        (#[trigger] changed[i]).0,
        (#[trigger] changed[j]).0,
    ) by {
        assert(precedes(listing[i].0, listing[j].0));
    }
    assert forall|q: Seq<u8>| listed(changed).contains_key(q) == listed(listing).insert(
        key,
        value,
    ).contains_key(q) by {
        if lists(changed, q) {
            let i = place_of(changed, q);
            assert(listing[i].0 == q);
        }
        if lists(listing, q) {
            let i = place_of(listing, q);
            assert(changed[i].0 == q);
        }
        if q == key {
            assert(changed[at].0 == q);
        }
    }
    assert forall|q: Seq<u8>| listed(changed).contains_key(q) implies listed(changed)[q]
        == listed(listing).insert(key, value)[q] by {
        let i = place_of(changed, q);
        lemma_listed_at(changed, i);
        if i != at {
            lemma_listed_at(listing, i);
            if q == key {
                lemma_ascending_distinct(listing, i, at);
            }
        }
    }
    assert(listed(changed) =~= listed(listing).insert(key, value));
}

/// Taking an entry out keeps the listing ascending and takes its key out of
/// the map.
pub proof fn lemma_listed_remove(listing: Seq<(Seq<u8>, Seq<u8>)>, at: int)
    requires
        ascending(listing),
        0 <= at < listing.len(),
    ensures
        ascending(listing.remove(at)),
        listed(listing.remove(at)) == listed(listing).remove(listing[at].0),
{
    let key = listing[at].0;
    let shorter = listing.remove(at);
    assert(shorter.len() == listing.len() - 1);
    assert forall|i: int| 0 <= i < shorter.len() implies #[trigger] shorter[i] == (if i < at {
        listing[i]
    } else {
        listing[i + 1]
    }) by {}
    assert forall|i: int, j: int| 0 <= i < j < shorter.len() implies precedes(
        (#[trigger] shorter[i]).0,
        (#[trigger] shorter[j]).0,
    ) by {
        let from = if i < at { i } else { i + 1 };
        let to = if j < at { j } else { j + 1 };
        assert(precedes(listing[from].0, listing[to].0));
    }
    assert forall|q: Seq<u8>| listed(shorter).contains_key(q) == listed(listing).remove(
        key,
    ).contains_key(q) by {
        if lists(shorter, q) {
            let i = place_of(shorter, q);
            let from = if i < at { i } else { i + 1 };
            assert(listing[from].0 == q);
            if q == key {
                lemma_ascending_distinct(listing, from, at);
            }
        }
        if lists(listing, q) && q != key {
            let i = place_of(listing, q);
            if i < at {
                assert(shorter[i].0 == q);
            } else {
                assert(shorter[i - 1].0 == q);
            }
        }
    }
    assert forall|q: Seq<u8>| listed(shorter).contains_key(q) implies listed(shorter)[q]
        == listed(listing).remove(key)[q] by {
        let i = place_of(shorter, q);
        lemma_listed_at(shorter, i);
        let from = if i < at { i } else { i + 1 };
        lemma_listed_at(listing, from);
    }
    assert(listed(shorter) =~= listed(listing).remove(key));
}

/// A map has one ascending listing only.
pub proof fn lemma_listing_unique(a: Seq<(Seq<u8>, Seq<u8>)>, b: Seq<(Seq<u8>, Seq<u8>)>)
    requires
        ascending(a),
        ascending(b),
        listed(a) == listed(b),
    ensures
        a == b,
    decreases a.len(),
{
    if a.len() == 0 {
        if b.len() > 0 {
            lemma_listed_at(b, 0);
            assert(lists(a, b[0].0));
        }
        assert(a =~= b);
    } else if b.len() == 0 {
        lemma_listed_at(a, 0);
        assert(lists(b, a[0].0));
    } else {
        // The last entries hold the greatest key of the map on both sides.
        let m = a.len() - 1;
        let n = b.len() - 1;
        lemma_listed_at(a, m);
        lemma_listed_at(b, n);
        let i = place_of(b, a[m].0);
        let j = place_of(a, b[n].0);
        assert(lists(b, a[m].0));
        assert(lists(a, b[n].0));
        if a[m].0 != b[n].0 {
            assert(i < n);
            assert(j < m);
            assert(precedes(b[i].0, b[n].0));
            assert(precedes(a[j].0, a[m].0));
            crate::order::lemma_precedes_asymmetric(a[m].0, b[n].0);
        }
        lemma_listed_at(b, n);
        assert(a[m].1 == b[n].1);
        assert(a[m] == b[n]);
        lemma_listed_remove(a, m);
        lemma_listed_remove(b, n);
        assert(a.remove(m) =~= a.drop_last());
        assert(b.remove(n) =~= b.drop_last());
        lemma_listing_unique(a.drop_last(), b.drop_last());
        assert(a =~= a.drop_last().push(a[m]));
        assert(b =~= b.drop_last().push(b[n]));
    }
}

/// An ascending listing read backwards has its keys falling from entry to
/// entry, and read backwards again it is the listing.
pub proof fn lemma_reverse_twice(listing: Seq<(Seq<u8>, Seq<u8>)>)
    ensures
        listing.reverse().reverse() == listing,
        listing.reverse().len() == listing.len(),
{
    assert(listing.reverse().reverse() =~= listing);
}

} // verus!
