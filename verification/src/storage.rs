//! The storage engine: the key/value store of one account, and the cursors
//! that walk snapshots of it.
//!
//! Keys and values are byte strings. A store holds each key as lowercase
//! hexadecimal text and keeps its entries in the order of that text, which
//! is the order of the keys themselves. A cursor holds the entries that
//! the store had when the cursor was made; what is written to the store
//! later does not reach it.

use crate::encoding::{
    hex_ascii, hex_bytes, hex_decode, hex_encode, hex_text, is_hex, lemma_hex_injective,
    lemma_hex_is_ascii, lemma_hex_keeps_order, lemma_hex_round_trip,
};
use crate::error::SimpleVMError;
use crate::listing::{
    ascending, belongs_at, lemma_listed_at, lemma_listed_insert, lemma_listed_remove,
    lemma_listed_update, lemma_listing_unique, lemma_not_listed, lemma_reverse_twice, listed,
};
use crate::order::{lemma_precedes_transitive, precedes, rank, Rank};
use crate::text::utf8;
use std::collections::BTreeMap;
use vstd::prelude::*;

verus! {

/// The order in which a cursor walks a store.
#[derive(Copy, Clone, PartialEq, Eq, Debug)]
pub enum Order {
    /// From the least key to the greatest.
    Ascending,
    /// From the greatest key to the least.
    Descending,
}

/// What a cursor is: the entries it walks, and how many it has handed out.
pub struct IterModel {
    pub data: Seq<(Seq<u8>, Seq<u8>)>,
    pub position: nat,
}

impl IterModel {
    /// What the next call hands out: the entry at the position, or, past the
    /// end, an empty key with an empty value.
    pub open spec fn item(self) -> (Seq<u8>, Seq<u8>) {
        if self.position < self.data.len() {
            self.data[self.position as int]
        } else {
            (Seq::empty(), Seq::empty())
        }
    }

    /// The cursor after the next call: one entry further, unless it is past
    /// the end already.
    pub open spec fn advanced(self) -> IterModel {
        if self.position < self.data.len() {
            IterModel { data: self.data, position: self.position + 1 }
        } else {
            self
        }
    }

    /// The cursor after `calls` calls.
    pub open spec fn advanced_by(self, calls: nat) -> IterModel
        decreases calls,
    {
        if calls == 0 {
            self
        } else {
            self.advanced().advanced_by((calls - 1) as nat)
        }
    }
}

/// A cursor that has made `calls` calls stands that many entries further,
/// or at the end.
pub proof fn lemma_advanced_by(cursor: IterModel, calls: nat)
    requires
        cursor.position <= cursor.data.len(),
    ensures
        cursor.advanced_by(calls).data == cursor.data,
        cursor.advanced_by(calls).position == if cursor.position + calls <= cursor.data.len() {
            cursor.position + calls
        } else {
            cursor.data.len()
        },
    decreases calls,
{
    if calls > 0 {
        lemma_advanced_by(cursor.advanced(), (calls - 1) as nat);
    }
}

/// A cursor runs out and stays out: a fresh cursor over `n` entries hands
/// them out in turn on its first `n` calls, and on every call after those
/// the empty key with the empty value.
pub proof fn lemma_cursor_exhaustion(cursor: IterModel, calls: nat)
    requires
        cursor.position == 0,
    ensures
        calls < cursor.data.len() ==> cursor.advanced_by(calls).item() == cursor.data[calls as int],
        calls >= cursor.data.len() ==> cursor.advanced_by(calls).item() == (
            Seq::<u8>::empty(),
            Seq::<u8>::empty(),
        ),
        calls >= cursor.data.len() ==> cursor.advanced_by(calls).advanced() == cursor.advanced_by(
            calls,
        ),
{
    lemma_advanced_by(cursor, calls);
}

/// The byte strings held by pairs of vectors.
pub open spec fn byte_pairs(items: Seq<(Vec<u8>, Vec<u8>)>) -> Seq<(Seq<u8>, Seq<u8>)> {
    items.map_values(|pair: (Vec<u8>, Vec<u8>)| (pair.0@, pair.1@))
}

/// A cursor over a snapshot of a store.
#[derive(Clone, PartialEq, Eq, Debug)]
pub struct Iter {
    data: Vec<(Vec<u8>, Vec<u8>)>,
    position: usize,
}

impl View for Iter {
    type V = IterModel;

    closed spec fn view(&self) -> IterModel {
        IterModel { data: byte_pairs(self.data@), position: self.position as nat }
    }
}

impl Default for Iter {
    /// A cursor over nothing.
    fn default() -> (cursor: Iter)
        ensures
            cursor@ == (IterModel { data: Seq::empty(), position: 0 }),
    {
        let cursor = Iter { data: Vec::new(), position: 0 };
        assert(cursor@.data =~= Seq::empty());
        cursor
    }
}

impl Iter {
    /// A cursor over `data` that has handed out `position` entries.
    pub fn new(data: Vec<(Vec<u8>, Vec<u8>)>, position: usize) -> (cursor: Iter)
        ensures
            cursor@ == (IterModel { data: byte_pairs(data@), position: position as nat }),
    {
        Iter { data, position }
    }

    /// The entries that the cursor walks.
    pub fn data(&self) -> (data: &Vec<(Vec<u8>, Vec<u8>)>)
        ensures
            byte_pairs(data@) == self@.data,
    {
        &self.data
    }

    /// How many entries the cursor has handed out.
    pub fn position(&self) -> (position: usize)
        ensures
            position == self@.position,
    {
        self.position
    }

    /// Hands out the entry at the position and steps past it. Past the end
    /// the cursor stays where it is and hands out an empty key with an
    /// empty value.
    pub fn next(&mut self) -> (item: (Vec<u8>, Vec<u8>))
        ensures
            (item.0@, item.1@) == old(self)@.item(),
            final(self)@ == old(self)@.advanced(),
    {
        let position = self.position;
        if self.data.len() > position {
            self.position = position + 1;
            (copy_of(&self.data[position].0), copy_of(&self.data[position].1))
        } else {
            (Vec::new(), Vec::new())
        }
    }
}

/// A copy of `bytes`.
pub(crate) fn copy_of(bytes: &Vec<u8>) -> (copy: Vec<u8>)
    ensures
        copy@ == bytes@,
{
    bytes.clone()
}

/// What a store is: its entries, and its cursors by their handles.
pub struct StorageModel {
    pub entries: Map<Seq<u8>, Seq<u8>>,
    pub iterators: Map<u32, IterModel>,
}

impl StorageModel {
    /// The store without entries or cursors.
    pub open spec fn empty() -> StorageModel {
        StorageModel { entries: Map::empty(), iterators: Map::empty() }
    }

    /// The value under `key`, if there is one.
    pub open spec fn value(self, key: Seq<u8>) -> Option<Seq<u8>> {
        if self.entries.contains_key(key) {
            Some(self.entries[key])
        } else {
            None
        }
    }

    /// The store with `value` under `key`.
    pub open spec fn with_entry(self, key: Seq<u8>, value: Seq<u8>) -> StorageModel {
        StorageModel { entries: self.entries.insert(key, value), iterators: self.iterators }
    }

    /// The store with nothing under `key`.
    pub open spec fn without_entry(self, key: Seq<u8>) -> StorageModel {
        StorageModel { entries: self.entries.remove(key), iterators: self.iterators }
    }

    /// The handle that the next cursor gets: one more than the number of
    /// cursors.
    pub open spec fn next_handle(self) -> nat {
        self.iterators.dom().len() + 1
    }

    /// The store with one more cursor, which walks the entries of now in
    /// the order asked for, from their beginning.
    pub open spec fn with_cursor(self, order: Order) -> StorageModel {
        StorageModel {
            entries: self.entries,
            iterators: self.iterators.insert(
                self.next_handle() as u32,
                IterModel { data: snapshot_of(self.entries, order), position: 0 },
            ),
        }
    }

    /// The store after the cursor under `handle` has made a call.
    pub open spec fn with_cursor_advanced(self, handle: u32) -> StorageModel {
        StorageModel {
            entries: self.entries,
            iterators: self.iterators.insert(handle, self.iterators[handle].advanced()),
        }
    }
}

/// Whether `snapshot` lists exactly `entries`, each once, in the order
/// asked for.
pub open spec fn is_snapshot(
    snapshot: Seq<(Seq<u8>, Seq<u8>)>,
    entries: Map<Seq<u8>, Seq<u8>>,
    order: Order,
) -> bool {
    match order {
        Order::Ascending => ascending(snapshot) && listed(snapshot) == entries,
        Order::Descending => ascending(snapshot.reverse()) && listed(snapshot.reverse())
            == entries,
    }
}

/// The snapshot of `entries` in the order asked for. A store has one, and
/// only one.
pub open spec fn snapshot_of(entries: Map<Seq<u8>, Seq<u8>>, order: Order) -> Seq<
    (Seq<u8>, Seq<u8>),
> {
    choose|snapshot: Seq<(Seq<u8>, Seq<u8>)>| is_snapshot(snapshot, entries, order)
}

/// There is one snapshot only of given entries in a given order.
pub proof fn lemma_snapshot_unique(
    snapshot: Seq<(Seq<u8>, Seq<u8>)>,
    entries: Map<Seq<u8>, Seq<u8>>,
    order: Order,
)
    requires
        is_snapshot(snapshot, entries, order),
    ensures
        snapshot == snapshot_of(entries, order),
{
    let chosen = snapshot_of(entries, order);
    match order {
        Order::Ascending => {
            lemma_listing_unique(snapshot, chosen);
        },
        Order::Descending => {
            lemma_listing_unique(snapshot.reverse(), chosen.reverse());
            lemma_reverse_twice(snapshot);
            lemma_reverse_twice(chosen);
        },
    }
}

/// The entries that a store holds, by the keys that its texts stand for.
pub open spec fn keyed(data: Seq<(String, Vec<u8>)>) -> Seq<(Seq<u8>, Seq<u8>)> {
    data.map_values(|entry: (String, Vec<u8>)| (hex_bytes(entry.0@), entry.1@))
}

/// Whether what a store holds is in order: each text is the hexadecimal
/// form of a key, and the keys rise.
pub open spec fn well_kept(data: Seq<(String, Vec<u8>)>) -> bool {
    &&& forall|i: int|
        0 <= i < data.len() ==> (#[trigger] data[i]).0@ == hex_text(hex_bytes(data[i].0@))
    &&& ascending(keyed(data))
}

/// Whether every text of `data` is hexadecimal.
pub open spec fn all_hex(data: Seq<(String, Vec<u8>)>) -> bool {
    forall|i: int| 0 <= i < data.len() ==> is_hex((#[trigger] data[i]).0@)
}

/// The entries that `data` restores: each value under the key that its
/// text stands for, a later one in place of an earlier one under the same
/// key.
pub open spec fn restored(data: Seq<(String, Vec<u8>)>) -> Map<Seq<u8>, Seq<u8>>
    decreases data.len(),
{
    if data.len() == 0 {
        Map::empty()
    } else {
        restored(data.drop_last()).insert(hex_bytes(data.last().0@), data.last().1@)
    }
}

/// Nothing is lost when a store is taken apart and restored: what a store
/// holds is hexadecimal throughout and restores the entries of the store.
pub proof fn lemma_restore_round_trip(data: Seq<(String, Vec<u8>)>)
    requires
        well_kept(data),
    ensures
        all_hex(data),
        restored(data) == listed(keyed(data)),
    decreases data.len(),
{
    assert forall|i: int| 0 <= i < data.len() implies is_hex((#[trigger] data[i]).0@) by {
        lemma_hex_round_trip(hex_bytes(data[i].0@));
    }
    if data.len() == 0 {
        assert(listed(keyed(data)) =~= Map::empty());
    } else {
        let earlier = data.drop_last();
        let listing = keyed(earlier);
        let key = hex_bytes(data.last().0@);
        assert(well_kept(earlier)) by {
            assert forall|i: int, j: int| 0 <= i < j < listing.len() implies precedes(
                (#[trigger] listing[i]).0,
                (#[trigger] listing[j]).0,
            ) by {
                assert(precedes(keyed(data)[i].0, keyed(data)[j].0));
            }
        }
        lemma_restore_round_trip(earlier);
        assert(belongs_at(listing, key, listing.len() as int)) by {
            assert forall|i: int| 0 <= i < listing.len() implies precedes(
                (#[trigger] listing[i]).0,
                key,
            ) by {
                assert(precedes(keyed(data)[i].0, keyed(data)[data.len() - 1].0));
            }
        }
        lemma_listed_insert(listing, listing.len() as int, key, data.last().1@);
        assert(keyed(data) =~= listing.insert(listing.len() as int, (key, data.last().1@)));
    }
}

/// What the cursors of a store are, by their handles.
pub open spec fn cursors(iterators: Map<u32, Iter>) -> Map<u32, IterModel> {
    iterators.map_values(|cursor: Iter| cursor@)
}

/// The store of one account.
#[derive(PartialEq, Eq, Debug)]
pub struct SimpleWasmiVMStorage {
    data: Vec<(String, Vec<u8>)>,
    iterators: BTreeMap<u32, Iter>,
}

impl View for SimpleWasmiVMStorage {
    type V = StorageModel;

    closed spec fn view(&self) -> StorageModel {
        StorageModel {
            entries: listed(keyed(self.data@)),
            iterators: cursors(self.iterators@),
        }
    }
}

impl Default for SimpleWasmiVMStorage {
    /// A store without entries or cursors.
    fn default() -> (store: SimpleWasmiVMStorage)
        ensures
            store@ == StorageModel::empty(),
    {
        SimpleWasmiVMStorage::new()
    }
}

impl Clone for SimpleWasmiVMStorage {
    fn clone(&self) -> (other: SimpleWasmiVMStorage)
        ensures
            other@ == self@,
    {
        proof {
            use_type_invariant(self);
        }
        let mut data: Vec<(String, Vec<u8>)> = Vec::with_capacity(self.data.len());
        let mut i: usize = 0;
        while i < self.data.len()
            invariant
                i <= self.data@.len(),
                data@.len() == i,
                forall|k: int| 0 <= k < i ==> (#[trigger] data@[k]).0@ == self.data@[k].0@,
                forall|k: int| 0 <= k < i ==> (#[trigger] data@[k]).1@ == self.data@[k].1@,
            decreases self.data@.len() - i,
        {
            data.push((self.data[i].0.clone(), copy_of(&self.data[i].1)));
            i = i + 1;
        }
        assert(keyed(data@) =~= keyed(self.data@));
        SimpleWasmiVMStorage { data, iterators: self.iterators.clone() }
    }
}

impl SimpleWasmiVMStorage {
    #[verifier::type_invariant]
    spec fn kept_in_order(self) -> bool {
        well_kept(self.data@)
    }

    /// A store without entries or cursors.
    pub fn new() -> (store: SimpleWasmiVMStorage)
        ensures
            store@ == StorageModel::empty(),
    {
        let store = SimpleWasmiVMStorage { data: Vec::new(), iterators: BTreeMap::new() };
        assert(store@.entries =~= Map::empty());
        assert(store@.iterators =~= Map::empty());
        store
    }

    /// A store of the entries of `data`, each under the key that its
    /// hexadecimal text stands for, with the cursors of `iterators`. `None`
    /// where a text is not hexadecimal. What [`Self::data`] and
    /// [`Self::iterators`] hand out of a store restores that store.
    pub fn from_parts(data: Vec<(String, Vec<u8>)>, iterators: BTreeMap<u32, Iter>) -> (store:
        Option<SimpleWasmiVMStorage>)
        ensures
            store is Some <==> all_hex(data@),
            store matches Some(s) ==> s@ == (StorageModel {
                entries: restored(data@),
                iterators: cursors(iterators@),
            }),
    {
        let mut store = SimpleWasmiVMStorage { data: Vec::new(), iterators };
        assert(store@.entries =~= Map::empty());
        let mut i: usize = 0;
        assert(data@.subrange(0, 0) =~= Seq::empty());
        while i < data.len()
            invariant
                i <= data@.len(),
                all_hex(data@.subrange(0, i as int)),
                store@.entries == restored(data@.subrange(0, i as int)),
                store@.iterators == cursors(iterators@),
            decreases data@.len() - i,
        {
            let ghost longer = data@.subrange(0, i + 1);
            assert(longer.drop_last() =~= data@.subrange(0, i as int));
            if !store.write_encoded(data[i].0.as_str(), copy_of(&data[i].1)) {
                return None;
            }
            assert forall|k: int| 0 <= k < longer.len() implies is_hex((#[trigger] longer[k]).0@) by {
                if k < i {
                    assert(is_hex(data@.subrange(0, i as int)[k].0@));
                }
            }
            i = i + 1;
        }
        assert(data@.subrange(0, i as int) =~= data@);
        Some(store)
    }

    /// The entries as the store holds them: under each key as hexadecimal
    /// text, in the rising order of the keys.
    pub fn data(&self) -> (data: &Vec<(String, Vec<u8>)>)
        ensures
            well_kept(data@),
            listed(keyed(data@)) == self@.entries,
            all_hex(data@),
            restored(data@) == self@.entries,
    {
        proof {
            use_type_invariant(self);
            lemma_restore_round_trip(self.data@);
        }
        &self.data
    }

    /// The cursors of the store, by their handles.
    pub fn iterators(&self) -> (iterators: &BTreeMap<u32, Iter>)
        ensures
            cursors(iterators@) == self@.iterators,
    {
        &self.iterators
    }

    /// Puts `value` under the key that the hexadecimal `text` stands for,
    /// in place of what was there. Text that is not hexadecimal is refused
    /// and nothing changes.
    pub fn write_encoded(&mut self, text: &str, value: Vec<u8>) -> (done: bool)
        ensures
            done == is_hex(text@),
            done ==> final(self)@ == old(self)@.with_entry(hex_bytes(text@), value@),
            !done ==> final(self)@ == old(self)@,
    {
        match hex_decode(text) {
            Ok(key) => {
                self.write(key, value);
                true
            },
            Err(_) => false,
        }
    }

    /// Puts `cursor` under `handle`, in place of any cursor there.
    pub fn restore_iterator(&mut self, handle: u32, cursor: Iter)
        ensures
            final(self)@ == (StorageModel {
                entries: old(self)@.entries,
                iterators: old(self)@.iterators.insert(handle, cursor@),
            }),
    {
        proof {
            use_type_invariant(&*self);
        }
        let mut iterators: BTreeMap<u32, Iter> = BTreeMap::new();
        core::mem::swap(&mut self.iterators, &mut iterators);
        iterators.insert(handle, cursor);
        self.iterators = iterators;
        assert(final(self)@.iterators =~= old(self)@.iterators.insert(handle, cursor@));
    }

    /// Where `key`, whose text is `text`, belongs among the entries, and
    /// whether the entry there has that key.
    fn locate(&self, key: &Vec<u8>, text: &String) -> (place: (usize, bool))
        requires
            text@ == hex_text(key@),
        ensures
            place.0 <= self.data@.len(),
            well_kept(self.data@),
            belongs_at(keyed(self.data@), key@, place.0 as int),
            place.1 == (place.0 < self.data@.len() && keyed(self.data@)[place.0 as int].0
                == key@),
            place.1 ==> self.data@[place.0 as int].0@ == text@,
    {
        proof {
            use_type_invariant(self);
            lemma_hex_is_ascii(key@);
        }
        let ghost listing = keyed(self.data@);
        let mut i: usize = 0;
        while i < self.data.len()
            invariant
                i <= self.data@.len(),
                well_kept(self.data@),
                listing == keyed(self.data@),
                text@ == hex_text(key@),
                utf8(text@) == hex_ascii(key@),
                forall|k: int| 0 <= k < i ==> precedes((#[trigger] listing[k]).0, key@),
            decreases self.data@.len() - i,
        {
            let ghost held = listing[i as int].0;
            proof {
                assert(self.data@[i as int].0@ == hex_text(held));
                lemma_hex_is_ascii(held);
                lemma_hex_keeps_order(held, key@, 0);
                lemma_hex_keeps_order(key@, held, 0);
            }
            match rank(self.data[i].0.as_str().as_bytes(), text.as_str().as_bytes()) {
                Rank::Before => {
                    i = i + 1;
                },
                Rank::Same => {
                    proof {
                        assert(hex_text(held) =~= hex_text(key@));
                        lemma_hex_injective(held, key@);
                        assert forall|k: int| i <= k < listing.len() implies (
                        #[trigger] listing[k]).0 == key@ && k == i || precedes(
                            key@,
                            listing[k].0,
                        ) by {
                            if k > i {
                                assert(precedes(listing[i as int].0, listing[k].0));
                            }
                        }
                    }
                    return (i, true);
                },
                Rank::After => {
                    proof {
                        crate::order::lemma_precedes_irreflexive(key@, 0);
                        assert forall|k: int| i <= k < listing.len() implies (
                        #[trigger] listing[k]).0 == key@ && k == i || precedes(
                            key@,
                            listing[k].0,
                        ) by {
                            if k > i {
                                assert(precedes(listing[i as int].0, listing[k].0));
                                lemma_precedes_transitive(key@, held, listing[k].0, 0);
                            }
                        }
                    }
                    return (i, false);
                },
            }
        }
        (i, false)
    }

    /// The value under `key`, if the store has one.
    pub fn read(&self, key: &Vec<u8>) -> (value: Option<Vec<u8>>)
        ensures
            match value {
                Some(bytes) => self@.value(key@) == Some(bytes@),
                None => self@.value(key@) is None,
            },
    {
        let text = hex_encode(key);
        let (at, found) = self.locate(key, &text);
        if found {
            proof {
                lemma_listed_at(keyed(self.data@), at as int);
            }
            Some(copy_of(&self.data[at].1))
        } else {
            proof {
                lemma_not_listed(keyed(self.data@), key@, at as int);
            }
            None
        }
    }

    /// Puts `value` under `key`, in place of what was there.
    pub fn write(&mut self, key: Vec<u8>, value: Vec<u8>)
        ensures
            final(self)@ == old(self)@.with_entry(key@, value@),
    {
        let text = hex_encode(&key);
        let (at, found) = self.locate(&key, &text);
        let mut data: Vec<(String, Vec<u8>)> = Vec::new();
        assert(keyed(data@) =~= Seq::empty());
        core::mem::swap(&mut self.data, &mut data);
        let ghost before = keyed(data@);
        proof {
            lemma_hex_round_trip(key@);
        }
        if found {
            data[at] = (text, value);
            proof {
                assert(keyed(data@) =~= before.update(at as int, (key@, value@)));
                lemma_listed_update(before, at as int, value@);
            }
        } else {
            data.insert(at, (text, value));
            proof {
                assert(keyed(data@) =~= before.insert(at as int, (key@, value@)));
                lemma_listed_insert(before, at as int, key@, value@);
            }
        }
        self.data = data;
    }

    /// Takes out what is under `key`, if anything.
    pub fn remove(&mut self, key: &Vec<u8>)
        ensures
            final(self)@ == old(self)@.without_entry(key@),
    {
        let text = hex_encode(key);
        let (at, found) = self.locate(key, &text);
        if found {
            let mut data: Vec<(String, Vec<u8>)> = Vec::new();
            assert(keyed(data@) =~= Seq::empty());
            core::mem::swap(&mut self.data, &mut data);
            let ghost before = keyed(data@);
            data.remove(at);
            proof {
                assert(keyed(data@) =~= before.remove(at as int));
                lemma_listed_remove(before, at as int);
            }
            self.data = data;
        } else {
            proof {
                lemma_not_listed(keyed(self.data@), key@, at as int);
                assert(self@.entries.remove(key@) =~= self@.entries);
            }
        }
    }

    /// The entries of the store, least key first.
    fn snapshot(&self) -> (entries: Vec<(Vec<u8>, Vec<u8>)>)
        ensures
            ascending(byte_pairs(entries@)),
            listed(byte_pairs(entries@)) == self@.entries,
    {
        proof {
            use_type_invariant(self);
        }
        let mut out: Vec<(Vec<u8>, Vec<u8>)> = Vec::new();
        let mut i: usize = 0;
        while i < self.data.len()
            invariant
                i <= self.data@.len(),
                well_kept(self.data@),
                out@.len() == i,
                byte_pairs(out@) == keyed(self.data@).subrange(0, i as int),
            decreases self.data@.len() - i,
        {
            proof {
                lemma_hex_round_trip(keyed(self.data@)[i as int].0);
            }
            let key = hex_decode(self.data[i].0.as_str()).unwrap();
            let value = copy_of(&self.data[i].1);
            let ghost done = out@;
            out.push((key, value));
            proof {
                let so_far = keyed(self.data@).subrange(0, i + 1);
                assert forall|k: int| 0 <= k < so_far.len() implies byte_pairs(out@)[k]
                    == so_far[k] by {
                    if k < i {
                        assert(byte_pairs(done)[k] == keyed(self.data@).subrange(0, i as int)[k]);
                    }
                }
                assert(byte_pairs(out@) =~= so_far);
            }
            i = i + 1;
        }
        assert(byte_pairs(out@) =~= keyed(self.data@));
        out
    }

    /// Whether the store can take one more cursor: the handle of the next
    /// one fits in 32 bits.
    pub fn can_scan(&self) -> (r: bool)
        ensures
            r == (self@.next_handle() <= u32::MAX),
    {
        proof {
            assert(self@.iterators.dom() =~= self.iterators@.dom());
        }
        self.iterators.len() < 0xFFFF_FFFF
    }

    /// Makes a cursor over the entries that the store holds now, in the
    /// order asked for, and returns its handle: one more than the number of
    /// cursors that the store has.
    pub fn scan(&mut self, order: Order) -> (handle: u32)
        requires
            old(self)@.next_handle() <= u32::MAX,
        ensures
            handle == old(self)@.next_handle(),
            final(self)@ == old(self)@.with_cursor(order),
            is_snapshot(snapshot_of(old(self)@.entries, order), old(self)@.entries, order),
    {
        let ascending_entries = self.snapshot();
        let data = match order {
            Order::Ascending => ascending_entries,
            Order::Descending => reversed(ascending_entries),
        };
        proof {
            crate::listing::lemma_reverse_twice(byte_pairs(ascending_entries@));
        }
        proof {
            use_type_invariant(&*self);
            assert(self@.iterators.dom() =~= self.iterators@.dom());
        }
        let last_id: u32 = self.iterators.len() as u32;
        let new_id: u32 = last_id + 1;
        let cursor = Iter { data, position: 0 };
        let ghost made = cursor@;
        let mut iterators: BTreeMap<u32, Iter> = BTreeMap::new();
        core::mem::swap(&mut self.iterators, &mut iterators);
        iterators.insert(new_id, cursor);
        self.iterators = iterators;
        proof {
            lemma_snapshot_unique(made.data, old(self)@.entries, order);
            assert(final(self)@.iterators =~= old(self)@.with_cursor(order).iterators);
        }
        new_id
    }

    /// Advances the cursor under `handle` and returns what it hands out;
    /// fails with `IteratorDoesNotExist`, changing nothing, where the store
    /// has no cursor under that handle.
    pub fn next(&mut self, handle: u32) -> (r: Result<(Vec<u8>, Vec<u8>), SimpleVMError>)
        ensures
            match r {
                Ok(item) => {
                    &&& old(self)@.iterators.contains_key(handle)
                    &&& (item.0@, item.1@) == old(self)@.iterators[handle].item()
                    &&& final(self)@ == old(self)@.with_cursor_advanced(handle)
                },
                Err(e) => {
                    &&& !old(self)@.iterators.contains_key(handle)
                    &&& e == SimpleVMError::IteratorDoesNotExist
                    &&& final(self)@ == old(self)@
                },
            },
    {
        proof {
            use_type_invariant(&*self);
        }
        let mut iterators: BTreeMap<u32, Iter> = BTreeMap::new();
        core::mem::swap(&mut self.iterators, &mut iterators);
        let r = match iterators.remove(&handle) {
            Some(mut cursor) => {
                let item = cursor.next();
                iterators.insert(handle, cursor);
                Ok(item)
            },
            None => Err(SimpleVMError::IteratorDoesNotExist),
        };
        self.iterators = iterators;
        proof {
            if r is Ok {
                assert(final(self)@.iterators =~= old(self)@.iterators.insert(
                    handle,
                    old(self)@.iterators[handle].advanced(),
                ));
            } else {
                assert(final(self)@.iterators =~= old(self)@.iterators);
            }
        }
        r
    }
}

/// The entries of `entries`, last first.
fn reversed(entries: Vec<(Vec<u8>, Vec<u8>)>) -> (backwards: Vec<(Vec<u8>, Vec<u8>)>)
    ensures
        byte_pairs(backwards@) == byte_pairs(entries@).reverse(),
{
    let mut rest = entries;
    let mut out: Vec<(Vec<u8>, Vec<u8>)> = Vec::new();
    let ghost all = byte_pairs(entries@);
    while rest.len() > 0
        invariant
            byte_pairs(rest@) == all.subrange(0, rest@.len() as int),
            rest@.len() <= all.len(),
            out@.len() == all.len() - rest@.len(),
            forall|i: int|
                0 <= i < out@.len() ==> (#[trigger] byte_pairs(out@)[i]) == all[all.len() - 1 - i],
        decreases rest@.len(),
    {
        let ghost before = rest@;
        let ghost done = out@;
        let entry = rest.pop().unwrap();
        proof {
            assert(byte_pairs(before)[before.len() - 1] == (entry.0@, entry.1@));
            assert(byte_pairs(rest@) =~= all.subrange(0, rest@.len() as int));
        }
        out.push(entry);
        proof {
            assert forall|i: int| 0 <= i < out@.len() implies (#[trigger] byte_pairs(out@)[i])
                == all[all.len() - 1 - i] by {
                if i < done.len() {
                    assert(byte_pairs(done)[i] == all[all.len() - 1 - i]);
                }
            }
        }
    }
    assert(byte_pairs(out@) =~= all.reverse());
    out
}

} // verus!
