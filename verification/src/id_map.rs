//! A map from identifiers to values that also lists what it holds.

use rustc_hash::{FxBuildHasher, FxHashMap};
use vstd::prelude::*;

verus! {

/// The hasher of [`FxHashMap`], carried by the map and never looked into.
#[verifier::external_type_specification]
#[verifier::external_body]
pub struct ExFxBuildHasher(FxBuildHasher);

/// What a hash map from identifiers to places holds.
pub uninterp spec fn places_in(map: FxHashMap<String, usize>) -> Map<Seq<char>, usize>;

/// Calls `FxHashMap::default`: the map that it makes holds nothing.
#[verifier::external_body]
fn no_places() -> (map: FxHashMap<String, usize>)
    ensures
        forall|id: Seq<char>| !places_in(map).contains_key(id),
{
    FxHashMap::default()
}

/// Calls `HashMap::get` on the map and copies the place that it finds: the
/// place is that of the identifier with these characters, if the map has it.
#[verifier::external_body]
fn place_of(map: &FxHashMap<String, usize>, id: &str) -> (place: Option<usize>)
    ensures
        place == if places_in(*map).contains_key(id@) { Some(places_in(*map)[id@]) } else { None },
{
    map.get(id).copied()
}

/// Calls `HashMap::insert` on the map: afterwards the identifier with these
/// characters has this place, and every other one is as before.
#[verifier::external_body]
fn put_place(map: &mut FxHashMap<String, usize>, id: String, place: usize)
    ensures
        places_in(*final(map)) == places_in(*old(map)).insert(id@, place),
{
    map.insert(id, place);
}

/// Calls `HashMap::remove` on the map: afterwards the identifier with these
/// characters has no place, and every other one is as before.
#[verifier::external_body]
fn drop_place(map: &mut FxHashMap<String, usize>, id: &str)
    ensures
        places_in(*final(map)) == places_in(*old(map)).remove(id@),
{
    map.remove(id);
}

/// Values by identifier.
///
/// The view is the map from the identifiers' characters to the values.
pub struct IdMap<T> {
    index: FxHashMap<String, usize>,
    ids: Vec<String>,
    items: Vec<T>,
}

impl<T> View for IdMap<T> {
    type V = Map<Seq<char>, T>;

    closed spec fn view(&self) -> Map<Seq<char>, T> {
        Map::new(
            |id: Seq<char>| places_in(self.index).contains_key(id),
            |id: Seq<char>| self.items@[places_in(self.index)[id] as int],
        )
    }
}

impl<T> IdMap<T> {
    /// The index leads to exactly the listed identifiers and values.
    pub closed spec fn wf(&self) -> bool {
        &&& self.ids@.len() == self.items@.len()
        &&& forall|i: int|
            #![trigger self.ids@[i]]
            0 <= i < self.ids@.len() ==> places_in(self.index).contains_key(self.ids@[i]@) && places_in(
                self.index,
            )[self.ids@[i]@] == i
        &&& forall|id: Seq<char>| #[trigger]
            places_in(self.index).contains_key(id) ==> places_in(self.index)[id] < self.ids@.len()
                && self.ids@[places_in(self.index)[id] as int]@ == id
    }

    /// The values in the order in which they are listed.
    pub closed spec fn listed(&self) -> Seq<T> {
        self.items@
    }

    /// The identifiers in the order in which they are listed.
    pub closed spec fn listed_ids(&self) -> Seq<Seq<char>> {
        crate::text::texts(self.ids@)
    }

    /// Every value is listed once, under its identifier.
    pub proof fn lemma_listed(&self)
        requires
            self.wf(),
        ensures
            self.listed().len() == self.listed_ids().len(),
            forall|i: int|
                #![trigger self.listed_ids()[i]]
                0 <= i < self.listed_ids().len() ==> self@.contains_key(self.listed_ids()[i]) && self@[self.listed_ids()[i]]
                    == self.listed()[i],
            forall|id: Seq<char>| #[trigger] self@.contains_key(id) ==> self.listed_ids().contains(id),
            self.listed_ids().no_duplicates(),
    {
        assert forall|i: int|
            #![trigger self.listed_ids()[i]]
            0 <= i < self.listed_ids().len() implies self@.contains_key(self.listed_ids()[i])
            && self@[self.listed_ids()[i]] == self.listed()[i] by {
            assert(self.listed_ids()[i] == self.ids@[i]@);
        }
        assert forall|id: Seq<char>| #[trigger] self@.contains_key(id) implies self.listed_ids().contains(id) by {
            let i = places_in(self.index)[id] as int;
            assert(self.listed_ids()[i] == id);
        }
        assert forall|i: int, j: int|
            0 <= i < self.listed_ids().len() && 0 <= j < self.listed_ids().len() && i
                != j implies self.listed_ids()[i] != self.listed_ids()[j] by {
            assert(self.listed_ids()[i] == self.ids@[i]@);
            assert(self.listed_ids()[j] == self.ids@[j]@);
        }
    }

    /// An empty map.
    pub fn new() -> (map: Self)
        ensures
            map.wf(),
            map@ == Map::<Seq<char>, T>::empty(),
            map.listed().len() == 0,
    {
        let map = IdMap { index: no_places(), ids: Vec::new(), items: Vec::new() };
        assert(map@ =~= Map::<Seq<char>, T>::empty());
        map
    }

    /// Number of values.
    pub fn len(&self) -> (n: usize)
        requires
            self.wf(),
        ensures
            n == self.listed().len(),
            n == self.listed_ids().len(),
    {
        self.items.len()
    }

    /// Whether there is no value.
    pub fn is_empty(&self) -> (empty: bool)
        requires
            self.wf(),
        ensures
            empty == (self@ == Map::<Seq<char>, T>::empty()),
    {
        let empty = self.items.len() == 0;
        proof {
            if empty {
                assert(self@ =~= Map::<Seq<char>, T>::empty());
            } else {
                assert(self@.contains_key(self.ids@[0]@));
            }
        }
        empty
    }

    /// Whether the identifier has a value.
    pub fn contains(&self, id: &str) -> (found: bool)
        requires
            self.wf(),
        ensures
            found == self@.contains_key(id@),
    {
        place_of(&self.index, id).is_some()
    }

    /// The value of the identifier, if it has one.
    pub fn get(&self, id: &str) -> (value: Option<&T>)
        requires
            self.wf(),
        ensures
            value == if self@.contains_key(id@) { Some(&self@[id@]) } else { None },
    {
        match place_of(&self.index, id) {
            Some(i) => Some(&self.items[i]),
            None => None,
        }
    }

    /// The identifier and the value listed at a place.
    pub fn at(&self, i: usize) -> (entry: (&String, &T))
        requires
            self.wf(),
            i < self.listed().len(),
        ensures
            entry.0@ == self.listed_ids()[i as int],
            *entry.1 == self.listed()[i as int],
            self@.contains_key(entry.0@),
            self@[entry.0@] == *entry.1,
    {
        (&self.ids[i], &self.items[i])
    }

    /// Gives the identifier a value, in place of any that it had.
    pub fn insert(&mut self, id: String, value: T)
        requires
            old(self).wf(),
        ensures
            final(self).wf(),
            final(self)@ == old(self)@.insert(id@, value),
    {
        let ghost before = places_in(self.index);
        match place_of(&self.index, id.as_str()) {
            Some(i) => {
                self.items.set(i, value);
                assert(self@ =~= old(self)@.insert(id@, value));
            },
            None => {
                let place: usize = self.ids.len();
                let ghost key = id@;
                put_place(&mut self.index, id.clone(), place);
                self.ids.push(id);
                self.items.push(value);
                proof {
                    assert forall|i: int|
                        #![trigger self.ids@[i]]
                        0 <= i < self.ids@.len() implies places_in(self.index).contains_key(self.ids@[i]@)
                        && places_in(self.index)[self.ids@[i]@] == i by {
                        if i < place {
                            assert(before.contains_key(old(self).ids@[i]@));
                        }
                    }
                    assert forall|other: Seq<char>| #[trigger]
                        places_in(self.index).contains_key(other) implies places_in(self.index)[other]
                        < self.ids@.len() && self.ids@[places_in(self.index)[other] as int]@ == other by {
                        if other != key {
                            assert(before.contains_key(other));
                        }
                    }
                    assert(self@ =~= old(self)@.insert(key, value));
                }
            },
        }
    }

    /// Takes the identifier out and returns the value that it had.
    pub fn remove(&mut self, id: &str) -> (value: Option<T>)
        requires
            old(self).wf(),
        ensures
            final(self).wf(),
            final(self)@ == old(self)@.remove(id@),
            value == if old(self)@.contains_key(id@) { Some(old(self)@[id@]) } else { None },
    {
        let ghost before = places_in(self.index);
        let ghost old_ids = self.ids@;
        let ghost old_items = self.items@;
        match place_of(&self.index, id) {
            None => {
                assert(self@ =~= old(self)@.remove(id@));
                None
            },
            Some(i) => {
                drop_place(&mut self.index, id);
                let removed_id = self.ids.swap_remove(i);
                let value = self.items.swap_remove(i);
                if i < self.ids.len() {
                    let moved = self.ids[i].clone();
                    put_place(&mut self.index, moved, i);
                }
                proof {
                    let last = old_ids.len() - 1;
                    let after = places_in(self.index);
                    assert forall|k: int|
                        #![trigger self.ids@[k]]
                        0 <= k < self.ids@.len() implies after.contains_key(self.ids@[k]@)
                        && after[self.ids@[k]@] == k by {
                        let origin = if k == i { last } else { k };
                        assert(self.ids@[k] == old_ids[origin]);
                        assert(before.contains_key(old_ids[origin]@) && before[old_ids[origin]@] == origin);
                        assert(before.contains_key(old_ids[i as int]@));
                        assert(before.contains_key(old_ids[last]@) && before[old_ids[last]@] == last);
                    }
                    assert forall|other: Seq<char>| #[trigger] after.contains_key(other) implies after[other]
                        < self.ids@.len() && self.ids@[after[other] as int]@ == other by {
                        assert(before.contains_key(old_ids[last]@) && before[old_ids[last]@] == last);
                        if i < last && other == old_ids[last]@ {
                            assert(after[other] == i);
                        } else {
                            assert(before.contains_key(other));
                            assert(before[other] != i);
                            assert(before[other] != last);
                        }
                    }
                    assert forall|other: Seq<char>| after.contains_key(other) <==> (before.contains_key(other)
                        && other != id@) by {
                        assert(before.contains_key(old_ids[last]@));
                        if i < last {
                            assert(old_ids[last]@ != id@);
                        }
                    }
                    assert(self@ =~= old(self)@.remove(id@)) by {
                        assert forall|other: Seq<char>| after.contains_key(other) implies self.items@[after[other] as int]
                            == old_items[before[other] as int] by {
                            assert(before.contains_key(other));
                            assert(before.contains_key(old_ids[last]@) && before[old_ids[last]@] == last);
                            if i < last && other == old_ids[last]@ {
                                assert(after[other] == i);
                            } else {
                                assert(after[other] == before[other]);
                            }
                        }
                    }
                }
                Some(value)
            },
        }
    }

    /// Takes everything out.
    pub fn clear(&mut self)
        ensures
            final(self).wf(),
            final(self)@ == Map::<Seq<char>, T>::empty(),
            final(self).listed().len() == 0,
    {
        self.index = no_places();
        self.ids = Vec::new();
        self.items = Vec::new();
        assert(self@ =~= Map::<Seq<char>, T>::empty());
    }
}

} // verus!
