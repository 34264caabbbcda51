//! Values filed under texts. Nothing that was filed is ever taken out.

use vstd::hash_map::StringHashMap;
use vstd::prelude::*;

verus! {

/// Values filed under texts: an index from text to place, and the places.
pub struct KeyedStore<T> {
    index: StringHashMap<usize>,
    slots: Vec<T>,
}

impl<T> View for KeyedStore<T> {
    type V = Map<Seq<char>, T>;

    closed spec fn view(&self) -> Map<Seq<char>, T> {
        Map::new(
            |k: Seq<char>| self.index@.contains_key(k),
            |k: Seq<char>| self.slots@[self.index@[k] as int],
        )
    }
}

impl<T> KeyedStore<T> {
    /// Every text leads to a place of its own.
    pub closed spec fn wf(&self) -> bool {
        &&& forall|k: Seq<char>| #[trigger]
            self.index@.contains_key(k) ==> self.index@[k] < self.slots@.len()
        &&& forall|k: Seq<char>, l: Seq<char>|
            #![trigger self.index@.contains_key(k), self.index@.contains_key(l)]
            self.index@.contains_key(k) && self.index@.contains_key(l) && k != l ==> self.index@[k]
                != self.index@[l]
    }

    pub fn new() -> (store: Self)
        ensures
            store.wf(),
            store@ == Map::<Seq<char>, T>::empty(),
    {
        let store = KeyedStore { index: StringHashMap::new(), slots: Vec::new() };
        assert(store@ =~= Map::<Seq<char>, T>::empty());
        store
    }

    pub fn contains_key(&self, key: &str) -> (res: bool)
        ensures
            res == self@.contains_key(key@),
    {
        self.index.contains_key(key)
    }

    pub fn get(&self, key: &str) -> (res: Option<&T>)
        requires
            self.wf(),
        ensures
            match res {
                Some(value) => self@.contains_key(key@) && *value == self@[key@],
                None => !self@.contains_key(key@),
            },
    {
        match self.index.get(key) {
            Some(place) => Some(&self.slots[*place]),
            None => None,
        }
    }

    pub fn get_mut(&mut self, key: &str) -> (res: Option<&mut T>)
        requires
            old(self).wf(),
        ensures
            final(self).wf(),
            match res {
                Some(value) => {
                    &&& old(self)@.contains_key(key@)
                    &&& *value == old(self)@[key@]
                    &&& final(self)@ == old(self)@.insert(key@, *final(value))
                },
                None => !old(self)@.contains_key(key@) && final(self)@ == old(self)@,
            },
    {
        match self.index.get(key) {
            Some(place) => {
                let place = *place;
                Some(&mut self.slots[place])
            },
            None => None,
        }
    }

    /// Files a value, in place of one that was filed under the same text.
    pub fn insert(&mut self, key: String, value: T)
        requires
            old(self).wf(),
        ensures
            final(self).wf(),
            final(self)@ == old(self)@.insert(key@, value),
    {
        let ghost before = *self;
        match self.index.get(key.as_str()) {
            Some(place) => {
                let place = *place;
                self.slots[place] = value;
            },
            None => {
                let place = self.slots.len();
                self.slots.push(value);
                self.index.insert(key, place);
            },
        }
        assert(self@ =~= before@.insert(key@, value));
    }
}

} // verus!
