//! Values found by a number that the guest chose.
use std::collections::HashMap;
use vstd::prelude::*;

verus! {

/// Values found by a number.
pub struct Slots<V> {
    pub entries: HashMap<i32, V>,
}

impl<V: View> View for Slots<V> {
    type V = Map<i32, V::V>;

    open spec fn view(&self) -> Map<i32, V::V> {
        self.entries@.map_values(|v: V| v@)
    }
}

impl<V: View> Slots<V> {
    /// Without any entry.
    pub fn new() -> (r: Slots<V>)
        ensures
            r@ == Map::<i32, V::V>::empty(),
    {
        let r: Slots<V> = Slots { entries: HashMap::new() };
        assert(r@ =~= Map::empty());
        r
    }

    /// The value for a key.
    pub fn get(&self, key: i32) -> (r: Option<&V>)
        ensures
            match r {
                Some(v) => self@.contains_key(key) && self@[key] == v@,
                None => !self@.contains_key(key),
            },
    {
        self.entries.get(&key)
    }

    /// Whether there is a value for a key.
    pub fn has(&self, key: i32) -> (r: bool)
        ensures
            r == self@.contains_key(key),
    {
        self.entries.contains_key(&key)
    }

    /// Gives a key its value, in place of the one it had.
    pub fn set(&mut self, key: i32, value: V)
        ensures
            final(self)@ == old(self)@.insert(key, value@),
    {
        let ghost m = self@.insert(key, value@);
        let _ = self.entries.insert(key, value);
        assert(self@ =~= m);
    }

    /// Takes the value of a key out.
    pub fn take(&mut self, key: i32) -> (r: Option<V>)
        ensures
            final(self)@ == old(self)@.remove(key),
            match r {
                Some(v) => old(self)@.contains_key(key) && old(self)@[key] == v@,
                None => !old(self)@.contains_key(key),
            },
    {
        let ghost m = self@.remove(key);
        let r = self.entries.remove(&key);
        assert(self@ =~= m);
        r
    }
}

} // verus!
