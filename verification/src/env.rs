//! The environment: what each name is bound to.

use vstd::prelude::*;
use vstd::hash_map::StringHashMap;
use crate::types::{BeeVal, Val};

verus! {

/// The bindings of one session, from a symbol's text to its value.
pub struct Env {
    map: StringHashMap<BeeVal>,
}

impl View for Env {
    type V = Map<Seq<char>, Val>;

    /// The bound names, each with the model of its value.
    closed spec fn view(&self) -> Map<Seq<char>, Val> {
        Map::new(|k: Seq<char>| self.map@.contains_key(k), |k: Seq<char>| self.map@[k]@)
    }
}

impl Env {
    /// The environment that binds no name.
    pub fn new() -> (r: Env)
        ensures
            r@ == Map::<Seq<char>, Val>::empty(),
    {
        let r = Env { map: StringHashMap::new() };
        r
    }

    /// Binds `name` to `value`, in place of what it was bound to before.
    pub fn insert(&mut self, name: String, value: BeeVal)
        ensures
            final(self)@ == old(self)@.insert(name@, value@),
    {
        self.map.insert(name, value);
    }

    /// What `name` is bound to, where it is bound.
    pub fn get(&self, name: &str) -> (r: Option<&BeeVal>)
        ensures
            match r {
                Some(v) => self@.contains_key(name@) && self@[name@] == v@,
                None => !self@.contains_key(name@),
            },
    {
        self.map.get(name)
    }
}

impl Default for Env {
    fn default() -> (r: Env)
        ensures
            r@ == Map::<Seq<char>, Val>::empty(),
    {
        Env::new()
    }
}

} // verus!
