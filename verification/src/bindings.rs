//! A finite map from names to values: the bindings of one frame, the
//! properties of one object, or the arguments of one call.

use vstd::prelude::*;
use vstd::hash_map::StringHashMap;
use crate::value::JsValue;

verus! {

/// A mutable map from names to values. Its view is the mathematical map.
pub struct Bindings {
    entries: StringHashMap<JsValue>,
}

impl View for Bindings {
    type V = Map<Seq<char>, JsValue>;

    closed spec fn view(&self) -> Map<Seq<char>, JsValue> {
        self.entries@
    }
}

impl Bindings {
    /// The empty map.
    pub fn new() -> (empty: Self)
        ensures
            empty@ == Map::<Seq<char>, JsValue>::empty(),
    {
        Bindings { entries: StringHashMap::new() }
    }

    /// Binds `name` to `value`, replacing what `name` was bound to before.
    pub fn insert(&mut self, name: String, value: JsValue)
        ensures
            final(self)@ == old(self)@.insert(name@, value),
    {
        self.entries.insert(name, value);
    }

    /// The value bound to `name`, if there is one.
    pub fn get(&self, name: &str) -> (found: Option<&JsValue>)
        ensures
            found == (if self@.contains_key(name@) {
                Some(&self@[name@])
            } else {
                None
            }),
    {
        self.entries.get(name)
    }

    /// Whether `name` is bound.
    pub fn contains(&self, name: &str) -> (bound: bool)
        ensures
            bound == self@.contains_key(name@),
    {
        self.entries.contains_key(name)
    }
}

} // verus!
