//! One lexical environment: a frame of bindings with a link to the frame
//! that encloses it.

use vstd::prelude::*;
use crate::bindings::Bindings;
use crate::state::Scope;
use crate::value::{EnvId, JsValue};

verus! {

/// A mutable binding frame. The link to the enclosing frame is set when the
/// frame is created and never changes.
pub struct LexicalEnvironment {
    bindings: Bindings,
    outer: Option<EnvId>,
}

impl View for LexicalEnvironment {
    type V = Scope;

    closed spec fn view(&self) -> Scope {
        Scope { bindings: self.bindings@, outer: self.outer }
    }
}

impl LexicalEnvironment {
    /// A frame without bindings, enclosed by `outer`.
    pub fn new(outer: Option<EnvId>) -> (env: Self)
        ensures
            env@ == (Scope { bindings: Map::empty(), outer }),
    {
        LexicalEnvironment { bindings: Bindings::new(), outer }
    }

    /// A frame that starts with the given bindings, enclosed by `outer`.
    pub fn with_bindings(bindings: Bindings, outer: Option<EnvId>) -> (env: Self)
        ensures
            env@ == (Scope { bindings: bindings@, outer }),
    {
        LexicalEnvironment { bindings, outer }
    }

    /// Binds `name` to `value` in this frame, replacing an earlier binding
    /// of `name` in this frame.
    pub fn define(&mut self, name: String, value: JsValue)
        ensures
            final(self)@ == (Scope {
                bindings: old(self)@.bindings.insert(name@, value),
                outer: old(self)@.outer,
            }),
    {
        self.bindings.insert(name, value);
    }

    /// What this frame itself binds `name` to, if it binds it.
    pub fn lookup(&self, name: &str) -> (found: Option<&JsValue>)
        ensures
            found == (if self@.bindings.contains_key(name@) {
                Some(&self@.bindings[name@])
            } else {
                None
            }),
    {
        self.bindings.get(name)
    }

    /// The frame that encloses this one.
    pub fn outer(&self) -> (outer: Option<EnvId>)
        ensures
            outer == self@.outer,
    {
        self.outer
    }
}

} // verus!
