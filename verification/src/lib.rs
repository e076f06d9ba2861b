//! Runtime core of a closure-capturing execution model: chained lexical
//! environments, function values that capture their defining environment, an
//! explicit call stack, and the dispatch rule that picks a call's receiver.

pub mod bindings;
pub mod engine;
pub mod environment;
pub mod laws;
pub mod state;
pub mod value;
