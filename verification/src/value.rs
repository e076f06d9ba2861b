//! The closed set of runtime values and the handles that tie them to an engine.

use vstd::prelude::*;

verus! {

/// Handle of a lexical environment held by an engine.
#[derive(Clone, Copy, Debug, PartialEq, Eq, Structural)]
pub struct EnvId(pub usize);

/// Handle of an object (a flat property map) held by an engine.
#[derive(Clone, Copy, Debug, PartialEq, Eq, Structural)]
pub struct ObjectId(pub usize);

/// Name of an executable body. The engine never looks inside a body: the host
/// that supplies function bodies chooses these names and runs what they stand for.
#[derive(Clone, Copy, Debug, PartialEq, Eq, Structural)]
pub struct BodyId(pub u64);

/// A closure: an opaque body paired with the environment that was active where
/// the function was created. Both parts are fixed at construction.
#[derive(Clone, Copy, Debug, PartialEq, Eq, Structural)]
pub struct FunctionBody {
    pub outer_env: EnvId,
    pub body: BodyId,
}

/// A runtime value.
///
/// `Number` carries the IEEE 754 binary64 bit pattern of the number; the core
/// stores and hands back numbers and never computes with them. Two `Object`
/// values with the same handle alias one property map.
#[derive(Debug, PartialEq)]
pub enum JsValue {
    Undefined,
    Number(u64),
    String(String),
    Object(ObjectId),
    Function(FunctionBody),
}

impl Clone for JsValue {
    fn clone(&self) -> (copy: Self)
        ensures
            copy == *self,
    {
        match self {
            JsValue::Undefined => JsValue::Undefined,
            JsValue::Number(bits) => JsValue::Number(*bits),
            JsValue::String(text) => JsValue::String(text.clone()),
            JsValue::Object(id) => JsValue::Object(*id),
            JsValue::Function(closure) => JsValue::Function(*closure),
        }
    }
}

/// What evaluating a callee expression produced.
///
/// `Value`: the expression was a bare value, such as an identifier lookup.
/// `Reference`: the expression was a property access off `base`.
#[derive(Debug, PartialEq)]
pub enum EvaluationResult {
    Value(JsValue),
    Reference { base: JsValue, property_name: String },
}

/// The two failures the core reports to its caller.
#[derive(Clone, Copy, Debug, PartialEq, Eq, Structural)]
pub enum EngineError {
    /// An identifier is bound nowhere on the scope chain that was searched.
    ReferenceError,
    /// A call was attempted on a value that is not a function.
    TypeError,
}

/// One entry of the call stack: the active environment and the receiver.
#[derive(Debug, PartialEq)]
pub struct ExecutionContext {
    pub lexical_env: EnvId,
    pub this_binding: JsValue,
}

impl Clone for ExecutionContext {
    fn clone(&self) -> (copy: Self)
        ensures
            copy == *self,
    {
        ExecutionContext { lexical_env: self.lexical_env, this_binding: self.this_binding.clone() }
    }
}

} // verus!
