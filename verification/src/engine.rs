//! The executable engine: frames, objects and the call stack, with the
//! operations that a host evaluator drives.
//!
//! Function bodies are opaque to the engine. A function value names its body,
//! and a call hands that name to the evaluator that the host passes in, between
//! pushing the context of the call and popping it.

use vstd::prelude::*;
use crate::bindings::Bindings;
use crate::environment::LexicalEnvironment;
use crate::state::{EngineState, Scope, lemma_create_environment_wf, lemma_define_wf, lemma_new_object_wf, lemma_set_property_wf, lemma_begin_call_wf, lemma_finish_call_wf, lemma_reads_are_owned};
use crate::value::{BodyId, EngineError, EnvId, EvaluationResult, ExecutionContext, FunctionBody, JsValue, ObjectId};

verus! {

/// An engine instance. Frames and objects live in the engine and are named
/// by handles, so that closures, objects and stack entries can share them.
pub struct JsEngine {
    envs: Vec<LexicalEnvironment>,
    objects: Vec<Bindings>,
    stack: Vec<ExecutionContext>,
    global_object: ObjectId,
}

impl View for JsEngine {
    type V = EngineState;

    closed spec fn view(&self) -> EngineState {
        EngineState {
            envs: Seq::new(self.envs@.len(), |i: int| self.envs@[i]@),
            objects: Seq::new(self.objects@.len(), |i: int| self.objects@[i]@),
            stack: self.stack@,
            global_object: self.global_object,
        }
    }
}

impl JsEngine {
    /// The engine is consistent, as `EngineState::wf` says of its state.
    pub open spec fn wf(&self) -> bool {
        self@.wf()
    }

    /// Starts an engine: an empty global environment, an empty global object,
    /// and a stack that holds the global context.
    pub fn new() -> (engine: Self)
        ensures
            engine@ == EngineState::initial(),
            engine.wf(),
    {
        let mut envs: Vec<LexicalEnvironment> = Vec::new();
        envs.push(LexicalEnvironment::new(None));
        let mut objects: Vec<Bindings> = Vec::new();
        objects.push(Bindings::new());
        let mut stack: Vec<ExecutionContext> = Vec::new();
        stack.push(
            ExecutionContext { lexical_env: EnvId(0), this_binding: JsValue::Object(ObjectId(0)) },
        );
        let engine = JsEngine { envs, objects, stack, global_object: ObjectId(0) };
        assert(engine@.envs =~= EngineState::initial().envs);
        assert(engine@.objects =~= EngineState::initial().objects);
        assert(engine@.stack =~= EngineState::initial().stack);
        engine
    }

    /// The handle of the global environment.
    pub fn global_env(&self) -> (env: EnvId)
        ensures
            env == EngineState::global_env(),
    {
        EnvId(0)
    }

    /// The global object: the receiver of standalone calls.
    pub fn global_object(&self) -> (object: JsValue)
        ensures
            object == JsValue::Object(self@.global_object),
    {
        JsValue::Object(self.global_object)
    }

    /// Whether `env` names a frame of this engine.
    pub fn contains_env(&self, env: EnvId) -> (held: bool)
        ensures
            held == self@.has_env(env),
    {
        env.0 < self.envs.len()
    }

    /// Whether every handle inside `value` names something of this engine.
    pub fn contains_value(&self, value: &JsValue) -> (held: bool)
        ensures
            held == self@.owns(*value),
    {
        match value {
            JsValue::Object(object) => object.0 < self.objects.len(),
            JsValue::Function(func) => func.outer_env.0 < self.envs.len(),
            _ => true,
        }
    }

    /// The number of contexts on the call stack.
    pub fn depth(&self) -> (depth: usize)
        ensures
            depth == self@.depth(),
    {
        self.stack.len()
    }

    /// The context that is executing: the top of the stack.
    pub fn current_context(&self) -> (context: &ExecutionContext)
        requires
            self.wf(),
        ensures
            *context == self@.current_context(),
    {
        &self.stack[self.stack.len() - 1]
    }

    /// The receiver of the call that is executing.
    pub fn resolve_this(&self) -> (receiver: JsValue)
        requires
            self.wf(),
        ensures
            receiver == self@.current_context().this_binding,
    {
        self.current_context().this_binding.clone()
    }

    /// Identifier lookup from frame `env`: walks `env`, then the frame that
    /// encloses it, and so on, and returns the first binding of `name` that it
    /// meets. Fails with `ReferenceError` when no frame on the chain binds
    /// `name`.
    pub fn resolve(&self, env: EnvId, name: &str) -> (found: Result<JsValue, EngineError>)
        requires
            self.wf(),
            self@.has_env(env),
        ensures
            found == (match self@.resolve(env, name@) {
                Some(value) => Ok::<JsValue, EngineError>(value),
                None => Err(EngineError::ReferenceError),
            }),
    {
        let mut current: EnvId = env;
        loop
            invariant
                self.wf(),
                self@.has_env(current),
                self@.resolve(current, name@) == self@.resolve(env, name@),
            decreases current.0,
        {
            let frame = &self.envs[current.0];
            assert(frame@ == self@.scope(current));
            match frame.lookup(name) {
                Some(value) => {
                    return Ok(value.clone());
                },
                None => {},
            }
            match frame.outer() {
                Some(outer) => {
                    current = outer;
                },
                None => {
                    return Err(EngineError::ReferenceError);
                },
            }
        }
    }

    /// Identifier lookup from the environment of the executing context.
    pub fn resolve_variable(&self, name: &str) -> (found: Result<JsValue, EngineError>)
        requires
            self.wf(),
        ensures
            found == (match self@.resolve(self@.current_context().lexical_env, name@) {
                Some(value) => Ok::<JsValue, EngineError>(value),
                None => Err(EngineError::ReferenceError),
            }),
    {
        let env = self.current_context().lexical_env;
        self.resolve(env, name)
    }

    /// Creates an empty frame enclosed by `outer` and returns its handle.
    pub fn create_environment(&mut self, outer: Option<EnvId>) -> (env: EnvId)
        requires
            old(self).wf(),
            match outer {
                Some(enclosing) => old(self)@.has_env(enclosing),
                None => true,
            },
        ensures
            final(self).wf(),
            final(self)@ == old(self)@.create_environment(outer),
            env == old(self)@.next_env(),
            final(self)@.scope(env) == (Scope { bindings: Map::empty(), outer }),
    {
        let env = EnvId(self.envs.len());
        self.envs.push(LexicalEnvironment::new(outer));
        proof {
            assert(self.envs@.len() == self.envs.len() <= usize::MAX);
            assert(self@.envs =~= old(self)@.create_environment(outer).envs);
            assert(self@.objects =~= old(self)@.objects);
            lemma_create_environment_wf(old(self)@, outer);
        }
        env
    }

    /// Binds `name` to `value` in frame `env`, and in that frame only: a
    /// binding of the same name in another frame is shadowed, never changed.
    pub fn define(&mut self, env: EnvId, name: String, value: JsValue)
        requires
            old(self).wf(),
            old(self)@.has_env(env),
            old(self)@.owns(value),
        ensures
            final(self).wf(),
            final(self)@ == old(self)@.define(env, name@, value),
    {
        self.envs[env.0].define(name, value);
        proof {
            assert(self@.envs =~= old(self)@.define(env, name@, value).envs);
            assert(self@.objects =~= old(self)@.objects);
            lemma_define_wf(old(self)@, env, name@, value);
        }
    }

    /// Builds the function value that pairs `body` with the captured frame
    /// `captured`. Calls of it run with a frame enclosed by `captured`,
    /// whatever frame the caller runs in.
    pub fn make_function(&self, captured: EnvId, body: BodyId) -> (function: JsValue)
        requires
            self@.has_env(captured),
        ensures
            function == JsValue::Function(FunctionBody { outer_env: captured, body }),
            self@.owns(function),
    {
        JsValue::Function(FunctionBody { outer_env: captured, body })
    }

    /// Builds the function value for a function defined in the executing
    /// context: it captures the environment that is active now.
    pub fn make_closure(&self, body: BodyId) -> (function: JsValue)
        requires
            self.wf(),
        ensures
            function == JsValue::Function(
                FunctionBody { outer_env: self@.current_context().lexical_env, body },
            ),
            self@.owns(function),
    {
        let captured = self.current_context().lexical_env;
        JsValue::Function(FunctionBody { outer_env: captured, body })
    }

    /// The receiver decision. For a reference the callee is the property read
    /// off the base and the receiver is the base; for a bare value the callee
    /// is the value and the receiver is the global object. Returns the callee
    /// and the receiver, in this order.
    pub fn dispatch(&self, target: EvaluationResult) -> (decided: (JsValue, JsValue))
        ensures
            decided.0 == self@.callee_of(target),
            decided.1 == self@.receiver_of(target),
            match target {
                EvaluationResult::Reference { base, property_name } => decided.0 == self@.get_property(
                    base,
                    property_name@,
                ) && decided.1 == base,
                EvaluationResult::Value(value) => decided.0 == value && decided.1 == JsValue::Object(
                    self@.global_object,
                ),
            },
            self.wf() && self@.owns_target(target) ==> self@.owns(decided.0) && self@.owns(decided.1),
    {
        match target {
            EvaluationResult::Reference { base, property_name } => {
                let method = get_property(self, &base, property_name.as_str());
                proof {
                    if self.wf() {
                        lemma_reads_are_owned(self@, EngineState::global_env(), base, property_name@);
                    }
                }
                (method, base)
            },
            EvaluationResult::Value(value) => (value, self.global_object()),
        }
    }

    /// Begins a call of `func` with receiver `this_arg`: creates a frame that
    /// holds `args` and is enclosed by the frame that `func` captured, never by
    /// the caller's frame, and pushes a context with that frame and the
    /// receiver. Returns the body to run in the new context.
    pub fn begin_call(&mut self, func: FunctionBody, this_arg: JsValue, args: Bindings) -> (body: BodyId)
        requires
            old(self).wf(),
            old(self)@.has_env(func.outer_env),
            old(self)@.owns(this_arg),
            old(self)@.owns_all(args@),
        ensures
            final(self).wf(),
            final(self)@ == old(self)@.begin_call(func, this_arg, args@),
            final(self)@.depth() == old(self)@.depth() + 1,
            body == func.body,
    {
        let env = EnvId(self.envs.len());
        self.envs.push(LexicalEnvironment::with_bindings(args, Some(func.outer_env)));
        self.stack.push(ExecutionContext { lexical_env: env, this_binding: this_arg });
        proof {
            assert(self.envs@.len() == self.envs.len() <= usize::MAX);
            assert(self@.envs =~= old(self)@.begin_call(func, this_arg, args@).envs);
            assert(self@.objects =~= old(self)@.objects);
            lemma_begin_call_wf(old(self)@, func, this_arg, args@);
        }
        func.body
    }

    /// Ends the running call: pops its context. The frames and objects that
    /// the call created stay, for the closures and objects that refer to them.
    pub fn finish_call(&mut self)
        requires
            old(self).wf(),
            old(self)@.depth() > 1,
        ensures
            final(self).wf(),
            final(self)@ == old(self)@.finish_call(),
            final(self)@.depth() == old(self)@.depth() - 1,
    {
        self.stack.pop();
        proof {
            assert(self@.stack =~= old(self)@.finish_call().stack);
            assert(self@.envs =~= old(self)@.envs);
            assert(self@.objects =~= old(self)@.objects);
            lemma_finish_call_wf(old(self)@);
        }
    }

    /// Calls `func` with receiver `this_arg`: begins the call as `begin_call`
    /// does, has `run` run the body with the new context active, and pops the
    /// context whatever the body's outcome was, which it returns.
    ///
    /// `run` is the host's evaluator. It must accept every body in every
    /// consistent engine inside a call, and must hand the engine back
    /// consistent, with the stack it got and with no frame or object lost. An
    /// evaluator that drives the engine through `invoke` does so.
    pub fn call<F: Fn(&mut JsEngine, BodyId) -> Result<(), EngineError>>(
        &mut self,
        func: FunctionBody,
        this_arg: JsValue,
        args: Bindings,
        run: &F,
    ) -> (outcome: Result<(), EngineError>)
        requires
            old(self).wf(),
            old(self)@.has_env(func.outer_env),
            old(self)@.owns(this_arg),
            old(self)@.owns_all(args@),
            forall|engine: &mut JsEngine, body: BodyId|
                engine.wf() && engine@.depth() > 1 ==> call_requires(run, (engine, body)),
            forall|engine: &mut JsEngine, body: BodyId, result: Result<(), EngineError>|
                call_ensures(run, (engine, body), result) ==> final(engine).wf() && final(engine)@.stack
                    == engine@.stack && final(engine)@.extends(engine@),
        ensures
            final(self).wf(),
            final(self)@.stack == old(self)@.stack,
            final(self)@.extends(old(self)@),
            exists|engine: &mut JsEngine|
                engine@ == old(self)@.begin_call(func, this_arg, args@) && #[trigger] call_ensures(
                    run,
                    (engine, func.body),
                    outcome,
                ) && final(self)@ == final(engine)@.finish_call(),
    {
        let body = self.begin_call(func, this_arg, args);
        let outcome = run(self, body);
        self.finish_call();
        outcome
    }

    /// Calls `callee` with receiver `this_arg`. Fails with `TypeError`, pushes
    /// no context and changes nothing when `callee` is not a function;
    /// otherwise proceeds as `call` does.
    pub fn execute<F: Fn(&mut JsEngine, BodyId) -> Result<(), EngineError>>(
        &mut self,
        callee: JsValue,
        this_arg: JsValue,
        args: Bindings,
        run: &F,
    ) -> (outcome: Result<(), EngineError>)
        requires
            old(self).wf(),
            old(self)@.owns(callee),
            old(self)@.owns(this_arg),
            old(self)@.owns_all(args@),
            forall|engine: &mut JsEngine, body: BodyId|
                engine.wf() && engine@.depth() > 1 ==> call_requires(run, (engine, body)),
            forall|engine: &mut JsEngine, body: BodyId, result: Result<(), EngineError>|
                call_ensures(run, (engine, body), result) ==> final(engine).wf() && final(engine)@.stack
                    == engine@.stack && final(engine)@.extends(engine@),
        ensures
            final(self).wf(),
            final(self)@.stack == old(self)@.stack,
            final(self)@.extends(old(self)@),
            match callee {
                JsValue::Function(func) => exists|engine: &mut JsEngine|
                    engine@ == old(self)@.begin_call(func, this_arg, args@) && #[trigger] call_ensures(
                        run,
                        (engine, func.body),
                        outcome,
                    ) && final(self)@ == final(engine)@.finish_call(),
                _ => outcome == Err::<(), EngineError>(EngineError::TypeError) && final(self)@ == old(self)@,
            },
    {
        match callee {
            JsValue::Function(func) => self.call(func, this_arg, args, run),
            _ => Err(EngineError::TypeError),
        }
    }

    /// The single entry point for calls. Decides callee and receiver from the
    /// shape of `target` as `dispatch` does, then proceeds as `execute` does:
    /// a method call runs with the base as its receiver, a standalone call
    /// with the global object.
    pub fn invoke<F: Fn(&mut JsEngine, BodyId) -> Result<(), EngineError>>(
        &mut self,
        target: EvaluationResult,
        args: Bindings,
        run: &F,
    ) -> (outcome: Result<(), EngineError>)
        requires
            old(self).wf(),
            old(self)@.owns_target(target),
            old(self)@.owns_all(args@),
            forall|engine: &mut JsEngine, body: BodyId|
                engine.wf() && engine@.depth() > 1 ==> call_requires(run, (engine, body)),
            forall|engine: &mut JsEngine, body: BodyId, result: Result<(), EngineError>|
                call_ensures(run, (engine, body), result) ==> final(engine).wf() && final(engine)@.stack
                    == engine@.stack && final(engine)@.extends(engine@),
        ensures
            final(self).wf(),
            final(self)@.stack == old(self)@.stack,
            final(self)@.extends(old(self)@),
            match old(self)@.callee_of(target) {
                JsValue::Function(func) => exists|engine: &mut JsEngine|
                    engine@ == old(self)@.begin_call(func, old(self)@.receiver_of(target), args@)
                        && #[trigger] call_ensures(run, (engine, func.body), outcome)
                        && final(self)@ == final(engine)@.finish_call(),
                _ => outcome == Err::<(), EngineError>(EngineError::TypeError) && final(self)@ == old(self)@,
            },
    {
        let (callee, this_arg) = self.dispatch(target);
        self.execute(callee, this_arg, args, run)
    }
}

/// Member access. Returns the property `prop_name` of `obj` where `obj` is an
/// object of `engine` that has such a property, and `Undefined` in every other
/// case: for a value that is no object, and for a name that the object lacks.
/// It never fails.
pub fn get_property(engine: &JsEngine, obj: &JsValue, prop_name: &str) -> (value: JsValue)
    ensures
        value == engine@.get_property(*obj, prop_name@),
        !(*obj is Object) ==> value == JsValue::Undefined,
{
    match obj {
        JsValue::Object(object) => {
            if object.0 < engine.objects.len() {
                match engine.objects[object.0].get(prop_name) {
                    Some(value) => value.clone(),
                    None => JsValue::Undefined,
                }
            } else {
                JsValue::Undefined
            }
        },
        _ => JsValue::Undefined,
    }
}

/// The properties that an object is created with: those given, or none.
pub open spec fn initial_properties(props: Option<Bindings>) -> Map<Seq<char>, JsValue> {
    match props {
        Some(given) => given@,
        None => Map::empty(),
    }
}

/// Creates an object with the given properties, or without properties for
/// `None`, and returns the value that refers to it.
pub fn new_object(engine: &mut JsEngine, props: Option<Bindings>) -> (object: JsValue)
    requires
        old(engine).wf(),
        old(engine)@.owns_all(initial_properties(props)),
    ensures
        final(engine).wf(),
        final(engine)@ == old(engine)@.new_object(initial_properties(props)),
        object == JsValue::Object(ObjectId(old(engine)@.objects.len() as usize)),
        final(engine)@.owns(object),
{
    let ghost given = initial_properties(props);
    let id = ObjectId(engine.objects.len());
    let properties = match props {
        Some(given) => given,
        None => Bindings::new(),
    };
    engine.objects.push(properties);
    proof {
        assert(engine.objects@.len() == engine.objects.len() <= usize::MAX);
        assert(engine@.objects =~= old(engine)@.new_object(given).objects);
        assert(engine@.envs =~= old(engine)@.envs);
        lemma_new_object_wf(old(engine)@, given);
    }
    JsValue::Object(id)
}

/// Sets property `prop_name` of `obj` to `value`. Where `obj` is not an
/// object of `engine`, nothing changes.
pub fn set_property(engine: &mut JsEngine, obj: &JsValue, prop_name: String, value: JsValue)
    requires
        old(engine).wf(),
        old(engine)@.owns(value),
    ensures
        final(engine).wf(),
        final(engine)@ == old(engine)@.set_property(*obj, prop_name@, value),
{
    match obj {
        JsValue::Object(object) => {
            if object.0 < engine.objects.len() {
                engine.objects[object.0].insert(prop_name, value);
                proof {
                    assert(engine@.objects =~= old(engine)@.set_property(*obj, prop_name@, value).objects);
                    assert(engine@.envs =~= old(engine)@.envs);
                }
            }
        },
        _ => {},
    }
    proof {
        lemma_set_property_wf(old(engine)@, *obj, prop_name@, value);
    }
}

} // verus!
