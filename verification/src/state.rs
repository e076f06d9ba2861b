//! The mathematical model of an engine: what its frames, objects and call
//! stack hold, and what each operation does to them.
//!
//! Everything here is ghost code: definitions and lemmas over sequences and
//! maps. The executable engine states its contracts against them.

use vstd::prelude::*;
use crate::value::{EnvId, ObjectId, FunctionBody, JsValue, EvaluationResult, ExecutionContext};

verus! {

/// What one lexical environment holds: its own bindings and the link to the
/// frame that encloses it. The link is fixed when the frame is created.
pub struct Scope {
    pub bindings: Map<Seq<char>, JsValue>,
    pub outer: Option<EnvId>,
}

/// What an engine holds. Frames and objects are numbered in the order of their
/// creation and are never removed; a handle is the number.
pub struct EngineState {
    pub envs: Seq<Scope>,
    pub objects: Seq<Map<Seq<char>, JsValue>>,
    pub stack: Seq<ExecutionContext>,
    pub global_object: ObjectId,
}

impl EngineState {
    /// The handle of the global environment.
    pub open spec fn global_env() -> EnvId {
        EnvId(0)
    }

    /// A freshly started engine: one empty global frame, one empty global
    /// object, and the global context alone on the stack.
    pub open spec fn initial() -> EngineState {
        EngineState {
            envs: seq![Scope { bindings: Map::empty(), outer: None }],
            objects: seq![Map::empty()],
            stack: seq![
                ExecutionContext {
                    lexical_env: EnvId(0),
                    this_binding: JsValue::Object(ObjectId(0)),
                },
            ],
            global_object: ObjectId(0),
        }
    }

    /// `env` names a frame of this engine.
    pub open spec fn has_env(self, env: EnvId) -> bool {
        env.0 < self.envs.len()
    }

    /// `object` names an object of this engine.
    pub open spec fn has_object(self, object: ObjectId) -> bool {
        object.0 < self.objects.len()
    }

    /// Every handle inside `value` names something of this engine.
    pub open spec fn owns(self, value: JsValue) -> bool {
        match value {
            JsValue::Object(object) => self.has_object(object),
            JsValue::Function(func) => self.has_env(func.outer_env),
            _ => true,
        }
    }

    /// Every value of `map` is owned by this engine.
    pub open spec fn owns_all(self, map: Map<Seq<char>, JsValue>) -> bool {
        forall|name: Seq<char>| #[trigger] map.contains_key(name) ==> self.owns(map[name])
    }

    /// The frame behind a handle.
    pub open spec fn scope(self, env: EnvId) -> Scope
        recommends
            self.has_env(env),
    {
        self.envs[env.0 as int]
    }

    /// `env` itself binds `name`.
    pub open spec fn binds(self, env: EnvId, name: Seq<char>) -> bool {
        self.has_env(env) && self.scope(env).bindings.contains_key(name)
    }

    /// The frame that encloses `env`, where there is one.
    pub open spec fn outer_of(self, env: EnvId) -> Option<EnvId> {
        if self.has_env(env) {
            match self.scope(env).outer {
                Some(outer) => if outer.0 < env.0 {
                    Some(outer)
                } else {
                    None
                },
                None => None,
            }
        } else {
            None
        }
    }

    /// The consistency that every operation keeps:
    /// the stack is never empty and its bottom is the global context; the
    /// global frame has no enclosing frame; every other link points to a frame
    /// created earlier, so links form a tree and never a cycle; and every
    /// handle stored anywhere names something of this engine.
    pub open spec fn wf(self) -> bool {
        &&& 1 <= self.envs.len() <= usize::MAX
        &&& 1 <= self.objects.len() <= usize::MAX
        &&& 1 <= self.stack.len()
        &&& self.has_object(self.global_object)
        &&& self.envs[0].outer is None
        &&& self.stack[0] == (ExecutionContext {
            lexical_env: Self::global_env(),
            this_binding: JsValue::Object(self.global_object),
        })
        &&& forall|i: int|
            0 <= i < self.envs.len() ==> match (#[trigger] self.envs[i]).outer {
                Some(outer) => outer.0 < i,
                None => true,
            }
        &&& forall|i: int| 0 <= i < self.envs.len() ==> self.owns_all((#[trigger] self.envs[i]).bindings)
        &&& forall|i: int| 0 <= i < self.objects.len() ==> self.owns_all(#[trigger] self.objects[i])
        &&& forall|i: int|
            0 <= i < self.stack.len() ==> self.has_env((#[trigger] self.stack[i]).lexical_env)
                && self.owns(self.stack[i].this_binding)
    }

    /// The scope chain that starts at `env`: `env`, the frame that encloses
    /// it, and so on outwards.
    pub open spec fn scope_chain(self, env: EnvId) -> Seq<EnvId>
        decreases env.0,
    {
        if !self.has_env(env) {
            Seq::empty()
        } else {
            match self.outer_of(env) {
                Some(outer) => seq![env] + self.scope_chain(outer),
                None => seq![env],
            }
        }
    }

    /// Identifier lookup: the binding of `name` in `env` if `env` binds it,
    /// else whatever lookup gives from the enclosing frame; nothing once the
    /// chain is exhausted.
    pub open spec fn resolve(self, env: EnvId, name: Seq<char>) -> Option<JsValue>
        decreases env.0,
    {
        if self.binds(env, name) {
            Some(self.scope(env).bindings[name])
        } else {
            match self.outer_of(env) {
                Some(outer) => self.resolve(outer, name),
                None => None,
            }
        }
    }

    /// The context on top of the stack.
    pub open spec fn current_context(self) -> ExecutionContext
        recommends
            self.stack.len() > 0,
    {
        self.stack.last()
    }

    /// The number of contexts on the stack.
    pub open spec fn depth(self) -> nat {
        self.stack.len()
    }

    /// The state after a new, empty frame with the given link was created.
    /// The new frame's handle is the number of frames before.
    pub open spec fn create_environment(self, outer: Option<EnvId>) -> EngineState {
        EngineState { envs: self.envs.push(Scope { bindings: Map::empty(), outer }), ..self }
    }

    /// The state after `name` was bound to `value` in frame `env`, and in no
    /// other frame. Nothing changes where `env` names no frame.
    pub open spec fn define(self, env: EnvId, name: Seq<char>, value: JsValue) -> EngineState {
        if self.has_env(env) {
            EngineState {
                envs: self.envs.update(
                    env.0 as int,
                    Scope {
                        bindings: self.scope(env).bindings.insert(name, value),
                        outer: self.scope(env).outer,
                    },
                ),
                ..self
            }
        } else {
            self
        }
    }

    /// The state after a new object with the given properties was created.
    /// The new object's handle is the number of objects before.
    pub open spec fn new_object(self, props: Map<Seq<char>, JsValue>) -> EngineState {
        EngineState { objects: self.objects.push(props), ..self }
    }

    /// The state after property `name` of `base` was set to `value`: the
    /// property map of `base` has the new entry where `base` is an object of
    /// this engine, and nothing changes for any other value.
    pub open spec fn set_property(self, base: JsValue, name: Seq<char>, value: JsValue) -> EngineState {
        match base {
            JsValue::Object(object) => if self.has_object(object) {
                EngineState {
                    objects: self.objects.update(
                        object.0 as int,
                        self.objects[object.0 as int].insert(name, value),
                    ),
                    ..self
                }
            } else {
                self
            },
            _ => self,
        }
    }

    /// Member access: the property `name` of `base` where `base` is an object
    /// of this engine that has it, and `Undefined` in every other case.
    pub open spec fn get_property(self, base: JsValue, name: Seq<char>) -> JsValue {
        match base {
            JsValue::Object(object) => if self.has_object(object) && self.objects[object.0 as int].contains_key(
                name,
            ) {
                self.objects[object.0 as int][name]
            } else {
                JsValue::Undefined
            },
            _ => JsValue::Undefined,
        }
    }

    /// The value that a call through `target` calls: the property read off
    /// the base for a reference, the value itself otherwise.
    pub open spec fn callee_of(self, target: EvaluationResult) -> JsValue {
        match target {
            EvaluationResult::Reference { base, property_name } => self.get_property(base, property_name@),
            EvaluationResult::Value(value) => value,
        }
    }

    /// The receiver of a call through `target`: the base for a reference,
    /// the global object otherwise.
    pub open spec fn receiver_of(self, target: EvaluationResult) -> JsValue {
        match target {
            EvaluationResult::Reference { base, property_name } => base,
            EvaluationResult::Value(value) => JsValue::Object(self.global_object),
        }
    }

    /// Every handle inside `target` names something of this engine.
    pub open spec fn owns_target(self, target: EvaluationResult) -> bool {
        match target {
            EvaluationResult::Reference { base, property_name } => self.owns(base),
            EvaluationResult::Value(value) => self.owns(value),
        }
    }

    /// The handle that the next frame to be created will get.
    pub open spec fn next_env(self) -> EnvId {
        EnvId(self.envs.len() as usize)
    }

    /// The state when a call of `func` begins: a new frame holds the
    /// arguments and is linked to the frame that `func` captured, and a new
    /// context with that frame and the receiver is on top of the stack.
    pub open spec fn begin_call(self, func: FunctionBody, this_arg: JsValue, args: Map<Seq<char>, JsValue>) -> EngineState {
        EngineState {
            envs: self.envs.push(Scope { bindings: args, outer: Some(func.outer_env) }),
            stack: self.stack.push(
                ExecutionContext { lexical_env: self.next_env(), this_binding: this_arg },
            ),
            ..self
        }
    }

    /// The state when the running call ends: its context is gone from the
    /// stack; frames and objects stay as they are.
    pub open spec fn finish_call(self) -> EngineState {
        EngineState { stack: self.stack.drop_last(), ..self }
    }

    /// This state continues `earlier`: every frame and object of `earlier`
    /// is still there, every frame has the link it had, and the global object
    /// is the same. Bindings and properties may have changed, and frames and
    /// objects may have been added.
    pub open spec fn extends(self, earlier: EngineState) -> bool {
        &&& self.envs.len() >= earlier.envs.len()
        &&& self.objects.len() >= earlier.objects.len()
        &&& self.global_object == earlier.global_object
        &&& forall|i: int| 0 <= i < earlier.envs.len() ==> (#[trigger] self.envs[i]).outer == earlier.envs[i].outer
    }
}

/// Creating a frame keeps the state consistent, provided that the link names
/// a frame of the engine and that there is room for one more handle.
pub proof fn lemma_create_environment_wf(s: EngineState, outer: Option<EnvId>)
    requires
        s.wf(),
        s.envs.len() < usize::MAX,
        match outer {
            Some(env) => s.has_env(env),
            None => true,
        },
    ensures
        s.create_environment(outer).wf(),
{
    let t = s.create_environment(outer);
    assert forall|i: int| 0 <= i < t.envs.len() implies t.owns_all((#[trigger] t.envs[i]).bindings) by {
        if i < s.envs.len() {
            assert(s.owns_all(s.envs[i].bindings));
        }
    }
    assert forall|i: int| 0 <= i < t.objects.len() implies t.owns_all(#[trigger] t.objects[i]) by {
        assert(s.owns_all(s.objects[i]));
    }
}

/// Binding a name keeps the state consistent, provided that the frame and
/// the value belong to the engine.
pub proof fn lemma_define_wf(s: EngineState, env: EnvId, name: Seq<char>, value: JsValue)
    requires
        s.wf(),
        s.has_env(env),
        s.owns(value),
    ensures
        s.define(env, name, value).wf(),
{
    let t = s.define(env, name, value);
    assert forall|i: int| 0 <= i < t.envs.len() implies t.owns_all((#[trigger] t.envs[i]).bindings) by {
        assert(s.owns_all(s.envs[i].bindings));
    }
    assert forall|i: int| 0 <= i < t.objects.len() implies t.owns_all(#[trigger] t.objects[i]) by {
        assert(s.owns_all(s.objects[i]));
    }
}

/// Creating an object keeps the state consistent, provided that the
/// properties belong to the engine and that there is room for one more handle.
pub proof fn lemma_new_object_wf(s: EngineState, props: Map<Seq<char>, JsValue>)
    requires
        s.wf(),
        s.objects.len() < usize::MAX,
        s.owns_all(props),
    ensures
        s.new_object(props).wf(),
        s.new_object(props).owns(JsValue::Object(ObjectId(s.objects.len() as usize))),
{
    let t = s.new_object(props);
    assert forall|i: int| 0 <= i < t.envs.len() implies t.owns_all((#[trigger] t.envs[i]).bindings) by {
        assert(s.owns_all(s.envs[i].bindings));
    }
    assert forall|i: int| 0 <= i < t.objects.len() implies t.owns_all(#[trigger] t.objects[i]) by {
        if i < s.objects.len() {
            assert(s.owns_all(s.objects[i]));
        }
    }
}

/// Setting a property keeps the state consistent, provided that the value
/// belongs to the engine.
pub proof fn lemma_set_property_wf(s: EngineState, base: JsValue, name: Seq<char>, value: JsValue)
    requires
        s.wf(),
        s.owns(value),
    ensures
        s.set_property(base, name, value).wf(),
{
    let t = s.set_property(base, name, value);
    assert forall|i: int| 0 <= i < t.envs.len() implies t.owns_all((#[trigger] t.envs[i]).bindings) by {
        assert(s.owns_all(s.envs[i].bindings));
    }
    assert forall|i: int| 0 <= i < t.objects.len() implies t.owns_all(#[trigger] t.objects[i]) by {
        assert(s.owns_all(s.objects[i]));
    }
}

/// Beginning a call keeps the state consistent, provided that the closure,
/// the receiver and the arguments belong to the engine and that there is room
/// for one more handle.
pub proof fn lemma_begin_call_wf(
    s: EngineState,
    func: FunctionBody,
    this_arg: JsValue,
    args: Map<Seq<char>, JsValue>,
)
    requires
        s.wf(),
        s.envs.len() < usize::MAX,
        s.has_env(func.outer_env),
        s.owns(this_arg),
        s.owns_all(args),
    ensures
        s.begin_call(func, this_arg, args).wf(),
{
    let t = s.begin_call(func, this_arg, args);
    assert forall|i: int| 0 <= i < t.envs.len() implies t.owns_all((#[trigger] t.envs[i]).bindings) by {
        if i < s.envs.len() {
            assert(s.owns_all(s.envs[i].bindings));
        }
    }
    assert forall|i: int| 0 <= i < t.objects.len() implies t.owns_all(#[trigger] t.objects[i]) by {
        assert(s.owns_all(s.objects[i]));
    }
    assert forall|i: int| 0 <= i < t.stack.len() implies t.has_env((#[trigger] t.stack[i]).lexical_env)
        && t.owns(t.stack[i].this_binding) by {
        if i < s.stack.len() {
            assert(s.has_env(s.stack[i].lexical_env));
        }
    }
}

/// Ending a call keeps the state consistent, provided that a call is
/// running, that is, that the stack holds more than the global context.
pub proof fn lemma_finish_call_wf(s: EngineState)
    requires
        s.wf(),
        s.depth() > 1,
    ensures
        s.finish_call().wf(),
{
    let t = s.finish_call();
    assert forall|i: int| 0 <= i < t.stack.len() implies t.has_env((#[trigger] t.stack[i]).lexical_env)
        && t.owns(t.stack[i].this_binding) by {
        assert(s.has_env(s.stack[i].lexical_env));
    }
}

/// What lookup and member access hand back belongs to the engine.
pub proof fn lemma_reads_are_owned(s: EngineState, env: EnvId, base: JsValue, name: Seq<char>)
    requires
        s.wf(),
    ensures
        match s.resolve(env, name) {
            Some(value) => s.owns(value),
            None => true,
        },
        s.owns(s.get_property(base, name)),
    decreases env.0,
{
    if s.binds(env, name) {
        assert(s.owns_all(s.envs[env.0 as int].bindings));
    } else {
        match s.outer_of(env) {
            Some(outer) => {
                lemma_reads_are_owned(s, outer, base, name);
            },
            None => {},
        }
    }
    match base {
        JsValue::Object(object) => {
            if s.has_object(object) {
                assert(s.owns_all(s.objects[object.0 as int]));
            }
        },
        _ => {},
    }
}

} // verus!
