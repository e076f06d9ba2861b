//! Laws of the engine: what holds of lookup, shadowing, closures and the call
//! stack in every state, proved from the model.

use vstd::prelude::*;
use crate::state::{
    lemma_begin_call_wf, lemma_create_environment_wf, lemma_define_wf, lemma_finish_call_wf, lemma_new_object_wf,
    lemma_reads_are_owned, lemma_set_property_wf, EngineState, Scope,
};
use crate::value::{EnvId, EvaluationResult, ExecutionContext, FunctionBody, JsValue};

verus! {

/// Frame number `at` of `chain` binds `name` and no frame before it does.
pub open spec fn is_nearest_binder(s: EngineState, chain: Seq<EnvId>, name: Seq<char>, at: int) -> bool {
    &&& 0 <= at < chain.len()
    &&& s.binds(chain[at], name)
    &&& forall|before: int| 0 <= before < at ==> !s.binds(#[trigger] chain[before], name)
}

/// The scope chain of a frame starts with the frame, goes from each frame to
/// the frame that encloses it, and ends with a frame that nothing encloses.
/// Handles get smaller along the chain, so no frame occurs twice.
pub proof fn law_scope_chain_follows_links(s: EngineState, env: EnvId)
    requires
        s.wf(),
        s.has_env(env),
    ensures
        s.scope_chain(env).len() >= 1,
        s.scope_chain(env)[0] == env,
        s.scope(s.scope_chain(env).last()).outer is None,
        forall|i: int| 0 <= i < s.scope_chain(env).len() ==> s.has_env(#[trigger] s.scope_chain(env)[i]),
        forall|i: int|
            0 <= i < s.scope_chain(env).len() - 1 ==> s.scope(#[trigger] s.scope_chain(env)[i]).outer == Some(
                s.scope_chain(env)[i + 1],
            ),
        forall|i: int, j: int|
            0 <= i < j < s.scope_chain(env).len() ==> (#[trigger] s.scope_chain(env)[j]).0 < (
            #[trigger] s.scope_chain(env)[i]).0,
    decreases env.0,
{
    let chain = s.scope_chain(env);
    assert(s.envs[env.0 as int] == s.scope(env));
    match s.outer_of(env) {
        Some(outer) => {
            law_scope_chain_follows_links(s, outer);
            let rest = s.scope_chain(outer);
            assert(chain == seq![env] + rest);
            assert(chain.last() == rest.last());
            assert forall|i: int| 0 <= i < chain.len() implies s.has_env(#[trigger] chain[i]) by {
                if i > 0 {
                    assert(chain[i] == rest[i - 1]);
                }
            }
            assert forall|i: int| 0 <= i < chain.len() - 1 implies s.scope(#[trigger] chain[i]).outer == Some(
                chain[i + 1],
            ) by {
                if i > 0 {
                    assert(chain[i] == rest[i - 1]);
                    assert(chain[i + 1] == rest[i]);
                } else {
                    assert(chain[1] == rest[0]);
                }
            }
            assert forall|i: int, j: int| 0 <= i < j < chain.len() implies (#[trigger] chain[j]).0 < (
            #[trigger] chain[i]).0 by {
                assert(chain[j] == rest[j - 1]);
                if i > 0 {
                    assert(chain[i] == rest[i - 1]);
                } else {
                    if j > 1 {
                        assert(rest[j - 1].0 < rest[0].0);
                    }
                }
            }
        },
        None => {
            assert(chain == seq![env]);
        },
    }
}

/// Lookup returns the binding from the nearest frame on the scope chain that
/// binds the name, and finds nothing exactly when no frame on the chain binds
/// it.
pub proof fn law_resolve_finds_nearest_binding(s: EngineState, env: EnvId, name: Seq<char>)
    ensures
        match s.resolve(env, name) {
            Some(value) => exists|at: int|
                #[trigger] is_nearest_binder(s, s.scope_chain(env), name, at) && value == s.scope(
                    s.scope_chain(env)[at],
                ).bindings[name],
            None => forall|at: int|
                0 <= at < s.scope_chain(env).len() ==> !s.binds(#[trigger] s.scope_chain(env)[at], name),
        },
    decreases env.0,
{
    let chain = s.scope_chain(env);
    if !s.has_env(env) {
    } else if s.binds(env, name) {
        assert(chain[0] == env);
        assert(is_nearest_binder(s, chain, name, 0));
    } else {
        match s.outer_of(env) {
            Some(outer) => {
                law_resolve_finds_nearest_binding(s, outer, name);
                let rest = s.scope_chain(outer);
                assert(chain == seq![env] + rest);
                match s.resolve(outer, name) {
                    Some(value) => {
                        let at = choose|at: int|
                            #[trigger] is_nearest_binder(s, rest, name, at) && value == s.scope(
                                rest[at],
                            ).bindings[name];
                        assert(chain[at + 1] == rest[at]);
                        assert forall|before: int| 0 <= before < at + 1 implies !s.binds(
                            #[trigger] chain[before],
                            name,
                        ) by {
                            if before > 0 {
                                assert(chain[before] == rest[before - 1]);
                            }
                        }
                        assert(is_nearest_binder(s, chain, name, at + 1));
                    },
                    None => {
                        assert forall|at: int| 0 <= at < chain.len() implies !s.binds(
                            #[trigger] chain[at],
                            name,
                        ) by {
                            if at > 0 {
                                assert(chain[at] == rest[at - 1]);
                            }
                        }
                    },
                }
            },
            None => {
                assert(chain == seq![env]);
            },
        }
    }
}

/// `other` is one of the frames that enclose `env`: it lies on the scope
/// chain of `env` and is not `env` itself.
pub open spec fn encloses(s: EngineState, other: EnvId, env: EnvId) -> bool {
    other != env && s.scope_chain(env).contains(other)
}

/// `other` is a sibling of `env`: another frame with the same link.
pub open spec fn is_sibling(s: EngineState, other: EnvId, env: EnvId) -> bool {
    other != env && s.has_env(other) && s.has_env(env) && s.scope(other).outer == s.scope(env).outer
}

/// The scope chain of a frame holds no frame with a larger handle.
pub proof fn lemma_chain_handles_bounded(s: EngineState, env: EnvId)
    ensures
        forall|i: int|
            0 <= i < s.scope_chain(env).len() ==> (#[trigger] s.scope_chain(env)[i]).0 <= env.0 && s.has_env(
                s.scope_chain(env)[i],
            ),
    decreases env.0,
{
    let chain = s.scope_chain(env);
    match s.outer_of(env) {
        Some(outer) => {
            lemma_chain_handles_bounded(s, outer);
            let rest = s.scope_chain(outer);
            assert forall|i: int| 0 <= i < chain.len() implies (#[trigger] chain[i]).0 <= env.0 && s.has_env(
                chain[i],
            ) by {
                if i > 0 {
                    assert(chain[i] == rest[i - 1]);
                }
            }
        },
        None => {},
    }
}

/// Binding a name changes the frame it is made in and nothing else: every
/// other frame keeps its bindings and its link, no link changes, and lookup
/// gives what it gave before for every other name, and for every name from
/// every frame whose scope chain does not pass through the changed frame.
pub proof fn law_define_is_local(
    s: EngineState,
    env: EnvId,
    name: Seq<char>,
    value: JsValue,
    other: EnvId,
    any: Seq<char>,
)
    requires
        s.has_env(env),
    ensures
        s.define(env, name, value).scope(env).bindings == s.scope(env).bindings.insert(name, value),
        s.define(env, name, value).scope(env).outer == s.scope(env).outer,
        other != env && s.has_env(other) ==> s.define(env, name, value).scope(other) == s.scope(other),
        s.define(env, name, value).scope_chain(other) == s.scope_chain(other),
        any != name ==> s.define(env, name, value).resolve(other, any) == s.resolve(other, any),
        !s.scope_chain(other).contains(env) ==> s.define(env, name, value).resolve(other, any) == s.resolve(
            other,
            any,
        ),
    decreases other.0,
{
    let t = s.define(env, name, value);
    assert(t.has_env(other) == s.has_env(other));
    assert(t.outer_of(other) == s.outer_of(other));
    if s.has_env(other) {
        assert(s.scope_chain(other)[0] == other);
        match s.outer_of(other) {
            Some(outer) => {
                law_define_is_local(s, env, name, value, outer, any);
                let rest = s.scope_chain(outer);
                if rest.contains(env) {
                    let at = choose|at: int| 0 <= at < rest.len() && rest[at] == env;
                    assert(s.scope_chain(other)[at + 1] == env);
                }
            },
            None => {},
        }
    }
}

/// Shadowing is local: a binding made in a frame is invisible from the frames
/// that enclose it and from its siblings. Lookup of any name from such a frame
/// gives what it gave before the binding was made.
pub proof fn law_define_spares_outer_and_sibling_frames(
    s: EngineState,
    env: EnvId,
    name: Seq<char>,
    value: JsValue,
    other: EnvId,
    any: Seq<char>,
)
    requires
        s.wf(),
        s.has_env(env),
        encloses(s, other, env) || is_sibling(s, other, env),
    ensures
        s.define(env, name, value).resolve(other, any) == s.resolve(other, any),
        s.define(env, name, value).scope(other) == s.scope(other),
{
    law_scope_chain_follows_links(s, env);
    lemma_chain_handles_bounded(s, other);
    let chain = s.scope_chain(other);
    if encloses(s, other, env) {
        let at = choose|at: int| 0 <= at < s.scope_chain(env).len() && s.scope_chain(env)[at] == other;
        assert(at > 0);
        assert(s.scope_chain(env)[at].0 < s.scope_chain(env)[0].0);
        if chain.contains(env) {
            let k = choose|k: int| 0 <= k < chain.len() && chain[k] == env;
            assert(chain[k].0 <= other.0);
        }
    } else {
        if chain.contains(env) {
            let k = choose|k: int| 0 <= k < chain.len() && chain[k] == env;
            assert(chain[0] == other);
            assert(k > 0);
            assert(s.envs[other.0 as int] == s.scope(other));
            assert(s.envs[env.0 as int] == s.scope(env));
            match s.outer_of(other) {
                Some(outer) => {
                    lemma_chain_handles_bounded(s, outer);
                    assert(chain[k] == s.scope_chain(outer)[k - 1]);
                    assert(s.scope(env).outer == Some(outer));
                },
                None => {},
            }
        }
    }
    law_define_is_local(s, env, name, value, other, any);
}

/// Two calls of one closure get two frames of their own, both enclosed by
/// the frame that the closure captured. The frame of the first call outlives
/// the call unchanged, and a binding that the first call makes in the
/// captured frame is what the second call finds there, unless an argument
/// of its own shadows it.
pub proof fn law_closure_calls_share_captured_frame(
    s: EngineState,
    func: FunctionBody,
    first_this: JsValue,
    first_args: Map<Seq<char>, JsValue>,
    second_this: JsValue,
    second_args: Map<Seq<char>, JsValue>,
    name: Seq<char>,
    value: JsValue,
)
    requires
        s.wf(),
        s.has_env(func.outer_env),
        s.envs.len() + 2 <= usize::MAX,
    ensures
        ({
            let first = s.begin_call(func, first_this, first_args);
            let first_frame = first.current_context().lexical_env;
            let mutated = first.define(func.outer_env, name, value);
            let second = mutated.finish_call().begin_call(func, second_this, second_args);
            let second_frame = second.current_context().lexical_env;
            &&& first_frame != second_frame
            &&& !s.has_env(first_frame)
            &&& !first.has_env(second_frame)
            &&& second.scope(first_frame) == (Scope { bindings: first_args, outer: Some(func.outer_env) })
            &&& second.scope(second_frame) == (Scope { bindings: second_args, outer: Some(func.outer_env) })
            &&& second.outer_of(first_frame) == Some(func.outer_env)
            &&& second.outer_of(second_frame) == Some(func.outer_env)
            &&& second.resolve(func.outer_env, name) == Some(value)
            &&& !second_args.contains_key(name) ==> second.resolve(second_frame, name) == Some(value)
            &&& !first_args.contains_key(name) ==> second.resolve(first_frame, name) == Some(value)
        }),
{
    let first = s.begin_call(func, first_this, first_args);
    let first_frame = first.current_context().lexical_env;
    let mutated = first.define(func.outer_env, name, value);
    let second = mutated.finish_call().begin_call(func, second_this, second_args);
    let second_frame = second.current_context().lexical_env;
    assert(first_frame.0 == s.envs.len());
    assert(second_frame.0 == s.envs.len() + 1);
    assert(second.binds(func.outer_env, name));
    assert(second.outer_of(second_frame) == Some(func.outer_env));
    assert(second.outer_of(first_frame) == Some(func.outer_env));
}

/// A standalone call binds the receiver to the global object: when the
/// callee expression is a bare value, that value is what is called, and the
/// context of the call has the global object as its receiver, whatever else
/// is in scope.
pub proof fn law_standalone_call_binds_global_object(
    s: EngineState,
    value: JsValue,
    func: FunctionBody,
    args: Map<Seq<char>, JsValue>,
)
    ensures
        s.callee_of(EvaluationResult::Value(value)) == value,
        s.receiver_of(EvaluationResult::Value(value)) == JsValue::Object(s.global_object),
        s.begin_call(
            func,
            s.receiver_of(EvaluationResult::Value(JsValue::Function(func))),
            args,
        ).current_context().this_binding == JsValue::Object(s.global_object),
{
}

/// A method call binds the receiver to the base: when the callee expression
/// is a property access, what is called is the property read off the base,
/// whatever the same name is bound to in scope, and the context of the call
/// has the base as its receiver.
pub proof fn law_method_call_binds_base(
    s: EngineState,
    base: JsValue,
    property_name: String,
    func: FunctionBody,
    args: Map<Seq<char>, JsValue>,
)
    ensures
        s.callee_of(EvaluationResult::Reference { base, property_name }) == s.get_property(
            base,
            property_name@,
        ),
        s.receiver_of(EvaluationResult::Reference { base, property_name }) == base,
        s.begin_call(
            func,
            s.receiver_of(EvaluationResult::Reference { base, property_name }),
            args,
        ).current_context().this_binding == base,
{
}

/// What a function body may do to the engine while it runs: create frames
/// and objects, bind names, set properties, and make calls that run to their
/// end, each with the activities of its own body. An evaluator that drives the
/// engine in this way hands it back as `JsEngine::call` asks: consistent, with
/// the stack it got, and with no frame or object lost. The laws below say so.
pub enum Activity {
    CreateEnvironment { outer: Option<EnvId> },
    Define { env: EnvId, name: Seq<char>, value: JsValue },
    NewObject { props: Map<Seq<char>, JsValue> },
    SetProperty { base: JsValue, name: Seq<char>, value: JsValue },
    Invoke { target: EvaluationResult, args: Map<Seq<char>, JsValue>, body: Seq<Activity> },
}

/// The state when a call of `func` through `target` begins.
pub open spec fn begin_invoke(
    s: EngineState,
    func: FunctionBody,
    target: EvaluationResult,
    args: Map<Seq<char>, JsValue>,
) -> EngineState {
    s.begin_call(func, s.receiver_of(target), args)
}

/// The state after one activity. A call of a function begins, runs the
/// activities of the body and ends; a call of anything else fails and changes
/// nothing.
pub open spec fn perform(s: EngineState, activity: Activity) -> EngineState
    decreases activity, 0nat,
{
    match activity {
        Activity::CreateEnvironment { outer } => s.create_environment(outer),
        Activity::Define { env, name, value } => s.define(env, name, value),
        Activity::NewObject { props } => s.new_object(props),
        Activity::SetProperty { base, name, value } => s.set_property(base, name, value),
        Activity::Invoke { target, args, body } => match s.callee_of(target) {
            JsValue::Function(func) => perform_all(
                begin_invoke(s, func, target, args),
                body,
                body.len(),
            ).finish_call(),
            _ => s,
        },
    }
}

/// The state after the first `count` of the given activities, in order.
pub open spec fn perform_all(s: EngineState, activities: Seq<Activity>, count: nat) -> EngineState
    decreases activities, count,
{
    if count == 0 || count > activities.len() {
        s
    } else {
        perform(perform_all(s, activities, (count - 1) as nat), activities[count - 1])
    }
}

/// The call stack after a completed activity is the call stack before it.
/// In particular the depth after any completed call, one that ran or one that
/// failed, equals the depth before it.
pub proof fn law_completed_activity_restores_stack(s: EngineState, activity: Activity)
    ensures
        perform(s, activity).stack == s.stack,
        perform(s, activity).depth() == s.depth(),
    decreases activity, 0nat,
{
    match activity {
        Activity::Invoke { target, args, body } => {
            match s.callee_of(target) {
                JsValue::Function(func) => {
                    let begun = begin_invoke(s, func, target, args);
                    law_completed_activities_restore_stack(begun, body, body.len());
                    assert(begun.stack.drop_last() == s.stack);
                },
                _ => {},
            }
        },
        _ => {},
    }
}

/// The call stack after any number of completed activities is the call stack
/// before them.
pub proof fn law_completed_activities_restore_stack(s: EngineState, activities: Seq<Activity>, count: nat)
    ensures
        perform_all(s, activities, count).stack == s.stack,
    decreases activities, count,
{
    if count == 0 || count > activities.len() {
    } else {
        law_completed_activities_restore_stack(s, activities, (count - 1) as nat);
        law_completed_activity_restores_stack(
            perform_all(s, activities, (count - 1) as nat),
            activities[count - 1],
        );
    }
}

/// While the body of a call runs, after each of its completed activities, the
/// stack is the stack before the call with the context of the call on top:
/// one deeper than before. When the call ends the stack is what it was.
pub proof fn law_call_depth(
    s: EngineState,
    func: FunctionBody,
    this_arg: JsValue,
    args: Map<Seq<char>, JsValue>,
    body: Seq<Activity>,
    count: nat,
)
    ensures
        perform_all(s.begin_call(func, this_arg, args), body, count).stack == s.stack.push(
            ExecutionContext { lexical_env: s.next_env(), this_binding: this_arg },
        ),
        perform_all(s.begin_call(func, this_arg, args), body, count).depth() == s.depth() + 1,
        perform_all(s.begin_call(func, this_arg, args), body, count).finish_call().stack == s.stack,
        s.begin_call(func, this_arg, args).finish_call().stack == s.stack,
{
    law_completed_activities_restore_stack(s.begin_call(func, this_arg, args), body, count);
    assert(s.begin_call(func, this_arg, args).stack.drop_last() == s.stack);
}

/// Frames and objects are never removed, and a frame's link never changes:
/// the state after a completed activity continues the state before it.
pub proof fn law_activity_keeps_frames_and_links(s: EngineState, activity: Activity)
    ensures
        perform(s, activity).extends(s),
    decreases activity, 0nat,
{
    match activity {
        Activity::Invoke { target, args, body } => {
            match s.callee_of(target) {
                JsValue::Function(func) => {
                    let begun = begin_invoke(s, func, target, args);
                    let left = perform_all(begun, body, body.len());
                    law_activities_keep_frames_and_links(begun, body, body.len());
                    assert forall|i: int| 0 <= i < s.envs.len() implies (#[trigger] left.envs[i]).outer
                        == s.envs[i].outer by {
                        assert(begun.envs[i].outer == s.envs[i].outer);
                    }
                },
                _ => {},
            }
        },
        _ => {},
    }
}

/// The same for any number of completed activities.
pub proof fn law_activities_keep_frames_and_links(s: EngineState, activities: Seq<Activity>, count: nat)
    ensures
        perform_all(s, activities, count).extends(s),
    decreases activities, count,
{
    if count == 0 || count > activities.len() {
    } else {
        let before = perform_all(s, activities, (count - 1) as nat);
        let after = perform(before, activities[count - 1]);
        law_activities_keep_frames_and_links(s, activities, (count - 1) as nat);
        law_activity_keeps_frames_and_links(before, activities[count - 1]);
        assert forall|i: int| 0 <= i < s.envs.len() implies (#[trigger] after.envs[i]).outer == s.envs[i].outer by {
            assert(before.envs[i].outer == s.envs[i].outer);
        }
    }
}

/// The engine's operations accept `activity` in state `s`: the handles it
/// names belong to the engine at the moment they are used, and there is room
/// for the handles it creates.
pub open spec fn admissible(s: EngineState, activity: Activity) -> bool
    decreases activity, 0nat,
{
    match activity {
        Activity::CreateEnvironment { outer } => s.envs.len() < usize::MAX && match outer {
            Some(enclosing) => s.has_env(enclosing),
            None => true,
        },
        Activity::Define { env, name, value } => s.has_env(env) && s.owns(value),
        Activity::NewObject { props } => s.objects.len() < usize::MAX && s.owns_all(props),
        Activity::SetProperty { base, name, value } => s.owns(value),
        Activity::Invoke { target, args, body } => {
            &&& s.owns_target(target)
            &&& s.owns_all(args)
            &&& match s.callee_of(target) {
                JsValue::Function(func) => s.envs.len() < usize::MAX && admissible_all(
                    begin_invoke(s, func, target, args),
                    body,
                    body.len(),
                ),
                _ => true,
            }
        },
    }
}

/// The engine's operations accept the first `count` of the given activities,
/// each in the state that the ones before it leave.
pub open spec fn admissible_all(s: EngineState, activities: Seq<Activity>, count: nat) -> bool
    decreases activities, count,
{
    if count == 0 || count > activities.len() {
        true
    } else {
        admissible_all(s, activities, (count - 1) as nat) && admissible(
            perform_all(s, activities, (count - 1) as nat),
            activities[count - 1],
        )
    }
}

/// Consistency is an invariant: a completed activity that the engine's
/// operations accept leaves a consistent state consistent. So the stack is
/// never empty, links never form a cycle, and no handle dangles, in every
/// state that the operations can reach from a fresh engine.
pub proof fn law_activity_keeps_consistency(s: EngineState, activity: Activity)
    requires
        s.wf(),
        admissible(s, activity),
    ensures
        perform(s, activity).wf(),
    decreases activity, 0nat,
{
    match activity {
        Activity::CreateEnvironment { outer } => {
            lemma_create_environment_wf(s, outer);
        },
        Activity::Define { env, name, value } => {
            lemma_define_wf(s, env, name, value);
        },
        Activity::NewObject { props } => {
            lemma_new_object_wf(s, props);
        },
        Activity::SetProperty { base, name, value } => {
            lemma_set_property_wf(s, base, name, value);
        },
        Activity::Invoke { target, args, body } => {
            match s.callee_of(target) {
                JsValue::Function(func) => {
                    let begun = begin_invoke(s, func, target, args);
                    match target {
                        EvaluationResult::Reference { base, property_name } => {
                            lemma_reads_are_owned(s, EngineState::global_env(), base, property_name@);
                        },
                        EvaluationResult::Value(value) => {},
                    }
                    lemma_begin_call_wf(s, func, s.receiver_of(target), args);
                    law_activities_keep_consistency(begun, body, body.len());
                    law_completed_activities_restore_stack(begun, body, body.len());
                    lemma_finish_call_wf(perform_all(begun, body, body.len()));
                },
                _ => {},
            }
        },
    }
}

/// The same for any number of completed activities.
pub proof fn law_activities_keep_consistency(s: EngineState, activities: Seq<Activity>, count: nat)
    requires
        s.wf(),
        admissible_all(s, activities, count),
    ensures
        perform_all(s, activities, count).wf(),
    decreases activities, count,
{
    if count == 0 || count > activities.len() {
    } else {
        law_activities_keep_consistency(s, activities, (count - 1) as nat);
        law_activity_keeps_consistency(perform_all(s, activities, (count - 1) as nat), activities[count - 1]);
    }
}

/// A fresh engine is consistent.
pub proof fn law_initial_state_is_consistent()
    ensures
        EngineState::initial().wf(),
{
    let s = EngineState::initial();
    assert(s.envs[0].bindings =~= Map::empty());
    assert(s.objects[0] =~= Map::empty());
}

/// Handles stay good: what belongs to a state belongs to every state that
/// continues it.
pub proof fn law_ownership_lasts(later: EngineState, earlier: EngineState)
    requires
        later.extends(earlier),
    ensures
        forall|env: EnvId| earlier.has_env(env) ==> later.has_env(env),
        forall|value: JsValue| earlier.owns(value) ==> later.owns(value),
        forall|map: Map<Seq<char>, JsValue>| earlier.owns_all(map) ==> later.owns_all(map),
{
    assert forall|map: Map<Seq<char>, JsValue>| earlier.owns_all(map) implies later.owns_all(map) by {
        assert forall|name: Seq<char>| #[trigger] map.contains_key(name) implies later.owns(map[name]) by {
            assert(earlier.owns(map[name]));
        }
    }
}

} // verus!
