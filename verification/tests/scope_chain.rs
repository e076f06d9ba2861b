use js_engine::bindings::Bindings;
use js_engine::engine::JsEngine;
use js_engine::value::{BodyId, EngineError, EnvId, EvaluationResult, FunctionBody, JsValue};
use std::cell::RefCell;

fn number(value: f64) -> JsValue {
    JsValue::Number(value.to_bits())
}

fn as_number(value: &JsValue) -> f64 {
    match value {
        JsValue::Number(bits) => f64::from_bits(*bits),
        other => panic!("not a number: {:?}", other),
    }
}

const OUTER_FUNC: BodyId = BodyId(1);
const INNER_FUNC: BodyId = BodyId(2);
const SET_COUNTER: BodyId = BodyId(3);
const READ_COUNTER: BodyId = BodyId(4);
const READ_LOCAL: BodyId = BodyId(5);

/// What the bodies of this file left behind for the test to look at.
struct Trace {
    sums: Vec<f64>,
    frames: Vec<EnvId>,
    seen: Vec<Result<JsValue, EngineError>>,
    depths: Vec<usize>,
}

fn empty_trace() -> RefCell<Trace> {
    RefCell::new(Trace { sums: Vec::new(), frames: Vec::new(), seen: Vec::new(), depths: Vec::new() })
}

fn run_scope_body(trace: &RefCell<Trace>, engine: &mut JsEngine, body: BodyId) -> Result<(), EngineError> {
    trace.borrow_mut().depths.push(engine.depth());
    trace.borrow_mut().frames.push(engine.current_context().lexical_env);
    if body == OUTER_FUNC {
        let frame = engine.current_context().lexical_env;
        engine.define(frame, "z".to_string(), number(30.0));
        let inner = engine.make_closure(INNER_FUNC);
        call_in_scope(engine, EvaluationResult::Value(inner), Bindings::new(), trace)
    } else if body == INNER_FUNC {
        let x = engine.resolve_variable("x")?;
        let y = engine.resolve_variable("y")?;
        let z = engine.resolve_variable("z")?;
        trace.borrow_mut().sums.push(as_number(&x) + as_number(&y) + as_number(&z));
        Ok(())
    } else if body == SET_COUNTER {
        let captured = engine.global_env();
        let amount = engine.resolve_variable("amount")?;
        engine.define(captured, "counter".to_string(), amount);
        Ok(())
    } else if body == READ_COUNTER {
        let found = engine.resolve_variable("counter");
        trace.borrow_mut().seen.push(found);
        Ok(())
    } else if body == READ_LOCAL {
        let found = engine.resolve_variable("local");
        trace.borrow_mut().seen.push(found.clone());
        found.map(|_| ())
    } else {
        panic!("unknown body");
    }
}

fn call_in_scope(
    engine: &mut JsEngine,
    target: EvaluationResult,
    args: Bindings,
    trace: &RefCell<Trace>,
) -> Result<(), EngineError> {
    engine.invoke(target, args, &|engine: &mut JsEngine, body: BodyId| run_scope_body(trace, engine, body))
}

#[test]
fn new_engine_holds_the_global_context() {
    let engine = JsEngine::new();
    assert_eq!(engine.depth(), 1);
    assert_eq!(engine.global_env(), EnvId(0));
    assert_eq!(engine.current_context().lexical_env, engine.global_env());
    assert_eq!(engine.current_context().this_binding, engine.global_object());
    assert_eq!(engine.resolve_this(), engine.global_object());
    assert!(engine.contains_env(engine.global_env()));
    assert!(!engine.contains_env(EnvId(1)));
    assert!(engine.contains_value(&engine.global_object()));
}

#[test]
fn new_environment_is_empty_and_linked() {
    let mut engine = JsEngine::new();
    let global = engine.global_env();
    engine.define(global, "a".to_string(), number(1.0));
    let child = engine.create_environment(Some(global));
    assert_eq!(child, EnvId(1));
    assert_eq!(engine.resolve(child, "a"), Ok(number(1.0)));
    let detached = engine.create_environment(None);
    assert_eq!(detached, EnvId(2));
    assert_eq!(engine.resolve(detached, "a"), Err(EngineError::ReferenceError));
}

#[test]
fn resolve_returns_the_nearest_binding() {
    let mut engine = JsEngine::new();
    let global = engine.global_env();
    let middle = engine.create_environment(Some(global));
    let inner = engine.create_environment(Some(middle));
    engine.define(global, "a".to_string(), number(1.0));
    engine.define(global, "b".to_string(), number(2.0));
    engine.define(global, "c".to_string(), number(3.0));
    engine.define(middle, "b".to_string(), number(20.0));
    engine.define(middle, "c".to_string(), number(30.0));
    engine.define(inner, "c".to_string(), number(300.0));

    assert_eq!(engine.resolve(inner, "a"), Ok(number(1.0)));
    assert_eq!(engine.resolve(inner, "b"), Ok(number(20.0)));
    assert_eq!(engine.resolve(inner, "c"), Ok(number(300.0)));
    assert_eq!(engine.resolve(middle, "c"), Ok(number(30.0)));
    assert_eq!(engine.resolve(global, "c"), Ok(number(3.0)));
    assert_eq!(engine.resolve(inner, "d"), Err(EngineError::ReferenceError));
}

#[test]
fn define_overwrites_within_one_frame() {
    let mut engine = JsEngine::new();
    let global = engine.global_env();
    engine.define(global, "a".to_string(), number(1.0));
    engine.define(global, "a".to_string(), JsValue::String("one".to_string()));
    assert_eq!(engine.resolve(global, "a"), Ok(JsValue::String("one".to_string())));
}

#[test]
fn define_is_invisible_from_outer_and_sibling_frames() {
    let mut engine = JsEngine::new();
    let global = engine.global_env();
    engine.define(global, "a".to_string(), number(1.0));
    let left = engine.create_environment(Some(global));
    let right = engine.create_environment(Some(global));

    engine.define(left, "a".to_string(), number(10.0));
    engine.define(left, "only_left".to_string(), number(11.0));

    assert_eq!(engine.resolve(left, "a"), Ok(number(10.0)));
    assert_eq!(engine.resolve(global, "a"), Ok(number(1.0)));
    assert_eq!(engine.resolve(right, "a"), Ok(number(1.0)));
    assert_eq!(engine.resolve(global, "only_left"), Err(EngineError::ReferenceError));
    assert_eq!(engine.resolve(right, "only_left"), Err(EngineError::ReferenceError));
}

#[test]
fn resolve_variable_starts_at_the_active_frame() {
    let mut engine = JsEngine::new();
    let global = engine.global_env();
    engine.define(global, "y".to_string(), number(20.0));
    assert_eq!(engine.resolve_variable("y"), Ok(number(20.0)));

    let func = FunctionBody { outer_env: global, body: READ_COUNTER };
    let mut args = Bindings::new();
    args.insert("y".to_string(), number(21.0));
    let body = engine.begin_call(func, JsValue::Undefined, args);
    assert_eq!(body, READ_COUNTER);
    assert_eq!(engine.resolve_variable("y"), Ok(number(21.0)));
    engine.finish_call();
    assert_eq!(engine.resolve_variable("y"), Ok(number(20.0)));
}

#[test]
fn resolving_an_unbound_name_is_a_reference_error_at_any_depth() {
    let mut engine = JsEngine::new();
    assert_eq!(engine.resolve_variable("missing"), Err(EngineError::ReferenceError));

    let func = FunctionBody { outer_env: engine.global_env(), body: READ_COUNTER };
    engine.begin_call(func, JsValue::Undefined, Bindings::new());
    assert_eq!(engine.depth(), 2);
    assert_eq!(engine.resolve_variable("missing"), Err(EngineError::ReferenceError));
    engine.begin_call(func, JsValue::Undefined, Bindings::new());
    assert_eq!(engine.depth(), 3);
    assert_eq!(engine.resolve_variable("missing"), Err(EngineError::ReferenceError));
    engine.finish_call();
    engine.finish_call();
    assert_eq!(engine.resolve_variable("missing"), Err(EngineError::ReferenceError));
}

#[test]
fn a_failing_body_fails_the_call_and_the_context_is_popped() {
    let mut engine = JsEngine::new();
    let reader = engine.make_function(engine.global_env(), READ_LOCAL);
    let trace = empty_trace();
    let outcome = call_in_scope(&mut engine, EvaluationResult::Value(reader), Bindings::new(), &trace);
    assert_eq!(outcome, Err(EngineError::ReferenceError));
    assert_eq!(trace.borrow().depths, vec![2]);
    assert_eq!(engine.depth(), 1);
    assert_eq!(engine.resolve_this(), engine.global_object());
}

#[test]
fn nested_closure_sums_to_60() {
    let mut engine = JsEngine::new();
    let global = engine.global_env();
    engine.define(global, "y".to_string(), number(20.0));
    let outer_func = engine.make_function(global, OUTER_FUNC);
    engine.define(global, "outerFunc".to_string(), outer_func);

    let callee = engine.resolve_variable("outerFunc").unwrap();
    let mut args = Bindings::new();
    args.insert("x".to_string(), number(10.0));
    let trace = empty_trace();
    call_in_scope(&mut engine, EvaluationResult::Value(callee), args, &trace).unwrap();

    let trace = trace.into_inner();
    assert_eq!(trace.sums, vec![60.0]);
    assert_eq!(trace.depths, vec![2, 3]);
    assert_eq!(engine.depth(), 1);
    // The call frames are parented as the functions were defined.
    let outer_frame = trace.frames[0];
    let inner_frame = trace.frames[1];
    assert_eq!(engine.resolve(outer_frame, "z"), Ok(number(30.0)));
    assert_eq!(engine.resolve(inner_frame, "x"), Ok(number(10.0)));
    assert_eq!(engine.resolve(global, "z"), Err(EngineError::ReferenceError));
    assert_eq!(engine.resolve(global, "x"), Err(EngineError::ReferenceError));
}

#[test]
fn two_calls_of_one_closure_share_the_captured_frame() {
    let mut engine = JsEngine::new();
    let global = engine.global_env();
    let setter = engine.make_function(global, SET_COUNTER);
    let reader = engine.make_function(global, READ_COUNTER);
    let trace = empty_trace();

    let mut first = Bindings::new();
    first.insert("amount".to_string(), number(7.0));
    call_in_scope(&mut engine, EvaluationResult::Value(setter.clone()), first, &trace).unwrap();
    let mut second = Bindings::new();
    second.insert("amount".to_string(), number(8.0));
    call_in_scope(&mut engine, EvaluationResult::Value(setter), second, &trace).unwrap();
    call_in_scope(&mut engine, EvaluationResult::Value(reader), Bindings::new(), &trace).unwrap();

    let trace = trace.into_inner();
    // Two frames of their own, each with its own argument.
    assert_ne!(trace.frames[0], trace.frames[1]);
    assert_eq!(engine.resolve(trace.frames[0], "amount"), Ok(number(7.0)));
    assert_eq!(engine.resolve(trace.frames[1], "amount"), Ok(number(8.0)));
    // Both see the one captured frame, and so does a later call.
    assert_eq!(engine.resolve(trace.frames[0], "counter"), Ok(number(8.0)));
    assert_eq!(engine.resolve(trace.frames[1], "counter"), Ok(number(8.0)));
    assert_eq!(trace.seen, vec![Ok(number(8.0))]);
    assert_eq!(engine.resolve(global, "counter"), Ok(number(8.0)));
}

#[test]
fn a_call_frame_is_enclosed_by_the_captured_frame_not_the_caller() {
    let mut engine = JsEngine::new();
    let global = engine.global_env();
    let reader = engine.make_function(global, READ_LOCAL);

    // Enter a caller whose own frame binds `local`.
    let caller = FunctionBody { outer_env: global, body: READ_COUNTER };
    let mut caller_args = Bindings::new();
    caller_args.insert("local".to_string(), number(1.0));
    engine.begin_call(caller, JsValue::Undefined, caller_args);
    assert_eq!(engine.resolve_variable("local"), Ok(number(1.0)));

    // The callee captured the global frame: it does not see the caller's binding.
    let trace = empty_trace();
    let outcome = call_in_scope(&mut engine, EvaluationResult::Value(reader), Bindings::new(), &trace);
    assert_eq!(outcome, Err(EngineError::ReferenceError));
    assert_eq!(trace.borrow().seen, vec![Err(EngineError::ReferenceError)]);
    assert_eq!(trace.borrow().depths, vec![3]);
    assert_eq!(engine.depth(), 2);
    engine.finish_call();
    assert_eq!(engine.depth(), 1);
}

#[test]
fn make_closure_captures_the_active_frame() {
    let mut engine = JsEngine::new();
    let global = engine.global_env();
    let at_global = engine.make_closure(READ_COUNTER);
    assert_eq!(at_global, engine.make_function(global, READ_COUNTER));

    let func = FunctionBody { outer_env: global, body: READ_COUNTER };
    engine.begin_call(func, JsValue::Undefined, Bindings::new());
    let frame = engine.current_context().lexical_env;
    assert_ne!(frame, global);
    let inside = engine.make_closure(READ_LOCAL);
    assert_eq!(inside, engine.make_function(frame, READ_LOCAL));
    engine.finish_call();
}
