use std::path::PathBuf;
use deft::js_engine::{JsCallError, JsEngine, map_js_call_result};
use quick_js::{ExecutionError, JsValue, ValueError};

#[test]
fn execute_module_runs_registered_source() {
    let mut engine = JsEngine::new().unwrap();
    engine.add_module("m".to_string(), "1 + 1".to_string());
    assert!(engine.execute_module("m").is_ok());
}

#[test]
fn execute_module_rejects_unknown_name() {
    let mut engine = JsEngine::new().unwrap();
    engine.add_module("m".to_string(), "1 + 1".to_string());
    let r = engine.execute_module("absent");
    assert!(r.is_err());
}

#[test]
fn execute_module_propagates_script_errors() {
    let mut engine = JsEngine::new().unwrap();
    engine.add_module("bad".to_string(), "throw new Error('boom')".to_string());
    let r = engine.execute_module("bad");
    assert!(matches!(r, Err(ExecutionError::Exception(_))));
}

#[test]
fn module_with_interior_zero_byte_is_rejected() {
    let mut engine = JsEngine::new().unwrap();
    engine.add_module("nul".to_string(), "1 + \u{0} 1".to_string());
    assert!(engine.execute_module("nul").is_err());
}

#[test]
fn first_registration_of_a_name_wins() {
    let mut engine = JsEngine::new().unwrap();
    engine.add_module("m".to_string(), "1 + 1".to_string());
    engine.add_module("m".to_string(), "throw new Error('shadowed')".to_string());
    assert!(engine.execute_module("m").is_ok());
}

#[test]
fn execute_main_runs_the_main_module() {
    let mut engine = JsEngine::new().unwrap();
    engine.add_module("main".to_string(), "globalThis.x = 42".to_string());
    engine.execute_main();
    // The engine survives an absent main module too.
    let mut bare = JsEngine::new().unwrap();
    bare.execute_main();
}

#[test]
fn enable_localstorage_remembers_the_directory() {
    let mut engine = JsEngine::new().unwrap();
    assert!(engine.localstorage_dir.is_none());
    engine.enable_localstorage(PathBuf::from("/tmp/storage"));
    assert_eq!(engine.localstorage_dir, Some(PathBuf::from("/tmp/storage")));
}

#[test]
fn call_result_value_passes_through() {
    let out = map_js_call_result(Ok(JsValue::Int(3)));
    assert_eq!(out, Ok(Ok(JsValue::Int(3))));
}

#[test]
fn call_result_conversion_error_is_outer() {
    let out = map_js_call_result(Err(JsCallError::ConversionError(ValueError::UnexpectedType)));
    assert!(matches!(out, Err(ValueError::UnexpectedType)));
}

#[test]
fn call_result_execution_error_becomes_message() {
    let e = ExecutionError::Internal("boom".to_string());
    let out = map_js_call_result(Err(JsCallError::ExecutionError(e)));
    match out {
        Ok(Err(msg)) => assert!(msg.contains("boom")),
        other => panic!("unexpected mapping: {:?}", other),
    }
}
