use std::cell::RefCell;

use zeo::engine::{
    assignment_statement, call_expression, global_read_statement, limit_stats, EngineConfig,
    EngineError, EngineFactory, EngineType, JSEngine, JSValue, MemoryStats, V8Engine,
};

/// An engine that answers every execution with the code it was given.
struct EchoEngine {
    config: EngineConfig,
    globals: RefCell<Vec<String>>,
}

impl JSEngine for EchoEngine {
    fn new(config: EngineConfig) -> Result<Self, EngineError> {
        Ok(EchoEngine { config, globals: RefCell::new(Vec::new()) })
    }

    fn execute(&self, code: &str) -> Result<JSValue, EngineError> {
        Ok(JSValue::String(code.to_string()))
    }

    fn eval(&self, code: &str) -> Result<JSValue, EngineError> {
        Ok(JSValue::String(code.to_string()))
    }

    fn call(&self, func: &str, _args: Vec<JSValue>) -> Result<JSValue, EngineError> {
        Ok(JSValue::String(func.to_string()))
    }

    fn set_global(&self, name: &str, _value: JSValue) -> Result<(), EngineError> {
        self.globals.borrow_mut().push(name.to_string());
        Ok(())
    }

    fn get_global(&self, name: &str) -> Result<JSValue, EngineError> {
        Ok(JSValue::String(name.to_string()))
    }

    fn memory_usage(&self) -> MemoryStats {
        limit_stats(&self.config)
    }

    fn gc(&self) -> Result<(), EngineError> {
        Ok(())
    }
}

/// An engine that cannot be created.
struct BrokenEngine;

impl JSEngine for BrokenEngine {
    fn new(_config: EngineConfig) -> Result<Self, EngineError> {
        Err(EngineError::ExecutionError("Failed to create context".to_string()))
    }

    fn execute(&self, _code: &str) -> Result<JSValue, EngineError> {
        Err(EngineError::NotInitialized)
    }

    fn eval(&self, _code: &str) -> Result<JSValue, EngineError> {
        Err(EngineError::NotInitialized)
    }

    fn call(&self, _func: &str, _args: Vec<JSValue>) -> Result<JSValue, EngineError> {
        Err(EngineError::NotInitialized)
    }

    fn set_global(&self, _name: &str, _value: JSValue) -> Result<(), EngineError> {
        Err(EngineError::NotInitialized)
    }

    fn get_global(&self, _name: &str) -> Result<JSValue, EngineError> {
        Err(EngineError::NotInitialized)
    }

    fn memory_usage(&self) -> MemoryStats {
        MemoryStats { total: 0, used: 0, peak: 0 }
    }

    fn gc(&self) -> Result<(), EngineError> {
        Err(EngineError::NotInitialized)
    }
}

fn not_implemented(e: &EngineError) -> Option<&str> {
    match e {
        EngineError::NotImplemented(m) => Some(m.as_str()),
        _ => None,
    }
}

#[test]
fn engine_type_from_known_codes() {
    assert_eq!(EngineType::from_code(0), EngineType::QuickJS);
    assert_eq!(EngineType::from_code(1), EngineType::JavaScriptCore);
    assert_eq!(EngineType::from_code(2), EngineType::V8);
}

#[test]
fn engine_type_unknown_code_is_quickjs() {
    assert_eq!(EngineType::from_code(3), EngineType::QuickJS);
    assert_eq!(EngineType::from_code(u32::MAX), EngineType::QuickJS);
}

#[test]
fn engine_type_code_round_trip() {
    for t in [EngineType::QuickJS, EngineType::JavaScriptCore, EngineType::V8] {
        assert_eq!(EngineType::from_code(t.code()), t);
    }
    assert_eq!(EngineType::V8.code(), 2);
}

#[test]
fn engine_config_default_values() {
    let c = EngineConfig::default();
    assert_eq!(c.memory_limit, 16 * 1024 * 1024);
    assert!(c.enable_jit);
    assert!(!c.enable_profiler);
}

#[test]
fn as_string_of_string() {
    let v = JSValue::String("hello".to_string());
    assert_eq!(v.as_string().unwrap(), "hello");
}

#[test]
fn as_string_of_other_values_is_type_error() {
    for v in [JSValue::Null, JSValue::Bool(true), JSValue::Number(0), JSValue::Array(Vec::new())] {
        match v.as_string() {
            Err(EngineError::TypeError(m)) => assert_eq!(m, "Expected string"),
            other => panic!("unexpected {:?}", other),
        }
    }
}

#[test]
fn limit_stats_reports_the_limit_only() {
    let c = EngineConfig { memory_limit: 4096, enable_jit: false, enable_profiler: true };
    let s = limit_stats(&c);
    assert_eq!((s.total, s.used, s.peak), (4096, 0, 0));
}

#[test]
fn call_expression_spreads_arguments() {
    assert_eq!(call_expression("add", "[1,2]"), "add(...[1,2])");
    assert_eq!(call_expression("f", "[]"), "f(...[])");
}

#[test]
fn assignment_and_read_statements() {
    assert_eq!(assignment_statement("x", "{\"a\":1}"), "x = {\"a\":1};");
    assert_eq!(global_read_statement("answer"), "answer;");
}

#[test]
fn v8_engine_refuses_execution() {
    let engine = <V8Engine as JSEngine>::new(EngineConfig::default()).unwrap();
    let e = engine.execute("1").unwrap_err();
    assert_eq!(not_implemented(&e), Some("V8 execution not yet implemented"));
    let e = engine.eval("1").unwrap_err();
    assert_eq!(not_implemented(&e), Some("V8 eval not yet implemented"));
    let e = engine.call("f", Vec::new()).unwrap_err();
    assert_eq!(not_implemented(&e), Some("V8 call not yet implemented"));
    let e = engine.set_global("x", JSValue::Null).unwrap_err();
    assert_eq!(not_implemented(&e), Some("V8 set_global not yet implemented"));
    let e = engine.get_global("x").unwrap_err();
    assert_eq!(not_implemented(&e), Some("V8 get_global not yet implemented"));
}

#[test]
fn v8_engine_memory_and_gc() {
    let config = EngineConfig { memory_limit: 1000, enable_jit: true, enable_profiler: false };
    let engine = <V8Engine as JSEngine>::new(config).unwrap();
    let s = engine.memory_usage();
    assert_eq!((s.total, s.used, s.peak), (1000, 0, 0));
    assert!(engine.gc().is_ok());
}

#[test]
fn factory_refuses_v8_and_javascriptcore() {
    let e = EngineFactory::create::<EchoEngine>(EngineType::V8, EngineConfig::default()).err().unwrap();
    assert_eq!(not_implemented(&e), Some("V8 not enabled"));
    let e = EngineFactory::create::<EchoEngine>(EngineType::JavaScriptCore, EngineConfig::default())
        .err()
        .unwrap();
    assert_eq!(not_implemented(&e), Some("JavaScriptCore not yet implemented"));
}

#[test]
fn factory_creates_quickjs_engine() {
    let engine = EngineFactory::create::<EchoEngine>(EngineType::QuickJS, EngineConfig::default()).unwrap();
    match engine.execute("1 + 1").unwrap() {
        JSValue::String(s) => assert_eq!(s, "1 + 1"),
        other => panic!("unexpected {:?}", other),
    }
    assert_eq!(engine.memory_usage().total, 16 * 1024 * 1024);
}

#[test]
fn factory_passes_creation_error_on() {
    match EngineFactory::create::<BrokenEngine>(EngineType::QuickJS, EngineConfig::default()) {
        Err(EngineError::ExecutionError(m)) => assert_eq!(m, "Failed to create context"),
        _ => panic!("expected the creation error"),
    }
}
