use std::cell::RefCell;
use std::rc::Rc;

use zeo::engine::{EngineConfig, EngineError, JSEngine, JSValue, MemoryStats};
use zeo::execution::{ExecutionEngine, Script};

/// An engine that answers an execution with the code it was given, refuses
/// code that starts with `throw`, and logs what it was asked.
struct LoggingEngine {
    log: Rc<RefCell<Vec<String>>>,
    used: u64,
}

impl LoggingEngine {
    fn boxed(log: &Rc<RefCell<Vec<String>>>, used: u64) -> Box<dyn JSEngine> {
        Box::new(LoggingEngine { log: log.clone(), used })
    }
}

impl JSEngine for LoggingEngine {
    fn new(_config: EngineConfig) -> Result<Self, EngineError> {
        Ok(LoggingEngine { log: Rc::new(RefCell::new(Vec::new())), used: 0 })
    }

    fn execute(&self, code: &str) -> Result<JSValue, EngineError> {
        self.log.borrow_mut().push(format!("execute {}", code));
        if code.starts_with("throw") {
            Err(EngineError::ExecutionError(code.to_string()))
        } else {
            Ok(JSValue::String(code.to_string()))
        }
    }

    fn eval(&self, code: &str) -> Result<JSValue, EngineError> {
        self.execute(code)
    }

    fn call(&self, func: &str, args: Vec<JSValue>) -> Result<JSValue, EngineError> {
        self.log.borrow_mut().push(format!("call {} {}", func, args.len()));
        if func == "missing" {
            Err(EngineError::ExecutionError("missing is not defined".to_string()))
        } else {
            Ok(JSValue::Bool(true))
        }
    }

    fn set_global(&self, name: &str, _value: JSValue) -> Result<(), EngineError> {
        self.log.borrow_mut().push(format!("set {}", name));
        Ok(())
    }

    fn get_global(&self, name: &str) -> Result<JSValue, EngineError> {
        self.log.borrow_mut().push(format!("get {}", name));
        Ok(JSValue::Null)
    }

    fn memory_usage(&self) -> MemoryStats {
        MemoryStats { total: 1 << 20, used: self.used, peak: self.used }
    }

    fn gc(&self) -> Result<(), EngineError> {
        self.log.borrow_mut().push("gc".to_string());
        Ok(())
    }
}

fn script(id: &str, code: &str) -> Script {
    Script::new(id.to_string(), code.to_string())
}

fn text_of(v: &JSValue) -> &str {
    match v {
        JSValue::String(s) => s.as_str(),
        other => panic!("unexpected {:?}", other),
    }
}

#[test]
fn script_constructors() {
    let s = script("a", "1");
    assert_eq!((s.id.as_str(), s.code.as_str(), s.source.is_none()), ("a", "1", true));
    let t = Script::with_source("b".to_string(), "2".to_string(), "main.js".to_string());
    assert_eq!(t.source.as_deref(), Some("main.js"));
}

#[test]
fn execution_runs_the_script_code() {
    let log = Rc::new(RefCell::new(Vec::new()));
    let mut engine = ExecutionEngine::new(LoggingEngine::boxed(&log, 64));
    let r = engine.execute_script_sync(&script("a", "1 + 1")).unwrap();
    assert_eq!(text_of(&r.value), "1 + 1");
    assert_eq!(r.memory_usage, 64);
    assert_eq!(log.borrow().as_slice(), ["execute 1 + 1"]);
}

#[test]
fn first_code_of_a_script_id_wins() {
    let log = Rc::new(RefCell::new(Vec::new()));
    let mut engine = ExecutionEngine::new(LoggingEngine::boxed(&log, 0));
    engine.execute_script_sync(&script("a", "first")).unwrap();
    let r = engine.execute_script_sync(&script("a", "second")).unwrap();
    assert_eq!(text_of(&r.value), "first");
    let r = engine.execute_script_sync(&script("b", "other")).unwrap();
    assert_eq!(text_of(&r.value), "other");
}

#[test]
fn clearing_the_cache_lets_new_code_run() {
    let log = Rc::new(RefCell::new(Vec::new()));
    let mut engine = ExecutionEngine::new(LoggingEngine::boxed(&log, 0));
    engine.execute_script_sync(&script("a", "first")).unwrap();
    engine.clear_cache_sync();
    let r = engine.execute_script_sync(&script("a", "second")).unwrap();
    assert_eq!(text_of(&r.value), "second");
}

#[test]
fn resolve_code_caches_by_id() {
    let log = Rc::new(RefCell::new(Vec::new()));
    let mut engine = ExecutionEngine::new(LoggingEngine::boxed(&log, 0));
    assert_eq!(engine.resolve_code(&script("x", "one")), "one");
    assert_eq!(engine.resolve_code(&script("x", "two")), "one");
    assert_eq!(engine.resolve_code(&script("y", "two")), "two");
    assert!(log.borrow().is_empty());
}

#[test]
fn executions_are_recorded_under_the_script_id() {
    let log = Rc::new(RefCell::new(Vec::new()));
    let mut engine = ExecutionEngine::new(LoggingEngine::boxed(&log, 100));
    engine.execute_script_sync(&script("a", "1")).unwrap();
    engine.execute_script_sync(&script("a", "1")).unwrap();
    let m = engine.performance_monitor().metrics().get_metrics("a").unwrap();
    assert_eq!(m.count, 2);
    assert_eq!(m.total_memory, 200);
    assert!(engine.performance_monitor().metrics().get_metrics("b").is_none());
}

#[test]
fn failed_execution_is_not_recorded_but_code_is_cached() {
    let log = Rc::new(RefCell::new(Vec::new()));
    let mut engine = ExecutionEngine::new(LoggingEngine::boxed(&log, 0));
    match engine.execute_script_sync(&script("bad", "throw 1")) {
        Err(EngineError::ExecutionError(m)) => assert_eq!(m, "throw 1"),
        _ => panic!("expected the engine's error"),
    }
    assert!(engine.performance_monitor().metrics().get_metrics("bad").is_none());
    assert_eq!(engine.resolve_code(&script("bad", "fixed")), "throw 1");
}

#[test]
fn calls_are_recorded_under_the_function_name() {
    let log = Rc::new(RefCell::new(Vec::new()));
    let mut engine = ExecutionEngine::new(LoggingEngine::boxed(&log, 8));
    let r = engine.call_function_sync("add", vec![JSValue::Number(0), JSValue::Number(0)]).unwrap();
    assert!(matches!(r.value, JSValue::Bool(true)));
    assert_eq!(engine.performance_monitor().metrics().get_metrics("add").unwrap().count, 1);
    assert!(engine.call_function_sync("missing", Vec::new()).is_err());
    assert!(engine.performance_monitor().metrics().get_metrics("missing").is_none());
    assert_eq!(log.borrow().as_slice(), ["call add 2", "call missing 0"]);
}

#[test]
fn globals_memory_and_gc_go_to_the_engine() {
    let log = Rc::new(RefCell::new(Vec::new()));
    let engine = ExecutionEngine::new(LoggingEngine::boxed(&log, 42));
    engine.set_global_sync("x", JSValue::Null).unwrap();
    assert!(matches!(engine.get_global_sync("x").unwrap(), JSValue::Null));
    assert_eq!(engine.memory_usage(), 42);
    engine.gc().unwrap();
    assert_eq!(log.borrow().as_slice(), ["set x", "get x", "gc"]);
}

#[test]
fn new_engine_has_fresh_resources() {
    let log = Rc::new(RefCell::new(Vec::new()));
    let engine = ExecutionEngine::new(LoggingEngine::boxed(&log, 0));
    let stats = engine.resource_manager().memory_stats();
    assert_eq!(stats.used, 0);
    assert!(engine.performance_monitor().metrics().all_metrics().is_empty());
}

#[test]
fn finish_run_returns_and_records_the_figures() {
    let log = Rc::new(RefCell::new(Vec::new()));
    let mut engine = ExecutionEngine::new(LoggingEngine::boxed(&log, 0));
    let r = engine.finish_run("s", JSValue::Bool(true), 5, 7);
    assert!(matches!(r.value, JSValue::Bool(true)));
    assert_eq!((r.duration, r.memory_usage), (5, 7));
    let m = engine.performance_monitor().metrics().get_metrics("s").unwrap();
    assert_eq!((m.count, m.total_duration, m.total_memory), (1, 5, 7));
}

#[test]
fn finish_run_skips_recording_that_would_overflow() {
    let log = Rc::new(RefCell::new(Vec::new()));
    let mut engine = ExecutionEngine::new(LoggingEngine::boxed(&log, 0));
    let r = engine.finish_run("s", JSValue::Null, u128::MAX, 1);
    assert_eq!(r.duration, u128::MAX);
    assert!(engine.performance_monitor().metrics().get_metrics("s").is_none());
}
