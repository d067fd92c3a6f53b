//! The JavaScript engine abstraction: values, configuration, errors, the
//! engine trait and the engine factory.
use vstd::prelude::*;
use crate::text::joined;

verus! {

/// The JavaScript engines that the runtime knows.
#[derive(Clone, Copy, Debug, PartialEq, Eq)]
pub enum EngineType {
    QuickJS,
    JavaScriptCore,
    V8,
}

impl EngineType {
    /// The number of the engine: 0 for QuickJS, 1 for JavaScriptCore, 2 for V8.
    pub open spec fn number(self) -> u32 {
        match self {
            EngineType::QuickJS => 0,
            EngineType::JavaScriptCore => 1,
            EngineType::V8 => 2,
        }
    }

    /// The engine with number `code`; QuickJS for any unknown number.
    pub open spec fn of_number(code: u32) -> EngineType {
        if code == 1 {
            EngineType::JavaScriptCore
        } else if code == 2 {
            EngineType::V8
        } else {
            EngineType::QuickJS
        }
    }

    /// The engine with number `code`; QuickJS for any unknown number.
    pub fn from_code(code: u32) -> (engine: Self)
        ensures
            engine == EngineType::of_number(code),
            code <= 2 ==> engine.number() == code,
    {
        if code == 1 {
            EngineType::JavaScriptCore
        } else if code == 2 {
            EngineType::V8
        } else {
            EngineType::QuickJS
        }
    }

    /// The number of the engine.
    pub fn code(&self) -> (code: u32)
        ensures
            code == self.number(),
    {
        match self {
            EngineType::QuickJS => 0,
            EngineType::JavaScriptCore => 1,
            EngineType::V8 => 2,
        }
    }
}

/// Reading back the number of an engine type gives that engine type.
pub proof fn law_number_round_trip(t: EngineType)
    ensures
        EngineType::of_number(t.number()) == t,
{
}

/// The configuration of an engine.
#[derive(Clone, Copy, Debug)]
pub struct EngineConfig {
    /// The memory limit in bytes.
    pub memory_limit: usize,
    pub enable_jit: bool,
    pub enable_profiler: bool,
}

impl Default for EngineConfig {
    /// 16 MiB of memory, JIT on, profiler off.
    fn default() -> (config: Self)
        ensures
            config.memory_limit == 16 * 1024 * 1024,
            config.enable_jit,
            !config.enable_profiler,
    {
        EngineConfig { memory_limit: 16 * 1024 * 1024, enable_jit: true, enable_profiler: false }
    }
}

/// A JavaScript value.
#[derive(Debug)]
pub enum JSValue {
    Null,
    Undefined,
    Bool(bool),
    /// A number, held as the bit pattern of its IEEE 754 double.
    Number(u64),
    String(String),
    Array(Vec<JSValue>),
    /// An object: its properties, each name at most once.
    Object(Vec<(String, JSValue)>),
}

/// An error of an engine.
#[derive(Clone, Debug)]
pub enum EngineError {
    ExecutionError(String),
    TypeError(String),
    MemoryError(String),
    NotImplemented(String),
    NotInitialized,
}

/// Whether `e` is a `NotImplemented` error with the message `message`.
pub open spec fn not_implemented(e: EngineError, message: Seq<char>) -> bool {
    e matches EngineError::NotImplemented(m) && m@ == message
}

impl JSValue {
    /// The string that the value holds; a `TypeError` for any other value.
    pub fn as_string(&self) -> (result: Result<String, EngineError>)
        ensures
            self matches JSValue::String(s) ==> (result matches Ok(r) && r@ == s@),
            !(self is String) ==> (result matches Err(EngineError::TypeError(m)) && m@
                == "Expected string"@),
    {
        match self {
            JSValue::String(s) => Ok(s.clone()),
            _ => Err(EngineError::TypeError(String::from_str("Expected string"))),
        }
    }
}

/// Memory figures of an engine.
#[derive(Clone, Copy, Debug)]
pub struct MemoryStats {
    pub total: u64,
    pub used: u64,
    pub peak: u64,
}

/// The memory figures of an engine that reports only its limit.
pub fn limit_stats(config: &EngineConfig) -> (stats: MemoryStats)
    ensures
        stats.total == config.memory_limit,
        stats.used == 0,
        stats.peak == 0,
{
    MemoryStats { total: config.memory_limit as u64, used: 0, peak: 0 }
}

/// The outcome of a creation: `Ok(())` when an engine was made, else the
/// error.
pub open spec fn creation_outcome<E>(r: Result<E, EngineError>) -> Result<(), EngineError> {
    match r {
        Ok(_) => Ok(()),
        Err(e) => Err(e),
    }
}

/// A JavaScript engine.
///
/// Each operation is described by a relation between what the engine is
/// handed and what it gives back, which each engine may define for itself;
/// an engine that does not allows any result. An engine may give different
/// results for the same request at different times.
pub trait JSEngine {
    /// Whether creating an engine with `config` may end with `outcome`.
    open spec fn starts(config: EngineConfig, outcome: Result<(), EngineError>) -> bool where Self: Sized {
        true
    }

    /// Whether executing `code` may give `result`.
    open spec fn executes(&self, code: Seq<char>, result: Result<JSValue, EngineError>) -> bool {
        true
    }

    /// Whether evaluating `code` may give `result`.
    open spec fn evaluates(&self, code: Seq<char>, result: Result<JSValue, EngineError>) -> bool {
        true
    }

    /// Whether calling `func` with `args` may give `result`.
    open spec fn calls(&self, func: Seq<char>, args: Seq<JSValue>, result: Result<JSValue, EngineError>) -> bool {
        true
    }

    /// Whether setting the global `name` to `value` may give `result`.
    open spec fn sets_global(&self, name: Seq<char>, value: JSValue, result: Result<(), EngineError>) -> bool {
        true
    }

    /// Whether reading the global `name` may give `result`.
    open spec fn reads_global(&self, name: Seq<char>, result: Result<JSValue, EngineError>) -> bool {
        true
    }

    /// Whether the engine may report the memory figures `stats`.
    open spec fn reports_memory(&self, stats: MemoryStats) -> bool {
        true
    }

    /// Whether a garbage collection may give `result`.
    open spec fn collects(&self, result: Result<(), EngineError>) -> bool {
        true
    }

    fn new(config: EngineConfig) -> (engine: Result<Self, EngineError>) where Self: Sized
        ensures
            Self::starts(config, creation_outcome(engine)),
    ;

    fn execute(&self, code: &str) -> (result: Result<JSValue, EngineError>)
        ensures
            self.executes(code@, result),
    ;

    fn eval(&self, code: &str) -> (result: Result<JSValue, EngineError>)
        ensures
            self.evaluates(code@, result),
    ;

    fn call(&self, func: &str, args: Vec<JSValue>) -> (result: Result<JSValue, EngineError>)
        ensures
            self.calls(func@, args@, result),
    ;

    fn set_global(&self, name: &str, value: JSValue) -> (result: Result<(), EngineError>)
        ensures
            self.sets_global(name@, value, result),
    ;

    fn get_global(&self, name: &str) -> (result: Result<JSValue, EngineError>)
        ensures
            self.reads_global(name@, result),
    ;

    fn memory_usage(&self) -> (stats: MemoryStats)
        ensures
            self.reports_memory(stats),
    ;

    fn gc(&self) -> (result: Result<(), EngineError>)
        ensures
            self.collects(result),
    ;
}

/// The code that calls `func` with the arguments of the JSON array
/// `args_json`: `func(...args_json)`.
pub fn call_expression(func: &str, args_json: &str) -> (code: String)
    ensures
        code@ == func@ + "(..."@ + args_json@ + ")"@,
{
    let a = joined(func, "(...");
    let b = joined(a.as_str(), args_json);
    joined(b.as_str(), ")")
}

/// The statement that assigns the JSON value `value_json` to the global
/// `name`: `name = value_json;`.
pub fn assignment_statement(name: &str, value_json: &str) -> (code: String)
    ensures
        code@ == name@ + " = "@ + value_json@ + ";"@,
{
    let a = joined(name, " = ");
    let b = joined(a.as_str(), value_json);
    joined(b.as_str(), ";")
}

/// The statement that reads the global `name`: `name;`.
pub fn global_read_statement(name: &str) -> (code: String)
    ensures
        code@ == name@ + ";"@,
{
    joined(name, ";")
}

/// The V8 engine, which is not yet implemented: every operation but the
/// memory figures and garbage collection is refused.
pub struct V8Engine {
    config: EngineConfig,
}

impl V8Engine {
    /// The configuration the engine was made with.
    pub closed spec fn configuration(&self) -> EngineConfig {
        self.config
    }
}

impl JSEngine for V8Engine {
    open spec fn starts(config: EngineConfig, outcome: Result<(), EngineError>) -> bool {
        outcome is Ok
    }

    open spec fn executes(&self, code: Seq<char>, result: Result<JSValue, EngineError>) -> bool {
        result matches Err(e) && not_implemented(e, "V8 execution not yet implemented"@)
    }

    open spec fn evaluates(&self, code: Seq<char>, result: Result<JSValue, EngineError>) -> bool {
        result matches Err(e) && not_implemented(e, "V8 eval not yet implemented"@)
    }

    open spec fn calls(&self, func: Seq<char>, args: Seq<JSValue>, result: Result<JSValue, EngineError>) -> bool {
        result matches Err(e) && not_implemented(e, "V8 call not yet implemented"@)
    }

    open spec fn sets_global(&self, name: Seq<char>, value: JSValue, result: Result<(), EngineError>) -> bool {
        result matches Err(e) && not_implemented(e, "V8 set_global not yet implemented"@)
    }

    open spec fn reads_global(&self, name: Seq<char>, result: Result<JSValue, EngineError>) -> bool {
        result matches Err(e) && not_implemented(e, "V8 get_global not yet implemented"@)
    }

    open spec fn reports_memory(&self, stats: MemoryStats) -> bool {
        stats.total == self.configuration().memory_limit && stats.used == 0 && stats.peak == 0
    }

    open spec fn collects(&self, result: Result<(), EngineError>) -> bool {
        result is Ok
    }

    fn new(config: EngineConfig) -> (engine: Result<Self, EngineError>)
        ensures
            engine matches Ok(e) && e.configuration() == config,
    {
        Ok(V8Engine { config })
    }

    fn execute(&self, code: &str) -> (result: Result<JSValue, EngineError>)
        ensures
            result matches Err(e) && not_implemented(e, "V8 execution not yet implemented"@),
    {
        Err(EngineError::NotImplemented(String::from_str("V8 execution not yet implemented")))
    }

    fn eval(&self, code: &str) -> (result: Result<JSValue, EngineError>)
        ensures
            result matches Err(e) && not_implemented(e, "V8 eval not yet implemented"@),
    {
        Err(EngineError::NotImplemented(String::from_str("V8 eval not yet implemented")))
    }

    fn call(&self, func: &str, args: Vec<JSValue>) -> (result: Result<JSValue, EngineError>)
        ensures
            result matches Err(e) && not_implemented(e, "V8 call not yet implemented"@),
    {
        Err(EngineError::NotImplemented(String::from_str("V8 call not yet implemented")))
    }

    fn set_global(&self, name: &str, value: JSValue) -> (result: Result<(), EngineError>)
        ensures
            result matches Err(e) && not_implemented(e, "V8 set_global not yet implemented"@),
    {
        Err(EngineError::NotImplemented(String::from_str("V8 set_global not yet implemented")))
    }

    fn get_global(&self, name: &str) -> (result: Result<JSValue, EngineError>)
        ensures
            result matches Err(e) && not_implemented(e, "V8 get_global not yet implemented"@),
    {
        Err(EngineError::NotImplemented(String::from_str("V8 get_global not yet implemented")))
    }

    fn memory_usage(&self) -> (stats: MemoryStats)
        ensures
            stats.total == self.configuration().memory_limit,
            stats.used == 0,
            stats.peak == 0,
    {
        limit_stats(&self.config)
    }

    fn gc(&self) -> (result: Result<(), EngineError>)
        ensures
            result is Ok,
    {
        Ok(())
    }
}

/// Creates engines.
pub struct EngineFactory;

impl EngineFactory {
    /// Creates an engine of type `engine_type`. QuickJS is the engine `Q`;
    /// V8 is not enabled and JavaScriptCore not yet implemented, and both are
    /// refused.
    pub fn create<Q: JSEngine + 'static>(engine_type: EngineType, config: EngineConfig) -> (engine:
        Result<Box<dyn JSEngine>, EngineError>)
        ensures
            engine_type == EngineType::V8 ==> (engine matches Err(e) && not_implemented(
                e,
                "V8 not enabled"@,
            )),
            engine_type == EngineType::QuickJS ==> Q::starts(config, creation_outcome(engine)),
            engine_type == EngineType::JavaScriptCore ==> (engine matches Err(e) && not_implemented(
                e,
                "JavaScriptCore not yet implemented"@,
            )),
    {
        match engine_type {
            EngineType::QuickJS => {
                match Q::new(config) {
                    Ok(q) => {
                        let boxed: Box<dyn JSEngine> = Box::new(q);
                        Ok(boxed)
                    },
                    Err(e) => Err(e),
                }
            },
            EngineType::V8 => Err(EngineError::NotImplemented(String::from_str("V8 not enabled"))),
            EngineType::JavaScriptCore => Err(
                EngineError::NotImplemented(String::from_str("JavaScriptCore not yet implemented")),
            ),
        }
    }
}

} // verus!
