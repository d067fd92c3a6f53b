use std::cell::RefCell;
use std::rc::Rc;

use zeo::engine::{EngineConfig, EngineError, JSEngine, JSValue, MemoryStats};
use zeo::integration::nodejs::{
    create_argv_array, create_buffer_object, create_console_object, create_env_object,
    create_module_object, create_process_object, install_globals, nodejs_globals, number_bits,
    ProcessInfo,
};
use zeo::integration::openclaw::{
    create_agent_object, create_gateway_object, create_openclaw_object, create_tools_object,
};
use zeo::integration::{string_object_of, text, IntegrationLayer};

/// An engine that keeps the names of the globals it is given and refuses
/// the global named in `refuse`.
struct GlobalsEngine {
    names: Rc<RefCell<Vec<String>>>,
    refuse: &'static str,
}

impl JSEngine for GlobalsEngine {
    fn new(_config: EngineConfig) -> Result<Self, EngineError> {
        Ok(GlobalsEngine { names: Rc::new(RefCell::new(Vec::new())), refuse: "" })
    }

    fn execute(&self, _code: &str) -> Result<JSValue, EngineError> {
        Ok(JSValue::Undefined)
    }

    fn eval(&self, _code: &str) -> Result<JSValue, EngineError> {
        Ok(JSValue::Undefined)
    }

    fn call(&self, _func: &str, _args: Vec<JSValue>) -> Result<JSValue, EngineError> {
        Ok(JSValue::Undefined)
    }

    fn set_global(&self, name: &str, _value: JSValue) -> Result<(), EngineError> {
        if name == self.refuse {
            return Err(EngineError::ExecutionError(format!("cannot set {}", name)));
        }
        self.names.borrow_mut().push(name.to_string());
        Ok(())
    }

    fn get_global(&self, _name: &str) -> Result<JSValue, EngineError> {
        Ok(JSValue::Undefined)
    }

    fn memory_usage(&self) -> MemoryStats {
        MemoryStats { total: 0, used: 0, peak: 0 }
    }

    fn gc(&self) -> Result<(), EngineError> {
        Ok(())
    }
}

fn props(v: &JSValue) -> &Vec<(String, JSValue)> {
    match v {
        JSValue::Object(p) => p,
        other => panic!("not an object: {:?}", other),
    }
}

fn str_of(v: &JSValue) -> &str {
    match v {
        JSValue::String(s) => s.as_str(),
        other => panic!("not a string: {:?}", other),
    }
}

fn string_pairs(v: &JSValue) -> Vec<(String, String)> {
    props(v).iter().map(|(k, x)| (k.clone(), str_of(x).to_string())).collect()
}

fn pairs(items: &[(&str, &str)]) -> Vec<(String, String)> {
    items.iter().map(|(a, b)| (a.to_string(), b.to_string())).collect()
}

fn sample_info() -> ProcessInfo {
    ProcessInfo {
        version: "0.1.0".to_string(),
        platform: "linux".to_string(),
        arch: "x86_64".to_string(),
        pid: 4242,
        env: pairs(&[("HOME", "/root"), ("PATH", "/bin")]),
        argv: vec!["zeo".to_string(), "main.js".to_string()],
    }
}

#[test]
fn text_and_string_objects() {
    assert_eq!(str_of(&text("abc")), "abc");
    let v = string_object_of(&[("a", "1"), ("b", "2")]);
    assert_eq!(string_pairs(&v), pairs(&[("a", "1"), ("b", "2")]));
}

#[test]
fn number_bits_of_small_numbers() {
    assert_eq!(number_bits(0), 0);
    assert_eq!(number_bits(1), 0x3FF0_0000_0000_0000);
    assert_eq!(number_bits(2), 0x4000_0000_0000_0000);
    assert_eq!(number_bits(3), 0x4008_0000_0000_0000);
}

#[test]
fn number_bits_match_f64_encoding() {
    for n in [5u32, 7, 1000, 4242, 65535, 65536, 1 << 31, u32::MAX] {
        assert_eq!(number_bits(n), (n as f64).to_bits(), "n = {}", n);
    }
}

#[test]
fn env_object_later_value_replaces_earlier() {
    let env = pairs(&[("A", "1"), ("B", "2"), ("A", "3")]);
    let v = create_env_object(&env);
    assert_eq!(string_pairs(&v), pairs(&[("A", "3"), ("B", "2")]));
}

#[test]
fn env_object_of_no_variables_is_empty() {
    let v = create_env_object(&Vec::new());
    assert!(props(&v).is_empty());
}

#[test]
fn argv_array_keeps_order() {
    let v = create_argv_array(&vec!["a".to_string(), "b".to_string()]);
    match v {
        JSValue::Array(items) => {
            let got: Vec<&str> = items.iter().map(str_of).collect();
            assert_eq!(got, ["a", "b"]);
        }
        other => panic!("not an array: {:?}", other),
    }
}

#[test]
fn process_object_fields() {
    let v = create_process_object(&sample_info());
    let p = props(&v);
    let names: Vec<&str> = p.iter().map(|(k, _)| k.as_str()).collect();
    assert_eq!(names, ["version", "platform", "arch", "pid", "env", "argv"]);
    assert_eq!(str_of(&p[0].1), "0.1.0");
    assert_eq!(str_of(&p[1].1), "linux");
    assert_eq!(str_of(&p[2].1), "x86_64");
    assert!(matches!(p[3].1, JSValue::Number(b) if b == 4242f64.to_bits()));
    assert_eq!(string_pairs(&p[4].1), pairs(&[("HOME", "/root"), ("PATH", "/bin")]));
}

#[test]
fn console_and_buffer_objects() {
    assert_eq!(
        string_pairs(&create_console_object()),
        pairs(&[
            ("log", "[Function: log]"),
            ("error", "[Function: error]"),
            ("warn", "[Function: warn]"),
            ("info", "[Function: info]"),
            ("debug", "[Function: debug]"),
        ])
    );
    assert_eq!(
        string_pairs(&create_buffer_object()),
        pairs(&[
            ("from", "[Function: from]"),
            ("alloc", "[Function: alloc]"),
            ("byteLength", "[Function: byteLength]"),
        ])
    );
}

#[test]
fn module_object_fields() {
    let v = create_module_object();
    let p = props(&v);
    let names: Vec<&str> = p.iter().map(|(k, _)| k.as_str()).collect();
    assert_eq!(names, ["exports", "require", "id", "filename", "loaded"]);
    assert!(props(&p[0].1).is_empty());
    assert_eq!(str_of(&p[1].1), "[Function: require]");
    assert_eq!(str_of(&p[2].1), "");
    assert!(matches!(p[4].1, JSValue::Bool(false)));
}

#[test]
fn nodejs_globals_in_order() {
    let g = nodejs_globals(&sample_info());
    let names: Vec<&str> = g.iter().map(|(k, _)| k.as_str()).collect();
    assert_eq!(
        names,
        ["process", "console", "Buffer", "require", "__filename", "__dirname", "module", "exports"]
    );
    assert_eq!(str_of(&g[3].1), "[Function: require]");
    assert!(props(&g[7].1).is_empty());
}

#[test]
fn install_stops_at_first_refusal() {
    let names = Rc::new(RefCell::new(Vec::new()));
    let engine = GlobalsEngine { names: names.clone(), refuse: "Buffer" };
    let r = install_globals(&engine, nodejs_globals(&sample_info()));
    assert!(matches!(r, Err(EngineError::ExecutionError(ref m)) if m == "cannot set Buffer"));
    assert_eq!(names.borrow().as_slice(), ["process", "console"]);
}

#[test]
fn openclaw_objects() {
    assert_eq!(
        string_pairs(&create_gateway_object()),
        pairs(&[
            ("connect", "[Function: connect]"),
            ("send", "[Function: send]"),
            ("disconnect", "[Function: disconnect]"),
        ])
    );
    assert_eq!(
        string_pairs(&create_agent_object()),
        pairs(&[
            ("execute", "[Function: execute]"),
            ("onMessage", "[Function: onMessage]"),
            ("onToolCall", "[Function: onToolCall]"),
        ])
    );
    assert_eq!(
        string_pairs(&create_tools_object()),
        pairs(&[("register", "[Function: register]"), ("execute", "[Function: execute]"), ("list", "[Function: list]")])
    );
    let v = create_openclaw_object();
    let p = props(&v);
    let names: Vec<&str> = p.iter().map(|(k, _)| k.as_str()).collect();
    assert_eq!(names, ["version", "gateway", "agent", "tools"]);
    assert_eq!(str_of(&p[0].1), "1.0.0");
}

#[test]
fn integration_layer_sets_globals() {
    let names = Rc::new(RefCell::new(Vec::new()));
    let layer = IntegrationLayer::new(Box::new(GlobalsEngine { names: names.clone(), refuse: "" }));
    layer.setup_openclaw_compat().unwrap();
    layer.setup_nodejs_compat(&sample_info()).unwrap();
    assert_eq!(
        names.borrow().as_slice(),
        ["openclaw", "process", "console", "Buffer", "require", "__filename", "__dirname", "module", "exports"]
    );
}

#[test]
fn install_of_no_globals_succeeds() {
    let names = Rc::new(RefCell::new(Vec::new()));
    let engine = GlobalsEngine { names: names.clone(), refuse: "" };
    assert!(install_globals(&engine, Vec::new()).is_ok());
    assert!(names.borrow().is_empty());
}
