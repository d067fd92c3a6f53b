//! The OpenClaw host object.
use vstd::prelude::*;
use crate::engine::{EngineError, JSEngine, JSValue};
use super::{is_text, properties, string_object, string_object_of, text};
use super::nodejs::PairView;

verus! {

/// The names and values of the gateway object's stubs.
pub open spec fn gateway_pairs() -> Seq<PairView> {
    seq![
        ("connect"@, "[Function: connect]"@),
        ("send"@, "[Function: send]"@),
        ("disconnect"@, "[Function: disconnect]"@),
    ]
}

/// The names and values of the agent object's stubs.
pub open spec fn agent_pairs() -> Seq<PairView> {
    seq![
        ("execute"@, "[Function: execute]"@),
        ("onMessage"@, "[Function: onMessage]"@),
        ("onToolCall"@, "[Function: onToolCall]"@),
    ]
}

/// The names and values of the tools object's stubs.
pub open spec fn tools_pairs() -> Seq<PairView> {
    seq![
        ("register"@, "[Function: register]"@),
        ("execute"@, "[Function: execute]"@),
        ("list"@, "[Function: list]"@),
    ]
}

/// The gateway object: `connect`, `send` and `disconnect` stubs.
pub fn create_gateway_object() -> (v: JSValue)
    ensures
        string_object(v, gateway_pairs()),
{
    let v = string_object_of(
        &[
            ("connect", "[Function: connect]"),
            ("send", "[Function: send]"),
            ("disconnect", "[Function: disconnect]"),
        ],
    );
    v
}

/// The agent object: `execute`, `onMessage` and `onToolCall` stubs.
pub fn create_agent_object() -> (v: JSValue)
    ensures
        string_object(v, agent_pairs()),
{
    string_object_of(
        &[
            ("execute", "[Function: execute]"),
            ("onMessage", "[Function: onMessage]"),
            ("onToolCall", "[Function: onToolCall]"),
        ],
    )
}

/// The tools object: `register`, `execute` and `list` stubs.
pub fn create_tools_object() -> (v: JSValue)
    ensures
        string_object(v, tools_pairs()),
{
    string_object_of(
        &[
            ("register", "[Function: register]"),
            ("execute", "[Function: execute]"),
            ("list", "[Function: list]"),
        ],
    )
}

/// Whether `v` is the `openclaw` object: its version `1.0.0` and its
/// gateway, agent and tools objects, in order.
pub open spec fn is_openclaw_object(v: JSValue) -> bool {
    &&& v is Object
    &&& properties(v).len() == 4
    &&& properties(v)[0].0@ == "version"@ && is_text(properties(v)[0].1, "1.0.0"@)
    &&& properties(v)[1].0@ == "gateway"@ && string_object(properties(v)[1].1, gateway_pairs())
    &&& properties(v)[2].0@ == "agent"@ && string_object(properties(v)[2].1, agent_pairs())
    &&& properties(v)[3].0@ == "tools"@ && string_object(properties(v)[3].1, tools_pairs())
}

/// The `openclaw` object: its version `1.0.0` and its gateway, agent and
/// tools objects.
pub fn create_openclaw_object() -> (v: JSValue)
    ensures
        is_openclaw_object(v),
{
    let mut props: Vec<(String, JSValue)> = Vec::new();
    props.push((String::from_str("version"), text("1.0.0")));
    props.push((String::from_str("gateway"), create_gateway_object()));
    props.push((String::from_str("agent"), create_agent_object()));
    props.push((String::from_str("tools"), create_tools_object()));
    JSValue::Object(props)
}

/// Sets the global `openclaw` to the OpenClaw object; the result is the
/// engine's.
pub fn setup<E: JSEngine + ?Sized>(engine: &E) -> (result: Result<(), EngineError>)
    ensures
        exists|v: JSValue| is_openclaw_object(v) && engine.sets_global("openclaw"@, v, result),
{
    let v = create_openclaw_object();
    let ghost object = v;
    let result = engine.set_global("openclaw", v);
    proof {
        assert(is_openclaw_object(object) && engine.sets_global("openclaw"@, object, result));
    }
    result
}

} // verus!
