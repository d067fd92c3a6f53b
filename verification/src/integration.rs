//! Compatibility layers: globals that make the engine look like Node.js and
//! like an OpenClaw host.
pub mod nodejs;
pub mod openclaw;

use vstd::prelude::*;
use crate::engine::{EngineError, JSEngine, JSValue};
use self::nodejs::ProcessInfo;

verus! {

/// Whether `v` is the string `s`.
pub open spec fn is_text(v: JSValue, s: Seq<char>) -> bool {
    v matches JSValue::String(x) && x@ == s
}

/// The properties of `v` when it is an object, else none.
pub open spec fn properties(v: JSValue) -> Seq<(String, JSValue)> {
    match v {
        JSValue::Object(props) => props@,
        _ => Seq::empty(),
    }
}

/// Whether `v` is an object whose properties are, in order, the strings of
/// `pairs` under their names.
pub open spec fn string_object(v: JSValue, pairs: Seq<(Seq<char>, Seq<char>)>) -> bool {
    &&& v is Object
    &&& properties(v).len() == pairs.len()
    &&& forall|i: int|
        0 <= i < pairs.len() ==> (#[trigger] properties(v)[i]).0@ == pairs[i].0 && is_text(
            properties(v)[i].1,
            pairs[i].1,
        )
}

/// Whether `v` is an object with no properties.
pub open spec fn empty_object(v: JSValue) -> bool {
    v is Object && properties(v).len() == 0
}

/// A string value.
pub fn text(s: &str) -> (v: JSValue)
    ensures
        is_text(v, s@),
{
    JSValue::String(String::from_str(s))
}

/// An object with a string property for each name and value of `pairs`,
/// in order.
pub fn string_object_of(pairs: &[(&str, &str)]) -> (v: JSValue)
    ensures
        string_object(v, pairs@.map_values(|p: (&str, &str)| (p.0@, p.1@))),
{
    let mut props: Vec<(String, JSValue)> = Vec::new();
    let mut i: usize = 0;
    while i < pairs.len()
        invariant
            i <= pairs@.len(),
            props@.len() == i,
            forall|j: int|
                0 <= j < i ==> (#[trigger] props@[j]).0@ == pairs@[j].0@ && is_text(
                    props@[j].1,
                    pairs@[j].1@,
                ),
        decreases pairs@.len() - i,
    {
        let (name, value) = pairs[i];
        props.push((String::from_str(name), text(value)));
        i = i + 1;
    }
    JSValue::Object(props)
}

/// Sets up the compatibility globals on an engine.
pub struct IntegrationLayer<E: JSEngine + ?Sized = dyn JSEngine> {
    engine: Box<E>,
}

impl<E: JSEngine + ?Sized> IntegrationLayer<E> {
    /// The engine the layer sets globals on.
    pub closed spec fn target(&self) -> Box<E> {
        self.engine
    }

    /// A layer for `engine`.
    pub fn new(engine: Box<E>) -> (layer: Self)
        ensures
            layer.target() == engine,
    {
        let ghost given = engine;
        let layer = IntegrationLayer { engine };
        assert(layer.engine == given);
        layer
    }

    /// Sets the OpenClaw globals on the engine.
    pub fn setup_openclaw_compat(&self) -> (result: Result<(), EngineError>)
        ensures
            exists|v: JSValue|
                openclaw::is_openclaw_object(v) && self.target().sets_global("openclaw"@, v, result),
    {
        openclaw::setup(&*self.engine)
    }

    /// Sets the Node.js globals on the engine, with the process figures
    /// `info`.
    pub fn setup_nodejs_compat(&self, info: &ProcessInfo) -> (result: Result<(), EngineError>)
        ensures
            exists|g: Seq<(String, JSValue)>|
                nodejs::are_nodejs_globals(g, *info) && nodejs::installs(&*self.target(), g, result),
    {
        nodejs::setup(&*self.engine, info)
    }
}

} // verus!
