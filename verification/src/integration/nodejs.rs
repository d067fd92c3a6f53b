//! The Node.js globals.
use vstd::arithmetic::power2::{lemma2_to64, lemma2_to64_rest, pow2};
use vstd::prelude::*;
use crate::engine::{EngineError, JSEngine, JSValue};
use super::{empty_object, is_text, properties, string_object, string_object_of, text};

verus! {

/// The figures of the host process that the `process` object shows.
pub struct ProcessInfo {
    /// The runtime's version.
    pub version: String,
    /// The operating system.
    pub platform: String,
    /// The processor architecture.
    pub arch: String,
    /// The process id.
    pub pid: u32,
    /// The environment variables, name and value.
    pub env: Vec<(String, String)>,
    /// The command line arguments.
    pub argv: Vec<String>,
}

/// Whether `bits` is the IEEE 754 double encoding of the whole number `n`
/// (below `2^32`): zero for zero, else exponent `1023 + e` and fraction
/// `(n - 2^e) * 2^(52 - e)` where `2^e <= n < 2^(e + 1)`.
pub open spec fn double_encoding(bits: u64, n: nat) -> bool {
    if n == 0 {
        bits == 0
    } else {
        exists|e: nat|
            e < 32 && pow2(e) <= n < pow2(e + 1) && bits == (1023 + e) * pow2(52) + (n - #[trigger] pow2(
                e,
            )) * pow2((52 - e) as nat)
    }
}

/// The double encoding of `n`.
pub fn number_bits(n: u32) -> (bits: u64)
    ensures
        double_encoding(bits, n as nat),
{
    if n == 0 {
        return 0;
    }
    proof {
        lemma2_to64();
    }
    let mut p: u64 = 1;
    let mut e: u64 = 0;
    while p <= (n as u64) / 2
        invariant
            1 <= p <= n,
            e < 32,
            p == pow2(e as nat),
            n < 0x1_0000_0000,
        decreases n - p,
    {
        proof {
            lemma2_to64();
            vstd::arithmetic::power2::lemma_pow2_unfold((e + 1) as nat);
            if e + 1 >= 32 {
                vstd::arithmetic::power2::lemma_pow2_strictly_increases(31, (e + 1) as nat);
            }
        }
        p = p * 2;
        e = e + 1;
    }
    proof {
        lemma2_to64();
        vstd::arithmetic::power2::lemma_pow2_unfold((e + 1) as nat);
    }
    let mut q: u64 = 1;
    let mut k: u64 = 0;
    while k < 52 - e
        invariant
            e < 32,
            k <= 52 - e,
            q == pow2(k as nat),
        decreases 52 - e - k,
    {
        proof {
            lemma2_to64();
            lemma2_to64_rest();
            vstd::arithmetic::power2::lemma_pow2_unfold((k + 1) as nat);
            vstd::arithmetic::power2::lemma_pow2_strictly_increases((k + 1) as nat, 53);
        }
        q = q * 2;
        k = k + 1;
    }
    proof {
        vstd::arithmetic::power2::lemma_pow2_adds(e as nat, (52 - e) as nat);
        assert(pow2(52) == 0x10_0000_0000_0000) by {
            lemma2_to64_rest();
        }
        assert(q > 0) by {
            vstd::arithmetic::power2::lemma_pow2_pos(k as nat);
        }
        let r = (n - p) as int;
        assert(r * q < 0x10_0000_0000_0000) by (nonlinear_arith)
            requires
                0 <= r < p,
                p * q == 0x10_0000_0000_0000int,
                q > 0,
        ;
        assert(r * q >= 0) by (nonlinear_arith)
            requires
                0 <= r,
                q > 0,
        ;
    }
    let bits = (1023 + e) * 0x10_0000_0000_0000 + (n as u64 - p) * q;
    proof {
        assert(pow2(e as nat) <= n < pow2((e + 1) as nat));
    }
    bits
}

/// A view of the name and value of an environment variable.
pub type PairView = (Seq<char>, Seq<char>);

/// `m` with `p` added: its value replaces that of an entry with the same
/// name, else it comes at the end (the insertion of a map, kept in order).
pub open spec fn insert_pair(m: Seq<PairView>, p: PairView) -> Seq<PairView> {
    if exists|i: int| 0 <= i < m.len() && (#[trigger] m[i]).0 == p.0 {
        m.update(choose|i: int| 0 <= i < m.len() && (#[trigger] m[i]).0 == p.0, p)
    } else {
        m.push(p)
    }
}

/// The entries of the map built by inserting the pairs of `s` in order.
pub open spec fn map_entries(s: Seq<PairView>) -> Seq<PairView>
    decreases s.len(),
{
    if s.len() == 0 {
        Seq::empty()
    } else {
        insert_pair(map_entries(s.drop_last()), s.last())
    }
}

/// Whether no two entries share a name.
pub open spec fn distinct_names(m: Seq<PairView>) -> bool {
    forall|i: int, j: int| 0 <= i < j < m.len() ==> (#[trigger] m[i]).0 != (#[trigger] m[j]).0
}

proof fn lemma_insert_pair_distinct(m: Seq<PairView>, p: PairView)
    requires
        distinct_names(m),
    ensures
        distinct_names(insert_pair(m, p)),
{
    if exists|i: int| 0 <= i < m.len() && (#[trigger] m[i]).0 == p.0 {
        let k = choose|i: int| 0 <= i < m.len() && (#[trigger] m[i]).0 == p.0;
        let m2 = m.update(k, p);
        assert forall|i: int, j: int| 0 <= i < j < m2.len() implies (#[trigger] m2[i]).0 != (
        #[trigger] m2[j]).0 by {
            assert(m[i].0 != m[j].0);
        }
    } else {
        let m2 = m.push(p);
        assert forall|i: int, j: int| 0 <= i < j < m2.len() implies (#[trigger] m2[i]).0 != (
        #[trigger] m2[j]).0 by {
            if j < m.len() {
                assert(m[i].0 != m[j].0);
            } else {
                assert(m[i].0 != p.0);
            }
        }
    }
}

/// The position of the property named `key`, or the number of properties.
fn find_name(props: &Vec<(String, JSValue)>, key: &String) -> (j: usize)
    ensures
        j <= props@.len(),
        j < props@.len() ==> props@[j as int].0@ == key@,
        forall|t: int| 0 <= t < j ==> (#[trigger] props@[t]).0@ != key@,
{
    let mut j: usize = 0;
    while j < props.len()
        invariant
            j <= props@.len(),
            forall|t: int| 0 <= t < j ==> (#[trigger] props@[t]).0@ != key@,
        decreases props@.len() - j,
    {
        if props[j].0 == *key {
            return j;
        }
        j = j + 1;
    }
    j
}

/// The `env` object: each environment variable as a string, a later value
/// of a name replacing an earlier one.
pub fn create_env_object(env: &Vec<(String, String)>) -> (v: JSValue)
    ensures
        string_object(v, map_entries(env@.map_values(|p: (String, String)| (p.0@, p.1@)))),
{
    let ghost pairs = env@.map_values(|p: (String, String)| (p.0@, p.1@));
    let mut props: Vec<(String, JSValue)> = Vec::new();
    let mut i: usize = 0;
    while i < env.len()
        invariant
            pairs == env@.map_values(|p: (String, String)| (p.0@, p.1@)),
            i <= env@.len(),
            props@.len() == map_entries(pairs.take(i as int)).len(),
            distinct_names(map_entries(pairs.take(i as int))),
            forall|j: int|
                0 <= j < props@.len() ==> (#[trigger] props@[j]).0@ == map_entries(
                    pairs.take(i as int),
                )[j].0 && is_text(props@[j].1, map_entries(pairs.take(i as int))[j].1),
        decreases env@.len() - i,
    {
        let ghost m = map_entries(pairs.take(i as int));
        let key = env[i].0.clone();
        let value = env[i].1.clone();
        proof {
            assert(pairs.take(i + 1).drop_last() == pairs.take(i as int));
            assert(pairs.take(i + 1).last() == (key@, value@));
            lemma_insert_pair_distinct(m, (key@, value@));
        }
        let j = find_name(&props, &key);
        if j < props.len() {
            proof {
                assert(m[j as int].0 == key@);
                let k = choose|t: int| 0 <= t < m.len() && (#[trigger] m[t]).0 == key@;
                if k != j {
                    assert(m[k].0 != m[j as int].0);
                }
                assert(insert_pair(m, (key@, value@)) == m.update(j as int, (key@, value@)));
            }
            props.set(j, (key, JSValue::String(value)));
        } else {
            proof {
                assert(!exists|t: int| 0 <= t < m.len() && (#[trigger] m[t]).0 == key@) by {
                    if exists|t: int| 0 <= t < m.len() && (#[trigger] m[t]).0 == key@ {
                        let k = choose|t: int| 0 <= t < m.len() && (#[trigger] m[t]).0 == key@;
                        assert(props@[k].0@ == m[k].0);
                    }
                }
            }
            props.push((key, JSValue::String(value)));
        }
        i = i + 1;
    }
    proof {
        assert(pairs.take(env@.len() as int) == pairs);
    }
    JSValue::Object(props)
}

/// The `argv` array: each argument as a string.
pub fn create_argv_array(argv: &Vec<String>) -> (v: JSValue)
    ensures
        is_argv_array(v, argv@),
{
    let mut items: Vec<JSValue> = Vec::new();
    let mut i: usize = 0;
    while i < argv.len()
        invariant
            i <= argv@.len(),
            items@.len() == i,
            forall|j: int| 0 <= j < i ==> is_text(#[trigger] items@[j], argv@[j]@),
        decreases argv@.len() - i,
    {
        items.push(JSValue::String(argv[i].clone()));
        i = i + 1;
    }
    JSValue::Array(items)
}

/// Whether `v` is the `argv` array of the arguments `argv`: each argument as
/// a string, in order.
pub open spec fn is_argv_array(v: JSValue, argv: Seq<String>) -> bool {
    v matches JSValue::Array(items) && items@.len() == argv.len() && forall|i: int|
        0 <= i < argv.len() ==> is_text(#[trigger] items@[i], argv[i]@)
}

/// The environment variables of `info` as name and value views.
pub open spec fn env_pairs(info: ProcessInfo) -> Seq<PairView> {
    info.env@.map_values(|p: (String, String)| (p.0@, p.1@))
}

/// Whether `v` is the `process` object of `info`: version, platform,
/// architecture, pid (as a number), environment and arguments, in order.
pub open spec fn is_process_object(v: JSValue, info: ProcessInfo) -> bool {
    &&& v is Object
    &&& properties(v).len() == 6
    &&& properties(v)[0].0@ == "version"@ && is_text(properties(v)[0].1, info.version@)
    &&& properties(v)[1].0@ == "platform"@ && is_text(properties(v)[1].1, info.platform@)
    &&& properties(v)[2].0@ == "arch"@ && is_text(properties(v)[2].1, info.arch@)
    &&& properties(v)[3].0@ == "pid"@
    &&& properties(v)[3].1 matches JSValue::Number(bits) && double_encoding(bits, info.pid as nat)
    &&& properties(v)[4].0@ == "env"@ && string_object(properties(v)[4].1, map_entries(env_pairs(info)))
    &&& properties(v)[5].0@ == "argv"@ && is_argv_array(properties(v)[5].1, info.argv@)
}

/// The `process` object: version, platform, architecture, pid (as a number),
/// environment and arguments.
pub fn create_process_object(info: &ProcessInfo) -> (v: JSValue)
    ensures
        is_process_object(v, *info),
{
    let mut props: Vec<(String, JSValue)> = Vec::new();
    props.push((String::from_str("version"), JSValue::String(info.version.clone())));
    props.push((String::from_str("platform"), JSValue::String(info.platform.clone())));
    props.push((String::from_str("arch"), JSValue::String(info.arch.clone())));
    props.push((String::from_str("pid"), JSValue::Number(number_bits(info.pid))));
    props.push((String::from_str("env"), create_env_object(&info.env)));
    props.push((String::from_str("argv"), create_argv_array(&info.argv)));
    JSValue::Object(props)
}

/// The names and values of the `console` object's stubs.
pub open spec fn console_pairs() -> Seq<PairView> {
    seq![
        ("log"@, "[Function: log]"@),
        ("error"@, "[Function: error]"@),
        ("warn"@, "[Function: warn]"@),
        ("info"@, "[Function: info]"@),
        ("debug"@, "[Function: debug]"@),
    ]
}

/// The names and values of the `Buffer` object's stubs.
pub open spec fn buffer_pairs() -> Seq<PairView> {
    seq![
        ("from"@, "[Function: from]"@),
        ("alloc"@, "[Function: alloc]"@),
        ("byteLength"@, "[Function: byteLength]"@),
    ]
}

/// Whether `v` is the `module` object: empty `exports`, a `require` stub,
/// empty `id` and `filename`, and `loaded` false.
pub open spec fn is_module_object(v: JSValue) -> bool {
    &&& v is Object
    &&& properties(v).len() == 5
    &&& properties(v)[0].0@ == "exports"@ && empty_object(properties(v)[0].1)
    &&& properties(v)[1].0@ == "require"@ && is_text(properties(v)[1].1, "[Function: require]"@)
    &&& properties(v)[2].0@ == "id"@ && is_text(properties(v)[2].1, ""@)
    &&& properties(v)[3].0@ == "filename"@ && is_text(properties(v)[3].1, ""@)
    &&& properties(v)[4].0@ == "loaded"@ && properties(v)[4].1 == JSValue::Bool(false)
}

/// The `console` object: `log`, `error`, `warn`, `info` and `debug` stubs.
pub fn create_console_object() -> (v: JSValue)
    ensures
        string_object(v, console_pairs()),
{
    string_object_of(
        &[
            ("log", "[Function: log]"),
            ("error", "[Function: error]"),
            ("warn", "[Function: warn]"),
            ("info", "[Function: info]"),
            ("debug", "[Function: debug]"),
        ],
    )
}

/// The `Buffer` object: `from`, `alloc` and `byteLength` stubs.
pub fn create_buffer_object() -> (v: JSValue)
    ensures
        string_object(v, buffer_pairs()),
{
    string_object_of(
        &[
            ("from", "[Function: from]"),
            ("alloc", "[Function: alloc]"),
            ("byteLength", "[Function: byteLength]"),
        ],
    )
}

/// The `module` object: empty `exports`, a `require` stub, empty `id` and
/// `filename`, and `loaded` false.
pub fn create_module_object() -> (v: JSValue)
    ensures
        is_module_object(v),
{
    let mut props: Vec<(String, JSValue)> = Vec::new();
    props.push((String::from_str("exports"), JSValue::Object(Vec::new())));
    props.push((String::from_str("require"), text("[Function: require]")));
    props.push((String::from_str("id"), text("")));
    props.push((String::from_str("filename"), text("")));
    props.push((String::from_str("loaded"), JSValue::Bool(false)));
    JSValue::Object(props)
}

/// The names of the Node.js globals, in the order they are set.
pub open spec fn nodejs_global_names() -> Seq<Seq<char>> {
    seq![
        "process"@,
        "console"@,
        "Buffer"@,
        "require"@,
        "__filename"@,
        "__dirname"@,
        "module"@,
        "exports"@,
    ]
}

/// Whether `g` are the Node.js globals for the process `info`, name and
/// value, in the order they are set: `process`, `console`, `Buffer`,
/// `require`, `__filename`, `__dirname`, `module` and `exports`.
pub open spec fn are_nodejs_globals(g: Seq<(String, JSValue)>, info: ProcessInfo) -> bool {
    &&& g.len() == 8
    &&& forall|i: int| 0 <= i < 8 ==> (#[trigger] g[i]).0@ == nodejs_global_names()[i]
    &&& is_process_object(g[0].1, info)
    &&& string_object(g[1].1, console_pairs())
    &&& string_object(g[2].1, buffer_pairs())
    &&& is_text(g[3].1, "[Function: require]"@)
    &&& is_text(g[4].1, ""@)
    &&& is_text(g[5].1, ""@)
    &&& is_module_object(g[6].1)
    &&& empty_object(g[7].1)
}

/// Whether setting `globals` on `engine`, in order, may end with `result`:
/// every global before the first one the engine refuses was set, and the
/// result is that refusal, or `Ok` when the engine refused none.
pub open spec fn installs<E: JSEngine + ?Sized>(
    engine: &E,
    globals: Seq<(String, JSValue)>,
    result: Result<(), EngineError>,
) -> bool
    decreases globals.len(),
{
    if globals.len() == 0 {
        result is Ok
    } else {
        ||| engine.sets_global(globals[0].0@, globals[0].1, Ok(())) && installs(
            engine,
            globals.drop_first(),
            result,
        )
        ||| result matches Err(e) && engine.sets_global(globals[0].0@, globals[0].1, Err(e))
    }
}

/// The Node.js globals for the process `info`, name and value, in the order
/// they are set: `process`, `console`, `Buffer`, `require`, `__filename`,
/// `__dirname`, `module` and `exports`.
pub fn nodejs_globals(info: &ProcessInfo) -> (globals: Vec<(String, JSValue)>)
    ensures
        are_nodejs_globals(globals@, *info),
{
    let mut globals: Vec<(String, JSValue)> = Vec::new();
    globals.push((String::from_str("process"), create_process_object(info)));
    globals.push((String::from_str("console"), create_console_object()));
    globals.push((String::from_str("Buffer"), create_buffer_object()));
    globals.push((String::from_str("require"), text("[Function: require]")));
    globals.push((String::from_str("__filename"), text("")));
    globals.push((String::from_str("__dirname"), text("")));
    globals.push((String::from_str("module"), create_module_object()));
    globals.push((String::from_str("exports"), JSValue::Object(Vec::new())));
    globals
}

/// Sets each of `globals` on `engine`, in order; stops at the first that the
/// engine refuses and returns its error.
pub fn install_globals<E: JSEngine + ?Sized>(engine: &E, globals: Vec<(String, JSValue)>) -> (result:
    Result<(), EngineError>)
    ensures
        installs(engine, globals@, result),
{
    let ghost all = globals@;
    let mut rest = globals;
    while rest.len() > 0
        invariant
            all == globals@,
            forall|r: Result<(), EngineError>| #[trigger]
                installs(engine, rest@, r) ==> installs(engine, all, r),
        decreases rest@.len(),
    {
        let ghost before = rest@;
        let (name, value) = rest.remove(0);
        proof {
            assert(rest@ == before.drop_first());
            assert(before[0] == (name, value));
        }
        match engine.set_global(name.as_str(), value) {
            Ok(u) => {
                proof {
                    assert(u == ());
                    assert(engine.sets_global(before[0].0@, before[0].1, Ok(())));
                    assert forall|r: Result<(), EngineError>| #[trigger]
                        installs(engine, rest@, r) implies installs(engine, all, r) by {
                        assert(installs(engine, before, r));
                    }
                }
            },
            Err(e) => {
                proof {
                    assert(installs(engine, before, Err(e)));
                }
                return Err(e);
            },
        }
    }
    proof {
        assert(installs(engine, rest@, Ok(())));
    }
    Ok(())
}

/// Sets the Node.js globals of `nodejs_globals` on `engine`, in order;
/// stops at the first that the engine refuses.
pub fn setup<E: JSEngine + ?Sized>(engine: &E, info: &ProcessInfo) -> (result: Result<(), EngineError>)
    ensures
        exists|g: Seq<(String, JSValue)>| are_nodejs_globals(g, *info) && installs(engine, g, result),
{
    let globals = nodejs_globals(info);
    let ghost g = globals@;
    let result = install_globals(engine, globals);
    proof {
        assert(are_nodejs_globals(g, *info) && installs(engine, g, result));
    }
    result
}

} // verus!
