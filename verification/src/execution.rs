//! The execution engine: scripts, the script cache and execution with
//! measurement.
use std::time::Instant;
use vstd::prelude::*;
use crate::clock::{instant_now, nanos_since};
use crate::engine::{EngineError, JSEngine, JSValue, MemoryStats};
use crate::monitor::{can_record, figures_for, recorded_entries, PerformanceMonitor};
use crate::resource::ResourceManager;
use crate::timeline::{failed_run, readings_ordered, timed_run, Event, Timeline};

verus! {

/// A script to run: its id, its code and where it came from.
#[derive(Clone, Debug)]
pub struct Script {
    pub id: String,
    pub code: String,
    pub source: Option<String>,
}

impl Script {
    /// A script with no source.
    pub fn new(id: String, code: String) -> (script: Self)
        ensures
            script.id == id,
            script.code == code,
            script.source is None,
    {
        Script { id, code, source: None }
    }

    /// A script that came from `source`.
    pub fn with_source(id: String, code: String, source: String) -> (script: Self)
        ensures
            script.id == id,
            script.code == code,
            script.source == Some(source),
    {
        Script { id, code, source: Some(source) }
    }
}

/// The outcome of an execution.
#[derive(Debug)]
pub struct ExecutionResult {
    /// The value the engine returned.
    pub value: JSValue,
    /// How long the execution took, in nanoseconds.
    pub duration: u128,
    /// The memory the engine reported in use afterwards, in bytes.
    pub memory_usage: u64,
}

/// Code kept in the script cache.
#[derive(Clone, Debug)]
struct CompiledCode {
    code: String,
    compiled_at: u128,
}

/// A cache entry as contracts see it: script id and code.
pub type CacheView = (Seq<char>, Seq<char>);

/// Whether the cache holds code for `id`.
pub open spec fn cache_has(cache: Seq<CacheView>, id: Seq<char>) -> bool {
    exists|i: int| 0 <= i < cache.len() && (#[trigger] cache[i]).0 == id
}

/// The code the cache holds for `id`.
pub open spec fn cached_code(cache: Seq<CacheView>, id: Seq<char>) -> Seq<char> {
    cache[choose|i: int| 0 <= i < cache.len() && (#[trigger] cache[i]).0 == id].1
}

/// The cache after a script `id` with code `code` was looked up: unchanged
/// when it held code for `id`, else with `code` added for `id`.
pub open spec fn cache_after(cache: Seq<CacheView>, id: Seq<char>, code: Seq<char>) -> Seq<CacheView> {
    if cache_has(cache, id) {
        cache
    } else {
        cache.push((id, code))
    }
}

/// The code that runs for a script `id` with code `code`: the cached code
/// when there is some, else `code`.
pub open spec fn code_to_run(cache: Seq<CacheView>, id: Seq<char>, code: Seq<char>) -> Seq<char> {
    if cache_has(cache, id) {
        cached_code(cache, id)
    } else {
        code
    }
}

/// Whether no two cache entries share a script id.
pub open spec fn cache_distinct(cache: Seq<CacheView>) -> bool {
    forall|i: int, j: int| 0 <= i < j < cache.len() ==> (#[trigger] cache[i]).0 != (#[trigger] cache[j]).0
}

/// `post` is the figures after an execution of `id` that took `duration`
/// nanoseconds and `memory` bytes: recorded, or left as they were when the
/// counters would overflow.
pub open spec fn measured(
    pre: crate::monitor::PerformanceMetrics,
    id: Seq<char>,
    duration: u128,
    memory: u64,
    post: crate::monitor::PerformanceMetrics,
) -> bool {
    if can_record(figures_for(pre.entries(), id), duration, memory) {
        recorded_entries(pre.entries(), id, duration, memory, post.entries())
    } else {
        post.entries() == pre.entries()
    }
}

/// Runs scripts on an engine, caching their code by script id and recording
/// execution figures.
pub struct ExecutionEngine<E: JSEngine + ?Sized = dyn JSEngine> {
    engine: Box<E>,
    resource_manager: ResourceManager,
    performance_monitor: PerformanceMonitor,
    code_cache: Vec<(String, CompiledCode)>,
    origin: Instant,
    timeline: Timeline,
}

impl<E: JSEngine + ?Sized> ExecutionEngine<E> {
    /// The script cache: script id and code, in the order of first use.
    pub closed spec fn cache(&self) -> Seq<CacheView> {
        self.code_cache@.map_values(|e: (String, CompiledCode)| (e.0@, e.1.code@))
    }

    /// The engine that runs the code.
    pub closed spec fn runs_on(&self) -> Box<E> {
        self.engine
    }

    /// The timeline of executions and calls.
    pub closed spec fn clock(&self) -> Timeline {
        self.timeline
    }

    /// The clock readings and engine runs of executions and calls, oldest
    /// first.
    pub open spec fn timeline_events(&self) -> Seq<Event> {
        self.clock().events()
    }

    /// The resource manager.
    pub closed spec fn resources(&self) -> ResourceManager {
        self.resource_manager
    }

    /// The performance monitor.
    pub closed spec fn monitor(&self) -> PerformanceMonitor {
        self.performance_monitor
    }

    /// The invariant of the engine.
    pub open spec fn wf(&self) -> bool {
        &&& self.resources().wf()
        &&& self.monitor().figures().wf()
        &&& cache_distinct(self.cache())
    }

    /// An execution engine on `engine`, with a new resource manager and
    /// performance monitor and an empty cache.
    pub fn new(engine: Box<E>) -> (e: Self)
        ensures
            e.wf(),
            e.runs_on() == engine,
            e.timeline_events() == Seq::<Event>::empty(),
            e.cache() == Seq::<CacheView>::empty(),
            e.monitor().figures().entries().len() == 0,
            e.monitor().added_reporter_count() == 0,
            e.resources().pool().allocated_bytes() == 0,
            e.resources().detector().live() == Map::<usize, (usize, u128)>::empty(),
            e.resources().limits().max_memory == 16 * 1024 * 1024,
            !e.resources().scheduler().running(),
    {
        let ghost given = engine;
        let e = ExecutionEngine {
            engine,
            resource_manager: ResourceManager::new(),
            performance_monitor: PerformanceMonitor::new(),
            code_cache: Vec::new(),
            origin: instant_now(),
            timeline: Timeline::new(),
        };
        proof {
            assert(e.cache() =~= Seq::<CacheView>::empty());
            assert(e.engine == given);
        }
        e
    }

    /// The code to run for `script`: the cached code of its id when there is
    /// some, else its own code, which is then cached under its id.
    pub fn resolve_code(&mut self, script: &Script) -> (code: String)
        requires
            old(self).wf(),
        ensures
            final(self).wf(),
            final(self).runs_on() == old(self).runs_on(),
            final(self).clock() == old(self).clock(),
            code@ == code_to_run(old(self).cache(), script.id@, script.code@),
            final(self).cache() == cache_after(old(self).cache(), script.id@, script.code@),
            final(self).resources() == old(self).resources(),
            final(self).monitor() == old(self).monitor(),
    {
        let ghost pre = self.cache();
        let mut i: usize = 0;
        while i < self.code_cache.len()
            invariant
                pre == self.cache(),
                self.wf(),
                self.resources() == old(self).resources(),
                self.monitor() == old(self).monitor(),
                pre == old(self).cache(),
                cache_distinct(pre),
                i <= pre.len(),
                forall|j: int| 0 <= j < i ==> (#[trigger] pre[j]).0 != script.id@,
            decreases pre.len() - i,
        {
            if self.code_cache[i].0 == script.id {
                let code = self.code_cache[i].1.code.clone();
                proof {
                    assert(pre[i as int].0 == script.id@);
                    let k = choose|k: int| 0 <= k < pre.len() && (#[trigger] pre[k]).0 == script.id@;
                    if k != i {
                        if k < i {
                            assert(pre[k].0 != script.id@);
                        } else {
                            assert(pre[i as int].0 != pre[k].0);
                        }
                    }
                }
                return code;
            }
            i = i + 1;
        }
        let code = script.code.clone();
        let compiled_at = nanos_since(&self.origin);
        self.code_cache.push((script.id.clone(), CompiledCode { code: code.clone(), compiled_at }));
        proof {
            assert(!cache_has(pre, script.id@)) by {
                if cache_has(pre, script.id@) {
                    let k = choose|k: int| 0 <= k < pre.len() && (#[trigger] pre[k]).0 == script.id@;
                    assert(pre[k].0 != script.id@);
                }
            }
            assert(self.cache() =~= pre.push((script.id@, script.code@)));
            assert forall|a: int, b: int| 0 <= a < b < self.cache().len() implies (
            #[trigger] self.cache()[a]).0 != (#[trigger] self.cache()[b]).0 by {
                if b == pre.len() {
                    assert(pre[a].0 != script.id@);
                } else {
                    assert(pre[a].0 != pre[b].0);
                }
            }
        }
        code
    }

    /// The outcome of a run of `id` for which the engine returned `value`
    /// after `duration` nanoseconds with `memory` bytes in use: the run is
    /// recorded under `id` when the counters allow it.
    pub fn finish_run(&mut self, id: &str, value: JSValue, duration: u128, memory: u64) -> (result:
        ExecutionResult)
        requires
            old(self).wf(),
        ensures
            final(self).wf(),
            final(self).runs_on() == old(self).runs_on(),
            final(self).clock() == old(self).clock(),
            result.value == value,
            result.duration == duration,
            result.memory_usage == memory,
            measured(old(self).monitor().figures(), id@, duration, memory, final(self).monitor().figures()),
            final(self).cache() == old(self).cache(),
            final(self).resources() == old(self).resources(),
            final(self).monitor().added_reporter_count() == old(self).monitor().added_reporter_count(),
    {
        if self.performance_monitor.metrics().can_record_execution(id, duration, memory) {
            self.performance_monitor.record_execution_sync(id, duration, memory);
        }
        ExecutionResult { value, duration, memory_usage: memory }
    }

    /// Runs `script`: resolves its code through the cache, executes it, and
    /// records the execution's duration and the engine's memory in use under
    /// the script's id.
    pub fn execute_script_sync(&mut self, script: &Script) -> (result: Result<ExecutionResult, EngineError>)
        requires
            old(self).wf(),
        ensures
            final(self).wf(),
            final(self).runs_on() == old(self).runs_on(),
            final(self).cache() == cache_after(old(self).cache(), script.id@, script.code@),
            final(self).resources() == old(self).resources(),
            final(self).monitor().added_reporter_count() == old(self).monitor().added_reporter_count(),
            result is Err ==> final(self).monitor().figures() == old(self).monitor().figures(),
            readings_ordered(final(self).timeline_events()),
            result matches Ok(r) ==> timed_run(
                old(self).timeline_events(),
                final(self).timeline_events(),
                Event::Executed(code_to_run(old(self).cache(), script.id@, script.code@)),
                r.duration,
            ),
            result is Err ==> failed_run(
                old(self).timeline_events(),
                final(self).timeline_events(),
                Event::Executed(code_to_run(old(self).cache(), script.id@, script.code@)),
            ),
            result matches Ok(r) ==> old(self).runs_on().executes(
                code_to_run(old(self).cache(), script.id@, script.code@),
                Ok(r.value),
            ),
            result matches Err(e) ==> old(self).runs_on().executes(
                code_to_run(old(self).cache(), script.id@, script.code@),
                Err(e),
            ),
            result matches Ok(r) ==> exists|stats: MemoryStats|
                old(self).runs_on().reports_memory(stats) && stats.used == r.memory_usage,
            result matches Ok(r) ==> measured(
                old(self).monitor().figures(),
                script.id@,
                r.duration,
                r.memory_usage,
                final(self).monitor().figures(),
            ),
    {
        let ghost pre = self.timeline_events();
        let start = self.timeline.read();
        let code = self.resolve_code(script);
        let value = match self.timeline.execute(&*self.engine, code.as_str()) {
            Ok(v) => v,
            Err(e) => {
                proof {
                    assert(self.timeline_events().take(pre.len() as int) =~= pre);
                }
                return Err(e);
            },
        };
        let end = self.timeline.read();
        let duration = end - start;
        proof {
            assert(self.timeline_events().take(pre.len() as int) =~= pre);
        }
        let stats = self.engine.memory_usage();
        proof {
            assert(self.runs_on() == old(self).runs_on());
            assert(old(self).runs_on().reports_memory(stats));
        }
        let memory_usage = stats.used;
        Ok(self.finish_run(script.id.as_str(), value, duration, memory_usage))
    }

    /// Calls the function `func` with `args` and records the call's duration
    /// and the engine's memory in use under the function's name.
    pub fn call_function_sync(&mut self, func: &str, args: Vec<JSValue>) -> (result: Result<
        ExecutionResult,
        EngineError,
    >)
        requires
            old(self).wf(),
        ensures
            final(self).wf(),
            final(self).runs_on() == old(self).runs_on(),
            final(self).cache() == old(self).cache(),
            final(self).resources() == old(self).resources(),
            final(self).monitor().added_reporter_count() == old(self).monitor().added_reporter_count(),
            result is Err ==> final(self).monitor().figures() == old(self).monitor().figures(),
            readings_ordered(final(self).timeline_events()),
            result matches Ok(r) ==> timed_run(
                old(self).timeline_events(),
                final(self).timeline_events(),
                Event::Called(func@, args@),
                r.duration,
            ),
            result is Err ==> failed_run(
                old(self).timeline_events(),
                final(self).timeline_events(),
                Event::Called(func@, args@),
            ),
            result matches Ok(r) ==> old(self).runs_on().calls(func@, args@, Ok(r.value)),
            result matches Err(e) ==> old(self).runs_on().calls(func@, args@, Err(e)),
            result matches Ok(r) ==> exists|stats: MemoryStats|
                old(self).runs_on().reports_memory(stats) && stats.used == r.memory_usage,
            result matches Ok(r) ==> measured(
                old(self).monitor().figures(),
                func@,
                r.duration,
                r.memory_usage,
                final(self).monitor().figures(),
            ),
    {
        let ghost pre = self.timeline_events();
        let start = self.timeline.read();
        let value = match self.timeline.call(&*self.engine, func, args) {
            Ok(v) => v,
            Err(e) => {
                proof {
                    assert(self.timeline_events().take(pre.len() as int) =~= pre);
                }
                return Err(e);
            },
        };
        let end = self.timeline.read();
        let duration = end - start;
        proof {
            assert(self.timeline_events().take(pre.len() as int) =~= pre);
        }
        let stats = self.engine.memory_usage();
        proof {
            assert(self.runs_on() == old(self).runs_on());
            assert(old(self).runs_on().reports_memory(stats));
        }
        let memory_usage = stats.used;
        Ok(self.finish_run(func, value, duration, memory_usage))
    }

    /// Sets the global `name` of the engine to `value`.
    pub fn set_global_sync(&self, name: &str, value: JSValue) -> (result: Result<(), EngineError>)
        ensures
            self.runs_on().sets_global(name@, value, result),
    {
        self.engine.set_global(name, value)
    }

    /// The global `name` of the engine.
    pub fn get_global_sync(&self, name: &str) -> (result: Result<JSValue, EngineError>)
        ensures
            self.runs_on().reads_global(name@, result),
    {
        self.engine.get_global(name)
    }

    /// The memory the engine reports in use.
    pub fn memory_usage(&self) -> (used: u64)
        ensures
            exists|stats: MemoryStats| self.runs_on().reports_memory(stats) && stats.used == used,
    {
        let stats = self.engine.memory_usage();
        proof {
            assert(self.runs_on().reports_memory(stats));
        }
        stats.used
    }

    /// Runs the engine's garbage collection.
    pub fn gc(&self) -> (result: Result<(), EngineError>)
        ensures
            self.runs_on().collects(result),
    {
        self.engine.gc()
    }

    /// The resource manager.
    pub fn resource_manager(&self) -> (manager: &ResourceManager)
        ensures
            *manager == self.resources(),
    {
        &self.resource_manager
    }

    /// The performance monitor.
    pub fn performance_monitor(&self) -> (monitor: &PerformanceMonitor)
        ensures
            *monitor == self.monitor(),
    {
        &self.performance_monitor
    }

    /// Empties the script cache.
    pub fn clear_cache_sync(&mut self)
        requires
            old(self).wf(),
        ensures
            final(self).wf(),
            final(self).runs_on() == old(self).runs_on(),
            final(self).clock() == old(self).clock(),
            final(self).cache() == Seq::<CacheView>::empty(),
            final(self).resources() == old(self).resources(),
            final(self).monitor() == old(self).monitor(),
    {
        self.code_cache.clear();
        proof {
            assert(self.cache() =~= Seq::<CacheView>::empty());
        }
    }
}

/// The first code looked up under a script id is the code that runs for that
/// id until the cache is cleared: a later script with the same id runs the
/// earlier code, whatever its own code.
pub proof fn law_first_code_wins(c0: Seq<CacheView>, id: Seq<char>, code1: Seq<char>, code2: Seq<char>)
    requires
        cache_distinct(c0),
    ensures
        code_to_run(cache_after(c0, id, code1), id, code2) == code_to_run(c0, id, code1),
        cache_after(cache_after(c0, id, code1), id, code2) == cache_after(c0, id, code1),
{
    let c1 = cache_after(c0, id, code1);
    if !cache_has(c0, id) {
        assert(c1[c0.len() as int].0 == id);
        assert(cache_has(c1, id));
        let k = choose|k: int| 0 <= k < c1.len() && (#[trigger] c1[k]).0 == id;
        if k < c0.len() {
            assert(c1[k] == c0[k]);
            assert(cache_has(c0, id));
        }
    }
}

} // verus!
