//! The benchmark suite: which scenarios run, how each scenario's iterations
//! are measured, and the figures for comparing two targets.
use vstd::prelude::*;

verus! {

/// A runtime to benchmark: where it lives and the command that starts it.
#[derive(Clone, Debug)]
pub struct TargetConfig {
    pub path: String,
    pub command: String,
}

/// Whether a scenario runs, and how many measured and warm-up iterations it
/// has.
#[derive(Clone, Copy, Debug)]
pub struct ScenarioConfig {
    pub enabled: bool,
    pub iterations: u32,
    pub warmup: u32,
}

/// The settings of the scenarios.
#[derive(Clone, Copy, Debug)]
pub struct ScenariosConfig {
    pub javascript_execution: ScenarioConfig,
    pub module_loading: ScenarioConfig,
    pub file_io: ScenarioConfig,
    pub network_requests: ScenarioConfig,
    pub ai_agent_execution: ScenarioConfig,
}

/// A benchmark scenario.
#[derive(Clone, Copy, Debug, PartialEq, Eq, Structural)]
pub enum Scenario {
    StartupTime,
    JavascriptExecution,
    ModuleLoading,
    FileIo,
    NetworkRequests,
    AiAgentExecution,
}

/// The scenarios that run for a target, in order: startup time and
/// JavaScript execution when JavaScript execution is enabled, then module
/// loading, file I/O, network requests and AI agent execution, each when
/// enabled.
pub open spec fn plan(c: ScenariosConfig) -> Seq<Scenario> {
    (if c.javascript_execution.enabled {
        seq![Scenario::StartupTime, Scenario::JavascriptExecution]
    } else {
        Seq::empty()
    }) + (if c.module_loading.enabled {
        seq![Scenario::ModuleLoading]
    } else {
        Seq::empty()
    }) + (if c.file_io.enabled {
        seq![Scenario::FileIo]
    } else {
        Seq::empty()
    }) + (if c.network_requests.enabled {
        seq![Scenario::NetworkRequests]
    } else {
        Seq::empty()
    }) + (if c.ai_agent_execution.enabled {
        seq![Scenario::AiAgentExecution]
    } else {
        Seq::empty()
    })
}

/// The position of a scenario in the order in which scenarios run.
pub open spec fn run_rank(s: Scenario) -> int {
    match s {
        Scenario::StartupTime => 0,
        Scenario::JavascriptExecution => 1,
        Scenario::ModuleLoading => 2,
        Scenario::FileIo => 3,
        Scenario::NetworkRequests => 4,
        Scenario::AiAgentExecution => 5,
    }
}

/// Each scenario is planned exactly when its own setting enables it
/// (startup time goes with JavaScript execution), none is planned twice, and
/// the planned scenarios come in the order startup time, JavaScript
/// execution, module loading, file I/O, network requests, AI agent execution.
pub proof fn law_plan_follows_settings(c: ScenariosConfig)
    ensures
        plan(c).contains(Scenario::StartupTime) <==> c.javascript_execution.enabled,
        plan(c).contains(Scenario::JavascriptExecution) <==> c.javascript_execution.enabled,
        plan(c).contains(Scenario::ModuleLoading) <==> c.module_loading.enabled,
        plan(c).contains(Scenario::FileIo) <==> c.file_io.enabled,
        plan(c).contains(Scenario::NetworkRequests) <==> c.network_requests.enabled,
        plan(c).contains(Scenario::AiAgentExecution) <==> c.ai_agent_execution.enabled,
        forall|i: int, j: int|
            0 <= i < j < plan(c).len() ==> run_rank(#[trigger] plan(c)[i]) < run_rank(#[trigger] plan(c)[j]),
{
    let p = plan(c);
    assert forall|i: int, j: int| 0 <= i < j < p.len() implies run_rank(#[trigger] p[i]) < run_rank(
        #[trigger] p[j],
    ) by {
        lemma_plan_ranks(c, i, j);
    }
    lemma_plan_members(c);
}

proof fn lemma_plan_members(c: ScenariosConfig)
    ensures
        plan(c).contains(Scenario::StartupTime) <==> c.javascript_execution.enabled,
        plan(c).contains(Scenario::JavascriptExecution) <==> c.javascript_execution.enabled,
        plan(c).contains(Scenario::ModuleLoading) <==> c.module_loading.enabled,
        plan(c).contains(Scenario::FileIo) <==> c.file_io.enabled,
        plan(c).contains(Scenario::NetworkRequests) <==> c.network_requests.enabled,
        plan(c).contains(Scenario::AiAgentExecution) <==> c.ai_agent_execution.enabled,
{
    let p = plan(c);
    assert forall|x: Scenario| #[trigger] p.contains(x) <==> (match x {
        Scenario::StartupTime => c.javascript_execution.enabled,
        Scenario::JavascriptExecution => c.javascript_execution.enabled,
        Scenario::ModuleLoading => c.module_loading.enabled,
        Scenario::FileIo => c.file_io.enabled,
        Scenario::NetworkRequests => c.network_requests.enabled,
        Scenario::AiAgentExecution => c.ai_agent_execution.enabled,
    }) by {
        if p.contains(x) {
            let k = choose|k: int| 0 <= k < p.len() && p[k] == x;
            lemma_plan_entry(c, k);
        }
        lemma_plan_has(c, x);
    }
}

proof fn lemma_plan_entry(c: ScenariosConfig, k: int)
    requires
        0 <= k < plan(c).len(),
    ensures
        match plan(c)[k] {
            Scenario::StartupTime => c.javascript_execution.enabled,
            Scenario::JavascriptExecution => c.javascript_execution.enabled,
            Scenario::ModuleLoading => c.module_loading.enabled,
            Scenario::FileIo => c.file_io.enabled,
            Scenario::NetworkRequests => c.network_requests.enabled,
            Scenario::AiAgentExecution => c.ai_agent_execution.enabled,
        },
{
}

proof fn lemma_plan_has(c: ScenariosConfig, x: Scenario)
    ensures
        (match x {
            Scenario::StartupTime => c.javascript_execution.enabled,
            Scenario::JavascriptExecution => c.javascript_execution.enabled,
            Scenario::ModuleLoading => c.module_loading.enabled,
            Scenario::FileIo => c.file_io.enabled,
            Scenario::NetworkRequests => c.network_requests.enabled,
            Scenario::AiAgentExecution => c.ai_agent_execution.enabled,
        }) ==> plan(c).contains(x),
{
    let p = plan(c);
    let a = if c.javascript_execution.enabled { 2int } else { 0int };
    let b = a + if c.module_loading.enabled { 1int } else { 0int };
    let d = b + if c.file_io.enabled { 1int } else { 0int };
    let e = d + if c.network_requests.enabled { 1int } else { 0int };
    match x {
        Scenario::StartupTime => { if c.javascript_execution.enabled { assert(p[0] == x); } },
        Scenario::JavascriptExecution => { if c.javascript_execution.enabled { assert(p[1] == x); } },
        Scenario::ModuleLoading => { if c.module_loading.enabled { assert(p[a] == x); } },
        Scenario::FileIo => { if c.file_io.enabled { assert(p[b] == x); } },
        Scenario::NetworkRequests => { if c.network_requests.enabled { assert(p[d] == x); } },
        Scenario::AiAgentExecution => { if c.ai_agent_execution.enabled { assert(p[e] == x); } },
    }
}

proof fn lemma_plan_ranks(c: ScenariosConfig, i: int, j: int)
    requires
        0 <= i < j < plan(c).len(),
    ensures
        run_rank(plan(c)[i]) < run_rank(plan(c)[j]),
{
}

/// The settings a scenario runs with: the startup time scenario uses those
/// of JavaScript execution.
pub open spec fn settings_of(c: ScenariosConfig, s: Scenario) -> ScenarioConfig {
    match s {
        Scenario::StartupTime => c.javascript_execution,
        Scenario::JavascriptExecution => c.javascript_execution,
        Scenario::ModuleLoading => c.module_loading,
        Scenario::FileIo => c.file_io,
        Scenario::NetworkRequests => c.network_requests,
        Scenario::AiAgentExecution => c.ai_agent_execution,
    }
}

/// The scenarios that run for a target, in order.
pub fn planned_scenarios(c: &ScenariosConfig) -> (plan_out: Vec<Scenario>)
    ensures
        plan_out@ == plan(*c),
{
    let mut out: Vec<Scenario> = Vec::new();
    if c.javascript_execution.enabled {
        out.push(Scenario::StartupTime);
        out.push(Scenario::JavascriptExecution);
    }
    if c.module_loading.enabled {
        out.push(Scenario::ModuleLoading);
    }
    if c.file_io.enabled {
        out.push(Scenario::FileIo);
    }
    if c.network_requests.enabled {
        out.push(Scenario::NetworkRequests);
    }
    if c.ai_agent_execution.enabled {
        out.push(Scenario::AiAgentExecution);
    }
    proof {
        assert(out@ =~= plan(*c));
    }
    out
}

/// The settings the scenario `s` runs with.
pub fn scenario_settings(c: &ScenariosConfig, s: Scenario) -> (settings: ScenarioConfig)
    ensures
        settings == settings_of(*c, s),
{
    match s {
        Scenario::StartupTime => c.javascript_execution,
        Scenario::JavascriptExecution => c.javascript_execution,
        Scenario::ModuleLoading => c.module_loading,
        Scenario::FileIo => c.file_io,
        Scenario::NetworkRequests => c.network_requests,
        Scenario::AiAgentExecution => c.ai_agent_execution,
    }
}

/// The code that the JavaScript execution scenario runs.
pub const JAVASCRIPT_BENCHMARK: &'static str = "
            function fibonacci(n) {
                if (n <= 1) return n;
                return fibonacci(n - 1) + fibonacci(n - 2);
            }
            fibonacci(30);
        ";

impl Scenario {
    /// The scenario's name in results and reports.
    pub fn name(&self) -> (name: &'static str)
        ensures
            name@ == scenario_name(*self),
    {
        match self {
            Scenario::StartupTime => "startup_time",
            Scenario::JavascriptExecution => "javascript_execution",
            Scenario::ModuleLoading => "module_loading",
            Scenario::FileIo => "file_io",
            Scenario::NetworkRequests => "network_requests",
            Scenario::AiAgentExecution => "ai_agent_execution",
        }
    }

    /// The scenario's name in report headings.
    pub fn display_name(&self) -> (name: &'static str)
        ensures
            name@ == scenario_title(*self),
    {
        match self {
            Scenario::StartupTime => "Startup Time",
            Scenario::JavascriptExecution => "JavaScript Execution",
            Scenario::ModuleLoading => "Module Loading",
            Scenario::FileIo => "File I/O",
            Scenario::NetworkRequests => "Network Requests",
            Scenario::AiAgentExecution => "AI Agent Execution",
        }
    }

    /// The metric the scenario measures.
    pub fn metric(&self) -> (metric: &'static str)
        ensures
            metric@ == scenario_metric(*self),
    {
        match self {
            Scenario::StartupTime => "startup_time",
            Scenario::JavascriptExecution => "execution_speed",
            Scenario::ModuleLoading => "load_time",
            Scenario::FileIo => "io_time",
            Scenario::NetworkRequests => "request_time",
            Scenario::AiAgentExecution => "agent_execution_time",
        }
    }

    /// Whether the scenario is measured in microseconds (else in
    /// milliseconds).
    pub fn in_microseconds(&self) -> (micros: bool)
        ensures
            micros == (*self == Scenario::JavascriptExecution),
    {
        match self {
            Scenario::JavascriptExecution => true,
            _ => false,
        }
    }

    /// The unit of the scenario's figures.
    pub fn unit(&self) -> (unit: &'static str)
        ensures
            unit@ == scenario_unit(*self),
    {
        match self {
            Scenario::JavascriptExecution => "\u{3bc}s",
            _ => "ms",
        }
    }

    /// The arguments the target's command gets in this scenario.
    pub fn arguments(&self) -> (args: Vec<&'static str>)
        ensures
            args@.map_values(|a: &'static str| a@) == scenario_arguments(*self),
    {
        let args: Vec<&'static str> = match self {
            Scenario::StartupTime => vec!["--version"],
            Scenario::JavascriptExecution => vec!["-e", JAVASCRIPT_BENCHMARK],
            Scenario::ModuleLoading => vec!["tests/modules/load.js"],
            Scenario::FileIo => vec!["tests/io/file_benchmark.js"],
            Scenario::NetworkRequests => vec!["tests/network/http_benchmark.js"],
            Scenario::AiAgentExecution => vec!["tests/ai/agent_benchmark.js"],
        };
        proof {
            assert(args@.map_values(|a: &'static str| a@) =~= scenario_arguments(*self));
        }
        args
    }
}

/// The name of a scenario.
pub open spec fn scenario_name(s: Scenario) -> Seq<char> {
    match s {
        Scenario::StartupTime => "startup_time"@,
        Scenario::JavascriptExecution => "javascript_execution"@,
        Scenario::ModuleLoading => "module_loading"@,
        Scenario::FileIo => "file_io"@,
        Scenario::NetworkRequests => "network_requests"@,
        Scenario::AiAgentExecution => "ai_agent_execution"@,
    }
}

/// The heading of a scenario in reports.
pub open spec fn scenario_title(s: Scenario) -> Seq<char> {
    match s {
        Scenario::StartupTime => "Startup Time"@,
        Scenario::JavascriptExecution => "JavaScript Execution"@,
        Scenario::ModuleLoading => "Module Loading"@,
        Scenario::FileIo => "File I/O"@,
        Scenario::NetworkRequests => "Network Requests"@,
        Scenario::AiAgentExecution => "AI Agent Execution"@,
    }
}

/// The metric of a scenario.
pub open spec fn scenario_metric(s: Scenario) -> Seq<char> {
    match s {
        Scenario::StartupTime => "startup_time"@,
        Scenario::JavascriptExecution => "execution_speed"@,
        Scenario::ModuleLoading => "load_time"@,
        Scenario::FileIo => "io_time"@,
        Scenario::NetworkRequests => "request_time"@,
        Scenario::AiAgentExecution => "agent_execution_time"@,
    }
}

/// The unit of a scenario: microseconds for JavaScript execution, else
/// milliseconds.
pub open spec fn scenario_unit(s: Scenario) -> Seq<char> {
    match s {
        Scenario::JavascriptExecution => "\u{3bc}s"@,
        _ => "ms"@,
    }
}

/// The arguments of the target's command in a scenario.
pub open spec fn scenario_arguments(s: Scenario) -> Seq<Seq<char>> {
    match s {
        Scenario::StartupTime => seq!["--version"@],
        Scenario::JavascriptExecution => seq!["-e"@, JAVASCRIPT_BENCHMARK@],
        Scenario::ModuleLoading => seq!["tests/modules/load.js"@],
        Scenario::FileIo => seq!["tests/io/file_benchmark.js"@],
        Scenario::NetworkRequests => seq!["tests/network/http_benchmark.js"@],
        Scenario::AiAgentExecution => seq!["tests/ai/agent_benchmark.js"@],
    }
}

/// A measured iteration: the target, the scenario, the figure in the
/// scenario's unit and the time stamp in seconds since the Unix epoch.
#[derive(Clone, Debug)]
pub struct Measurement {
    pub target: String,
    pub scenario: Scenario,
    pub value: u64,
    pub timestamp: u64,
}

/// A measurement as contracts see it.
pub type MeasurementView = (Seq<char>, Scenario, u64, u64);

/// The view of a measurement.
pub open spec fn measurement_view(m: Measurement) -> MeasurementView {
    (m.target@, m.scenario, m.value, m.timestamp)
}

/// The iterations of one scenario on one target: the warm-up iterations
/// come first and are not kept, then the measured ones.
pub struct ScenarioRun {
    target: String,
    scenario: Scenario,
    warmup: u32,
    iterations: u32,
    done: u32,
    kept: Ghost<nat>,
}

impl ScenarioRun {
    /// The target.
    pub closed spec fn target_name(&self) -> Seq<char> {
        self.target@
    }

    /// The scenario.
    pub closed spec fn which(&self) -> Scenario {
        self.scenario
    }

    /// The number of warm-up iterations.
    pub closed spec fn warmup_count(&self) -> nat {
        self.warmup as nat
    }

    /// The number of measured iterations.
    pub closed spec fn iteration_count(&self) -> nat {
        self.iterations as nat
    }

    /// The number of iterations run so far.
    pub closed spec fn completed(&self) -> nat {
        self.done as nat
    }

    /// The number of measurements handed out so far.
    pub closed spec fn kept_count(&self) -> nat {
        self.kept@
    }

    /// The invariant: no more iterations than planned, and one measurement
    /// kept for each iteration after the warm-up.
    pub open spec fn wf(&self) -> bool {
        &&& self.warmup_count() + self.iteration_count() <= u32::MAX
        &&& self.completed() <= self.warmup_count() + self.iteration_count()
        &&& self.kept_count() == (if self.completed() > self.warmup_count() {
            (self.completed() - self.warmup_count()) as nat
        } else {
            0
        })
    }

    /// A run of scenario `scenario` on `target` with the given settings.
    pub fn new(target: &str, scenario: Scenario, settings: ScenarioConfig) -> (run: Self)
        requires
            settings.warmup + settings.iterations <= u32::MAX,
        ensures
            run.wf(),
            run.target_name() == target@,
            run.which() == scenario,
            run.warmup_count() == settings.warmup,
            run.iteration_count() == settings.iterations,
            run.completed() == 0,
    {
        ScenarioRun {
            target: target.to_string(),
            scenario,
            warmup: settings.warmup,
            iterations: settings.iterations,
            done: 0,
            kept: Ghost(0),
        }
    }

    /// Whether all iterations have run.
    pub fn finished(&self) -> (done: bool)
        requires
            self.wf(),
        ensures
            done == (self.completed() == self.warmup_count() + self.iteration_count()),
    {
        self.done == self.warmup + self.iterations
    }

    /// Takes the figure of the next iteration: a warm-up iteration gives
    /// nothing, a measured one its measurement.
    pub fn record(&mut self, value: u64, timestamp: u64) -> (m: Option<Measurement>)
        requires
            old(self).wf(),
            old(self).completed() < old(self).warmup_count() + old(self).iteration_count(),
        ensures
            final(self).wf(),
            final(self).completed() == old(self).completed() + 1,
            final(self).target_name() == old(self).target_name(),
            final(self).which() == old(self).which(),
            final(self).warmup_count() == old(self).warmup_count(),
            final(self).iteration_count() == old(self).iteration_count(),
            (m is Some) == (old(self).completed() >= old(self).warmup_count()),
            m matches Some(x) ==> measurement_view(x) == (
            old(self).target_name(),
            old(self).which(),
            value,
            timestamp,
            ),
            final(self).kept_count() == old(self).kept_count() + (if m is Some {
                1nat
            } else {
                0nat
            }),
    {
        let keep = self.done >= self.warmup;
        self.done = self.done + 1;
        if keep {
            proof {
                self.kept@ = self.kept@ + 1;
            }
            Some(
                Measurement {
                    target: self.target.clone(),
                    scenario: self.scenario,
                    value,
                    timestamp,
                },
            )
        } else {
            None
        }
    }
}

/// A finished run has handed out one measurement per measured iteration.
pub proof fn law_finished_run_keeps_iterations(run: ScenarioRun)
    requires
        run.wf(),
        run.completed() == run.warmup_count() + run.iteration_count(),
    ensures
        run.kept_count() == run.iteration_count(),
{
}

/// Whether a measurement is of `target` in scenario `s`.
pub open spec fn is_run_of(target: Seq<char>, s: Scenario) -> spec_fn(MeasurementView) -> bool {
    |m: MeasurementView| m.0 == target && m.1 == s
}

/// The measurements of `target` in scenario `s`, in order.
pub open spec fn runs_of(results: Seq<MeasurementView>, target: Seq<char>, s: Scenario) -> Seq<MeasurementView> {
    results.filter(is_run_of(target, s))
}

/// The sum of the figures of `ms`.
pub open spec fn sum_values(ms: Seq<MeasurementView>) -> int
    decreases ms.len(),
{
    if ms.len() == 0 {
        0
    } else {
        sum_values(ms.drop_last()) + ms.last().2
    }
}

/// The scenarios in the order in which comparisons are made.
pub open spec fn comparison_order() -> Seq<Scenario> {
    seq![
        Scenario::StartupTime,
        Scenario::JavascriptExecution,
        Scenario::ModuleLoading,
        Scenario::FileIo,
        Scenario::NetworkRequests,
        Scenario::AiAgentExecution,
    ]
}

/// The figures for comparing the subject target with another in one
/// scenario: the sum and the number of the measurements of each.
#[derive(Clone, Copy, Debug)]
pub struct ComparisonFigures {
    pub scenario: Scenario,
    pub subject_sum: u128,
    pub subject_count: usize,
    pub other_sum: u128,
    pub other_count: usize,
}

/// The comparison figures of `subject` against `other` for the scenarios of
/// `order` in which both have measurements, in that order.
pub open spec fn comparison_rows(
    results: Seq<MeasurementView>,
    subject: Seq<char>,
    other: Seq<char>,
    order: Seq<Scenario>,
) -> Seq<ComparisonFigures>
    decreases order.len(),
{
    if order.len() == 0 {
        Seq::empty()
    } else {
        let s = order.last();
        let mine = runs_of(results, subject, s);
        let theirs = runs_of(results, other, s);
        comparison_rows(results, subject, other, order.drop_last()) + (if mine.len() > 0 && theirs.len()
            > 0 {
            seq![
                ComparisonFigures {
                    scenario: s,
                    subject_sum: sum_values(mine) as u128,
                    subject_count: mine.len() as usize,
                    other_sum: sum_values(theirs) as u128,
                    other_count: theirs.len() as usize,
                },
            ]
        } else {
            Seq::empty()
        })
    }
}

/// The name of the runtime that the suite measures against others.
pub const SUBJECT_TARGET: &'static str = "zeo";

/// The measurements of a benchmark suite.
pub struct BenchmarkRunner {
    results: Vec<Measurement>,
}

impl BenchmarkRunner {
    /// The measurements, in the order they were taken.
    pub closed spec fn measurements(&self) -> Seq<MeasurementView> {
        self.results@.map_values(|m: Measurement| measurement_view(m))
    }

    /// A suite with no measurements.
    pub fn new() -> (runner: Self)
        ensures
            runner.measurements() == Seq::<MeasurementView>::empty(),
    {
        let runner = BenchmarkRunner { results: Vec::new() };
        proof {
            assert(runner.measurements() =~= Seq::<MeasurementView>::empty());
        }
        runner
    }

    /// Adds a measurement.
    pub fn add_result(&mut self, m: Measurement)
        ensures
            final(self).measurements() == old(self).measurements().push(measurement_view(m)),
    {
        self.results.push(m);
        proof {
            assert(self.measurements() =~= old(self).measurements().push(measurement_view(m)));
        }
    }

    /// The measurements, in the order they were taken.
    pub fn get_results(&self) -> (results: &Vec<Measurement>)
        ensures
            results@.map_values(|m: Measurement| measurement_view(m)) == self.measurements(),
    {
        &self.results
    }

    /// The sum and the number of the measurements of `target` in scenario `s`.
    pub fn scenario_total(&self, target: &str, s: Scenario) -> (total: (u128, usize))
        ensures
            total.0 == sum_values(runs_of(self.measurements(), target@, s)),
            total.1 == runs_of(self.measurements(), target@, s).len(),
    {
        let key = target.to_string();
        let ghost ms = self.measurements();
        let mut sum: u128 = 0;
        let mut count: usize = 0;
        let mut i: usize = 0;
        while i < self.results.len()
            invariant
                ms == self.measurements(),
                key@ == target@,
                i <= ms.len(),
                sum == sum_values(runs_of(ms.take(i as int), target@, s)),
                count == runs_of(ms.take(i as int), target@, s).len(),
                count <= i,
                sum <= count * 0xffff_ffff_ffff_ffff,
            decreases ms.len() - i,
        {
            let m = &self.results[i];
            proof {
                assert(ms.take(i + 1) == ms.take(i as int).push(ms[i as int]));
                ms.take(i as int).lemma_filter_push(ms[i as int], is_run_of(target@, s));
                assert(ms[i as int] == measurement_view(*m));
            }
            if m.target == key && m.scenario == s {
                proof {
                    assert(sum + m.value <= (count + 1) * 0xffff_ffff_ffff_ffff) by (nonlinear_arith)
                        requires
                            sum <= count * 0xffff_ffff_ffff_ffff,
                            m.value <= 0xffff_ffff_ffff_ffff,
                    ;
                    assert((count + 1) * 0xffff_ffff_ffff_ffff <= u128::MAX) by (nonlinear_arith)
                        requires
                            count < 0x1_0000_0000_0000_0000,
                    ;
                    let f = runs_of(ms.take(i + 1), target@, s);
                    assert(f.drop_last() == runs_of(ms.take(i as int), target@, s));
                }
                sum = sum + m.value as u128;
                count = count + 1;
            }
            i = i + 1;
        }
        proof {
            assert(ms.take(ms.len() as int) == ms);
        }
        (sum, count)
    }

    /// The comparison figures of the subject target, `zeo`, against
    /// `comparison_target`, for each scenario in which both have
    /// measurements, in the order of startup time, JavaScript execution,
    /// module loading, file I/O, network requests and AI agent execution.
    pub fn compare_with_bun(&self, comparison_target: &str) -> (rows: Vec<ComparisonFigures>)
        ensures
            rows@ == comparison_rows(self.measurements(), SUBJECT_TARGET@, comparison_target@, comparison_order()),
    {
        let order: [Scenario; 6] = [
            Scenario::StartupTime,
            Scenario::JavascriptExecution,
            Scenario::ModuleLoading,
            Scenario::FileIo,
            Scenario::NetworkRequests,
            Scenario::AiAgentExecution,
        ];
        let mut rows: Vec<ComparisonFigures> = Vec::new();
        let mut i: usize = 0;
        proof {
            assert(order@ == comparison_order());
        }
        while i < 6
            invariant
                order@ == comparison_order(),
                i <= 6,
                rows@ == comparison_rows(
                    self.measurements(),
                    SUBJECT_TARGET@,
                    comparison_target@,
                    comparison_order().take(i as int),
                ),
            decreases 6 - i,
        {
            let s = order[i];
            let (subject_sum, subject_count) = self.scenario_total(SUBJECT_TARGET, s);
            let (other_sum, other_count) = self.scenario_total(comparison_target, s);
            proof {
                let o = comparison_order().take(i + 1);
                assert(o.drop_last() == comparison_order().take(i as int));
                assert(o.last() == s);
            }
            if subject_count > 0 && other_count > 0 {
                rows.push(
                    ComparisonFigures { scenario: s, subject_sum, subject_count, other_sum, other_count },
                );
            }
            proof {
                let o = comparison_order().take(i + 1);
                assert(rows@ =~= comparison_rows(
                    self.measurements(),
                    SUBJECT_TARGET@,
                    comparison_target@,
                    o,
                ));
            }
            i = i + 1;
        }
        proof {
            assert(comparison_order().take(6) == comparison_order());
        }
        rows
    }
}

} // verus!
