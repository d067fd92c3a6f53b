use zeo::bench::{
    planned_scenarios, scenario_settings, BenchmarkRunner, Measurement, Scenario, ScenarioConfig,
    ScenarioRun, ScenariosConfig, JAVASCRIPT_BENCHMARK, SUBJECT_TARGET,
};

fn on(iterations: u32, warmup: u32) -> ScenarioConfig {
    ScenarioConfig { enabled: true, iterations, warmup }
}

fn off() -> ScenarioConfig {
    ScenarioConfig { enabled: false, iterations: 5, warmup: 1 }
}

fn all_on() -> ScenariosConfig {
    ScenariosConfig {
        javascript_execution: on(100, 10),
        module_loading: on(50, 5),
        file_io: on(50, 5),
        network_requests: on(20, 2),
        ai_agent_execution: on(10, 1),
    }
}

fn m(target: &str, scenario: Scenario, value: u64) -> Measurement {
    Measurement { target: target.to_string(), scenario, value, timestamp: 1_700_000_000 }
}

#[test]
fn plan_with_everything_enabled() {
    assert_eq!(
        planned_scenarios(&all_on()),
        vec![
            Scenario::StartupTime,
            Scenario::JavascriptExecution,
            Scenario::ModuleLoading,
            Scenario::FileIo,
            Scenario::NetworkRequests,
            Scenario::AiAgentExecution,
        ]
    );
}

#[test]
fn startup_runs_only_with_javascript_execution() {
    let mut c = all_on();
    c.javascript_execution = off();
    c.file_io = off();
    assert_eq!(
        planned_scenarios(&c),
        vec![Scenario::ModuleLoading, Scenario::NetworkRequests, Scenario::AiAgentExecution]
    );
}

#[test]
fn plan_with_nothing_enabled() {
    let c = ScenariosConfig {
        javascript_execution: off(),
        module_loading: off(),
        file_io: off(),
        network_requests: off(),
        ai_agent_execution: off(),
    };
    assert!(planned_scenarios(&c).is_empty());
}

#[test]
fn startup_uses_javascript_settings() {
    let c = all_on();
    let s = scenario_settings(&c, Scenario::StartupTime);
    assert_eq!((s.iterations, s.warmup), (100, 10));
    let s = scenario_settings(&c, Scenario::NetworkRequests);
    assert_eq!((s.iterations, s.warmup), (20, 2));
}

#[test]
fn scenario_names_metrics_and_units() {
    assert_eq!(Scenario::StartupTime.name(), "startup_time");
    assert_eq!(Scenario::AiAgentExecution.name(), "ai_agent_execution");
    assert_eq!(Scenario::JavascriptExecution.metric(), "execution_speed");
    assert_eq!(Scenario::FileIo.metric(), "io_time");
    assert_eq!(Scenario::JavascriptExecution.unit(), "μs");
    assert!(Scenario::JavascriptExecution.in_microseconds());
    assert_eq!(Scenario::ModuleLoading.unit(), "ms");
    assert!(!Scenario::ModuleLoading.in_microseconds());
}

#[test]
fn scenario_arguments() {
    assert_eq!(Scenario::StartupTime.arguments(), vec!["--version"]);
    assert_eq!(Scenario::JavascriptExecution.arguments(), vec!["-e", JAVASCRIPT_BENCHMARK]);
    assert!(JAVASCRIPT_BENCHMARK.contains("fibonacci(30)"));
    assert_eq!(Scenario::NetworkRequests.arguments(), vec!["tests/network/http_benchmark.js"]);
}

#[test]
fn warmup_iterations_are_not_kept() {
    let mut run = ScenarioRun::new("zeo", Scenario::FileIo, on(2, 1));
    assert!(!run.finished());
    assert!(run.record(5, 10).is_none());
    let a = run.record(7, 11).unwrap();
    assert_eq!((a.target.as_str(), a.scenario, a.value, a.timestamp), ("zeo", Scenario::FileIo, 7, 11));
    assert!(!run.finished());
    let b = run.record(9, 12).unwrap();
    assert_eq!(b.value, 9);
    assert!(run.finished());
}

#[test]
fn run_without_warmup_keeps_every_iteration() {
    let mut run = ScenarioRun::new("bun", Scenario::StartupTime, on(3, 0));
    let mut kept = 0;
    while !run.finished() {
        if run.record(1, 0).is_some() {
            kept += 1;
        }
    }
    assert_eq!(kept, 3);
}

#[test]
fn runner_keeps_results_in_order() {
    let mut r = BenchmarkRunner::new();
    assert!(r.get_results().is_empty());
    r.add_result(m("zeo", Scenario::FileIo, 3));
    r.add_result(m("bun", Scenario::FileIo, 4));
    let values: Vec<u64> = r.get_results().iter().map(|x| x.value).collect();
    assert_eq!(values, vec![3, 4]);
}

#[test]
fn scenario_total_sums_matching_results() {
    let mut r = BenchmarkRunner::new();
    r.add_result(m("zeo", Scenario::FileIo, 3));
    r.add_result(m("zeo", Scenario::FileIo, 5));
    r.add_result(m("zeo", Scenario::ModuleLoading, 100));
    r.add_result(m("bun", Scenario::FileIo, 7));
    assert_eq!(r.scenario_total("zeo", Scenario::FileIo), (8, 2));
    assert_eq!(r.scenario_total("bun", Scenario::FileIo), (7, 1));
    assert_eq!(r.scenario_total("node", Scenario::FileIo), (0, 0));
}

#[test]
fn comparison_only_where_both_have_results() {
    let mut r = BenchmarkRunner::new();
    r.add_result(m("zeo", Scenario::ModuleLoading, 10));
    r.add_result(m("bun", Scenario::ModuleLoading, 30));
    r.add_result(m("bun", Scenario::ModuleLoading, 10));
    r.add_result(m("zeo", Scenario::StartupTime, 4));
    r.add_result(m("bun", Scenario::StartupTime, 8));
    r.add_result(m("zeo", Scenario::FileIo, 4));
    let rows = r.compare_with_bun("bun");
    assert_eq!(rows.len(), 2);
    assert_eq!(rows[0].scenario, Scenario::StartupTime);
    assert_eq!((rows[0].subject_sum, rows[0].subject_count, rows[0].other_sum, rows[0].other_count), (4, 1, 8, 1));
    assert_eq!(rows[1].scenario, Scenario::ModuleLoading);
    assert_eq!((rows[1].subject_sum, rows[1].subject_count, rows[1].other_sum, rows[1].other_count), (10, 1, 40, 2));
    assert_eq!(SUBJECT_TARGET, "zeo");
}

#[test]
fn comparison_against_unknown_target_is_empty() {
    let mut r = BenchmarkRunner::new();
    r.add_result(m("zeo", Scenario::FileIo, 1));
    assert!(r.compare_with_bun("deno").is_empty());
}

#[test]
fn scenario_display_names() {
    assert_eq!(Scenario::StartupTime.display_name(), "Startup Time");
    assert_eq!(Scenario::JavascriptExecution.display_name(), "JavaScript Execution");
    assert_eq!(Scenario::FileIo.display_name(), "File I/O");
    assert_eq!(Scenario::AiAgentExecution.display_name(), "AI Agent Execution");
}
