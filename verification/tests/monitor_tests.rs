use std::time::Duration;
use zeo::monitor::{
    BottleneckCategory, BottleneckSeverity, CPUSampler, ConsoleReporter, ExecutionMetrics,
    PerformanceMetrics, PerformanceMonitor, PerformanceReport, Reporter, slow_execution_message,
};

#[test]
fn fresh_metrics_are_empty() {
    let m = ExecutionMetrics::new();
    assert_eq!(m.count, 0);
    assert_eq!(m.total_duration, 0);
    assert_eq!(m.min_duration, None);
    assert_eq!(m.avg_duration(), 0);
    assert_eq!(m.avg_memory(), 0);
}

#[test]
fn averages_divide_totals_by_count() {
    let mut metrics = PerformanceMetrics::new();
    metrics.record_execution("a", 10, 100);
    metrics.record_execution("a", 20, 300);
    metrics.record_execution("a", 31, 200);
    let m = metrics.get_metrics("a").unwrap();
    assert_eq!(m.count, 3);
    assert_eq!(m.total_duration, 61);
    assert_eq!(m.total_memory, 600);
    assert_eq!(m.avg_duration(), 20);
    assert_eq!(m.avg_memory(), 200);
    assert_eq!(m.min_duration, Some(10));
    assert_eq!(m.max_duration, Some(31));
    assert_eq!(m.min_memory, Some(100));
    assert_eq!(m.max_memory, Some(300));
    assert!(m.min_duration.unwrap() <= m.avg_duration() && m.avg_duration() <= m.max_duration.unwrap());
}

#[test]
fn metrics_are_kept_per_script_in_first_run_order() {
    let mut metrics = PerformanceMetrics::new();
    metrics.record_execution("b", 1, 1);
    metrics.record_execution("a", 2, 2);
    metrics.record_execution("b", 3, 3);
    let all = metrics.all_metrics();
    assert_eq!(all.len(), 2);
    assert_eq!(all[0].0, "b");
    assert_eq!(all[0].1.count, 2);
    assert_eq!(all[1].0, "a");
    assert_eq!(all[1].1.count, 1);
    assert!(metrics.get_metrics("c").is_none());
}

#[test]
fn average_duration_divides_by_count_as_u32() {
    let m = ExecutionMetrics {
        count: (1u64 << 32) + 2,
        total_duration: 10,
        total_memory: 0,
        min_duration: Some(0),
        max_duration: Some(1),
        min_memory: Some(0),
        max_memory: Some(0),
    };
    assert_eq!(m.avg_duration(), 5);
}

fn report_of(metrics: &PerformanceMetrics) -> PerformanceReport {
    ConsoleReporter.generate_report(metrics)
}

#[test]
fn report_without_bottlenecks_recommends_nothing() {
    let mut metrics = PerformanceMetrics::new();
    metrics.record_execution("fast", 1_000_000, 1024);
    metrics.record_execution("fast", 3_000_000, 2048);
    let report = report_of(&metrics);
    assert_eq!(report.total_executions, 2);
    assert_eq!(report.avg_execution_time, 2_000_000);
    assert_eq!(report.avg_memory_usage, 1536);
    assert!(report.bottlenecks.is_empty());
    assert_eq!(
        report.recommendations,
        vec!["Performance is optimal. No immediate recommendations.".to_string()]
    );
}

#[test]
fn empty_report_has_zero_averages() {
    let metrics = PerformanceMetrics::new();
    let report = report_of(&metrics);
    assert_eq!(report.total_executions, 0);
    assert_eq!(report.avg_execution_time, 0);
    assert_eq!(report.avg_memory_usage, 0);
    assert_eq!(report.recommendations.len(), 1);
}

#[test]
fn slow_and_heavy_scripts_are_bottlenecks_sorted_by_impact() {
    let mut metrics = PerformanceMetrics::new();
    metrics.record_execution("slow", 250_000_000, 0);
    metrics.record_execution("heavy", 0, 20 * 1024 * 1024);
    metrics.record_execution("slower", 1_500_000_000, 0);
    metrics.record_execution("edge", 100_000_000, 10 * 1024 * 1024);
    let report = report_of(&metrics);
    assert_eq!(report.bottlenecks.len(), 3);
    assert_eq!(report.bottlenecks[0].category, BottleneckCategory::Memory);
    assert_eq!(report.bottlenecks[0].severity, BottleneckSeverity::Medium);
    assert_eq!(report.bottlenecks[0].impact, 20 * 1024 * 1024);
    assert_eq!(report.bottlenecks[0].description, "Script 'heavy' uses high memory: 20 MB");
    assert_eq!(report.bottlenecks[1].category, BottleneckCategory::ExecutionTime);
    assert_eq!(report.bottlenecks[1].severity, BottleneckSeverity::High);
    assert_eq!(report.bottlenecks[1].impact, 1500);
    assert_eq!(report.bottlenecks[1].description, "Script 'slower' has slow execution: 1.5s");
    assert_eq!(report.bottlenecks[2].impact, 250);
    assert_eq!(report.bottlenecks[2].description, "Script 'slow' has slow execution: 250ms");
    assert_eq!(
        report.recommendations,
        vec![
            "Consider reducing memory usage or implementing memory pooling".to_string(),
            "Consider optimizing script execution or enabling JIT compilation".to_string(),
            "Consider optimizing script execution or enabling JIT compilation".to_string(),
        ]
    );
}

#[test]
fn equal_impacts_keep_their_order() {
    let mut metrics = PerformanceMetrics::new();
    metrics.record_execution("first", 200_000_000, 0);
    metrics.record_execution("second", 200_000_000, 0);
    let report = report_of(&metrics);
    assert_eq!(report.bottlenecks.len(), 2);
    assert_eq!(report.bottlenecks[0].description, "Script 'first' has slow execution: 200ms");
    assert_eq!(report.bottlenecks[1].description, "Script 'second' has slow execution: 200ms");
}

#[test]
fn monitor_reports_with_console_reporter() {
    let mut monitor = PerformanceMonitor::new();
    monitor.record_execution("s", 5, 7);
    monitor.record_execution_sync("s", 15, 9);
    let report = monitor.generate_report();
    assert_eq!(report.total_executions, 2);
    assert_eq!(report.avg_execution_time, 10);
    assert_eq!(report.avg_memory_usage, 8);
    assert_eq!(monitor.metrics().all_metrics().len(), 1);
}

struct CountingReporter;

impl Reporter for CountingReporter {
    fn generate_report(&self, metrics: &PerformanceMetrics) -> PerformanceReport {
        let mut r = ConsoleReporter.generate_report(metrics);
        r.total_executions = 42;
        r
    }
}

#[test]
fn last_added_reporter_wins() {
    let mut monitor = PerformanceMonitor::new();
    monitor.record_execution("s", 5, 7);
    monitor.add_reporter(Box::new(CountingReporter));
    assert_eq!(monitor.generate_report().total_executions, 42);
}

#[test]
fn uptime_advances() {
    let metrics = PerformanceMetrics::new();
    let a = metrics.uptime();
    let b = metrics.uptime();
    assert!(b >= a);
}

#[test]
fn cpu_sampler_start_stop() {
    let mut s = CPUSampler::new();
    assert!(!s.is_running());
    s.start();
    assert!(s.is_running());
    s.stop();
    assert!(!s.is_running());
}

#[test]
fn cpu_times_from_proc_stat() {
    let stat = "cpu  100 20 30 850 5 0 1 0 0 0\ncpu0 50 10 15 425 2 0 0 0 0 0\n";
    assert_eq!(CPUSampler::cpu_times(stat), Some((850, 1000)));
    assert_eq!(CPUSampler::cpu_times("cpu 1 2 3\n"), None);
    assert_eq!(CPUSampler::cpu_times(""), None);
    assert_eq!(CPUSampler::cpu_times("cpu 0 0 0 0 0 0 0 0"), None);
    assert_eq!(CPUSampler::cpu_times("cpu x 2 +3 4 5 6 7 8"), Some((4, 9)));
}

#[test]
fn slow_execution_message_text() {
    assert_eq!(slow_execution_message("s", "1.5s"), "Script 's' has slow execution: 1.5s");
    assert_eq!(slow_execution_message("", ""), "Script '' has slow execution: ");
}

#[test]
fn recording_counts_each_id_once_per_call() {
    let mut metrics = PerformanceMetrics::new();
    for (id, d, m) in [("a", 5u128, 1u64), ("b", 7, 2), ("a", 9, 3), ("c", 1, 1), ("a", 6, 8)] {
        metrics.record_execution(id, d, m);
    }
    let ids: Vec<&str> = metrics.all_metrics().iter().map(|(k, _)| k.as_str()).collect();
    assert_eq!(ids, ["a", "b", "c"]);
    let a = metrics.get_metrics("a").unwrap();
    assert_eq!(a.count, 3);
    assert!(a.min_duration.unwrap() <= a.avg_duration() && a.avg_duration() <= a.max_duration.unwrap());
    assert!(a.min_memory.unwrap() <= a.avg_memory() && a.avg_memory() <= a.max_memory.unwrap());
    assert_eq!(metrics.get_metrics("b").unwrap().count, 1);
    assert!(metrics.get_metrics("d").is_none());
}

#[test]
fn counters_fit_tells_when_cpu_times_may_be_read() {
    assert!(CPUSampler::counters_fit("cpu  1 2 3 4 5 6 7 8\n"));
    assert!(CPUSampler::counters_fit("cpu 1 2\n"));
    assert!(CPUSampler::counters_fit(""));
    assert!(CPUSampler::counters_fit("cpu 18446744073709551615 0 0 0 0 0 0\n"));
    assert!(!CPUSampler::counters_fit("cpu 18446744073709551615 1 0 0 0 0 0\n"));
    assert!(CPUSampler::counters_fit("cpu x 18446744073709551615 y 0 0 0 0\n"));
}

#[test]
fn average_duration_matches_duration_division() {
    let mut metrics = PerformanceMetrics::new();
    metrics.record_execution("a", 1_000_000_000, 0);
    metrics.record_execution("a", 1, 0);
    metrics.record_execution("a", 1, 0);
    let a = metrics.get_metrics("a").unwrap();
    assert_eq!(a.total_duration, 1_000_000_002);
    assert_eq!(a.avg_duration(), (Duration::from_nanos(1_000_000_002) / 3).as_nanos());
    assert_eq!(a.avg_duration(), 333_333_334);
    for (total, count) in [(1_100_000_011u128, 11u32), (7_000_000_005, 4), (999_999_999, 7), (123_456_789_012, 13)] {
        let d = Duration::from_nanos(total as u64);
        assert_eq!(total / count as u128, (d / count).as_nanos(), "{} / {}", total, count);
    }
}
