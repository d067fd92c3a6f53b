use zeo::sysmon::{BatteryMonitor, CPUMonitor, MemoryMonitor, PerformanceProfiler, SystemInfo};

const STATUS: &str = "Name:\tzeo\nVmPeak:\t  20000 kB\nVmRSS:\t   5120 kB\nThreads:\t4\n";

const TOP: &str = "top - 10:00:00 up 1 day,  1 user,  load average: 0.00, 0.01, 0.05
Tasks:   1 total,   0 running,   1 sleeping,   0 stopped,   0 zombie
%Cpu(s):  1.0 us,  0.5 sy,  0.0 ni, 98.5 id,  0.0 wa,  0.0 hi,  0.0 si,  0.0 st
MiB Mem :  15000.0 total,   8000.0 free,   4000.0 used,   3000.0 buff/cache
MiB Swap:   2048.0 total,   2048.0 free,      0.0 used.  10000.0 avail Mem

    PID USER      PR  NI    VIRT    RES    SHR S  %CPU  %MEM     TIME+ COMMAND
   4242 root      20   0   10000   5000   3000 S  12.5   0.1   0:00.10 zeo
";

#[test]
fn memory_monitor_keeps_pid() {
    assert_eq!(MemoryMonitor::new(7).pid(), 7);
}

#[test]
fn resident_field_of_status() {
    assert_eq!(MemoryMonitor::resident_field(STATUS).as_deref(), Some("5120"));
}

#[test]
fn resident_field_skips_short_lines() {
    let status = "VmRSS:\nVmRSS:  99 kB\n";
    assert_eq!(MemoryMonitor::resident_field(status).as_deref(), Some("99"));
    assert_eq!(MemoryMonitor::resident_field("Name: zeo\n"), None);
    assert_eq!(MemoryMonitor::resident_field(""), None);
}

#[test]
fn cpu_field_of_top_output() {
    let m = CPUMonitor::new(4242);
    assert_eq!(m.pid(), 4242);
    assert_eq!(m.usage_field(TOP).as_deref(), Some("12.5"));
}

#[test]
fn cpu_field_needs_matching_pid() {
    assert_eq!(CPUMonitor::new(1).usage_field(TOP), None);
}

#[test]
fn cpu_field_ignores_header_lines() {
    let out = "4242 a b c d e f g 99.0\n";
    assert_eq!(CPUMonitor::new(4242).usage_field(out), None);
    let out = format!("1\n2\n3\n4\n5\n6\n7\n{}", "4242 a b c d e f g 99.0");
    assert_eq!(CPUMonitor::new(4242).usage_field(&out).as_deref(), Some("99.0"));
}

#[test]
fn battery_capacity_is_trimmed() {
    let _ = BatteryMonitor::new();
    assert_eq!(BatteryMonitor::capacity_field(" 87\n"), "87");
    assert_eq!(BatteryMonitor::capacity_field(""), "");
}

#[test]
fn profiler_with_process() {
    let p = PerformanceProfiler::new(Some(99));
    assert_eq!(p.memory_monitor().map(|m| m.pid()), Some(99));
    assert_eq!(p.cpu_monitor().map(|c| c.pid()), Some(99));
    assert!(p.battery_monitor().is_some());
}

#[test]
fn profiler_without_process() {
    let p = PerformanceProfiler::new(None);
    assert!(p.memory_monitor().is_none());
    assert!(p.cpu_monitor().is_none());
    assert!(p.battery_monitor().is_some());
}

#[test]
fn cpu_model_from_cpuinfo() {
    let info = "processor\t: 0\nvendor_id\t: GenuineIntel\nmodel name\t: Intel(R) Xeon(R) CPU @ 2.20GHz\n";
    assert_eq!(SystemInfo::cpu_model(info), "Intel(R) Xeon(R) CPU @ 2.20GHz");
}

#[test]
fn cpu_model_fallbacks() {
    assert_eq!(SystemInfo::cpu_model("processor : 0\n"), "Unknown CPU");
    assert_eq!(SystemInfo::cpu_model("model name without colon\n"), "Unknown");
    assert_eq!(SystemInfo::cpu_model("model name : a : b\n"), "a");
}

#[test]
fn memory_line_is_second_line() {
    let free = "              total        used\nMem:           15Gi       4.0Gi\nSwap:          2.0Gi          0B\n";
    assert_eq!(SystemInfo::memory_line(free).as_deref(), Some("Mem:           15Gi       4.0Gi"));
    assert_eq!(SystemInfo::memory_line("only one line\n"), None);
}

#[test]
fn os_text_is_trimmed() {
    assert_eq!(SystemInfo::os_text("Linux host 6.1.0 x86_64 GNU/Linux\n"), "Linux host 6.1.0 x86_64 GNU/Linux");
}
