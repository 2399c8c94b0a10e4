use agent_immune::leak_check::{
    gate_trajectory_script, parse_ps_rss_kb, proc_status_path, ps_pid_argument, parse_vm_rss_kb, shell_escape, GateError,
    LeakMonitor, DEFAULT_THRESHOLD_KB, GATE_MEMORY_LIMIT_MB,
};

#[test]
fn zero_threshold_means_default() {
    assert_eq!(LeakMonitor::new(0).threshold_kb, DEFAULT_THRESHOLD_KB);
    assert_eq!(DEFAULT_THRESHOLD_KB, 524288);
    assert_eq!(LeakMonitor::new(100).threshold_kb, 100);
}

#[test]
fn stable_samples_pass() {
    let mut m = LeakMonitor::new(DEFAULT_THRESHOLD_KB);
    for rss in [1000u64, 1200, 1100] {
        assert!(m.observe(rss).is_none());
    }
    let report = m.finish(true, "exit status: 0");
    assert!(report.passed, "{}", report.message);
    assert_eq!(report.peak_rss_kb, 1200);
    assert_eq!(report.samples, 3);
    assert_eq!(report.growth_kb, 200);
    assert_eq!(report.message, "memory stable");
}

#[test]
fn runaway_growth_stops_the_run() {
    let mut m = LeakMonitor::new(100);
    assert!(m.observe(1000).is_none());
    assert!(m.observe(1100).is_none());
    let report = m.observe(1101).expect("growth above threshold");
    assert!(!report.passed);
    assert_eq!(report.growth_kb, 101);
    assert_eq!(report.samples, 3);
    assert_eq!(report.peak_rss_kb, 1101);
    assert_eq!(report.message, "memory growth exceeded threshold (+101 KiB > 100 KiB)");
}

#[test]
fn failed_exit_fails_the_check() {
    let mut m = LeakMonitor::new(100);
    assert!(m.observe(10).is_none());
    let report = m.finish(false, "exit status: 3");
    assert!(!report.passed);
    assert_eq!(report.message, "process exited with exit status: 3");
}

#[test]
fn final_growth_within_threshold_passes() {
    let mut m = LeakMonitor::new(100);
    assert!(m.observe(500).is_none());
    assert!(m.observe(400).is_none());
    let report = m.finish(true, "exit status: 0");
    assert!(report.passed);
    let mut n = LeakMonitor::new(1);
    assert!(n.observe(5).is_none());
    assert!(n.observe(6).is_none());
    let r2 = n.finish(true, "exit status: 0");
    assert!(r2.passed);
    assert_eq!(r2.growth_kb, 1);
}

#[test]
fn no_samples_report() {
    let m = LeakMonitor::new(0);
    let report = m.finish(true, "exit status: 0");
    assert!(report.passed);
    assert_eq!(report.samples, 0);
    assert_eq!(report.peak_rss_kb, 0);
}

#[test]
fn reads_proc_status() {
    let status = "Name:\tsh\nVmPeak:\t  9000 kB\nVmRSS:\t    1234 kB\nVmRSS:\t 1 kB\n";
    assert_eq!(parse_vm_rss_kb(status), Some(1234));
    assert_eq!(parse_vm_rss_kb("Name:\tsh\n"), None);
    assert_eq!(parse_vm_rss_kb("VmRSS:\tlots kB\nVmRSS: 5 kB"), None);
    assert_eq!(parse_vm_rss_kb("VmRSS: 77 kB kB\r\n"), Some(77));
    assert_eq!(parse_vm_rss_kb("VmRSS: +8"), Some(8));
}

#[test]
fn reads_ps_output() {
    assert_eq!(parse_ps_rss_kb("  5678\n"), Some(5678));
    assert_eq!(parse_ps_rss_kb(""), None);
    assert_eq!(parse_ps_rss_kb("18446744073709551616"), None);
    assert_eq!(parse_ps_rss_kb("18446744073709551615"), Some(u64::MAX));
}

#[test]
fn gate_commands() {
    assert_eq!(shell_escape("/tmp/a b.sh"), "'/tmp/a b.sh'");
    assert_eq!(shell_escape("/tmp/ab.sh"), "/tmp/ab.sh");
    assert_eq!(GATE_MEMORY_LIMIT_MB, 4096);
    match gate_trajectory_script("/tmp/a b.sh", true) {
        Ok(c) => assert_eq!(c, "ulimit -v $((4096 * 1024)) 2>/dev/null; sh '/tmp/a b.sh'"),
        Err(_) => panic!("expected a command"),
    }
    match gate_trajectory_script("/tmp/x.sh", false) {
        Err(e) => {
            assert!(matches!(e, GateError::ScriptNotFound(_)));
            assert_eq!(e.message(), "script not found: /tmp/x.sh");
        }
        Ok(_) => panic!("expected an error"),
    }
}

#[test]
fn rss_sources_skip_pid_zero() {
    assert_eq!(proc_status_path(0), None);
    assert_eq!(proc_status_path(4242).as_deref(), Some("/proc/4242/status"));
    assert_eq!(ps_pid_argument(0), None);
    assert_eq!(ps_pid_argument(17).as_deref(), Some("17"));
}
