use gartop::cpu::{CpuCollector, CpuTimes};
use gartop::disk::DiskCollector;
use gartop::gui::{AppState, KeyPress, Tab};
use gartop::network::NetworkCollector;

fn times(user: u64, system: u64, idle: u64, iowait: u64) -> CpuTimes {
    CpuTimes { user, nice: 0, system, idle, iowait, irq: 0, softirq: 0, steal: 0 }
}

#[test]
fn cpu_same_times_twice_is_idle() {
    let mut c = CpuCollector::new(1);
    let t = times(500, 200, 3000, 40);
    c.collect(t, &vec![t]);
    let s = c.collect(t, &vec![t]);
    assert_eq!((s.overall.active, s.overall.total), (0, 0));
    assert_eq!((s.per_core[0].active, s.per_core[0].total), (0, 0));
}

#[test]
fn cpu_usage_within_total() {
    let mut c = CpuCollector::new(1);
    c.collect(times(100, 100, 1000, 10), &vec![]);
    let s = c.collect(times(180, 150, 1100, 10), &vec![]);
    assert_eq!((s.overall.active, s.overall.total), (130, 230));
    assert!(s.overall.active <= s.overall.total);
}

#[test]
fn network_same_line_twice() {
    let text = "h1\nh2\n  eth1: 10 1 0 0 0 0 0 0 20 2 0 0 0 0 0 0\n";
    let mut c = NetworkCollector::new();
    let first = c.collect(text, 5);
    assert_eq!((first[0].rx_delta, first[0].tx_delta, first[0].elapsed_ns), (0, 0, 0));
    let again = c.collect(text, 12);
    assert_eq!((again[0].rx_delta, again[0].tx_delta, again[0].elapsed_ns), (0, 0, 7));
}

#[test]
fn disk_same_line_twice() {
    let line = "259 0 nvme0n1 7 0 16 0 3 0 8 0 0 0 0 0 0\n";
    let mut c = DiskCollector::new();
    let first = c.collect(line, 1);
    assert_eq!((first[0].read_delta, first[0].write_delta, first[0].elapsed_ns), (0, 0, 0));
    let again = c.collect(line, 4);
    assert_eq!((again[0].read_delta, again[0].write_delta, again[0].elapsed_ns), (0, 0, 3));
}

#[test]
fn tab_key_twice_returns() {
    let mut app = AppState::new(800, 600);
    let start = app.tab_bar().active();
    app.handle_key(KeyPress::Tab);
    assert_ne!(app.tab_bar().active(), start);
    app.handle_key(KeyPress::Tab);
    assert_eq!(app.tab_bar().active(), start);
    assert_eq!(start, Tab::Cpu);
}
