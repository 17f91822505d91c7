use gartop::daemon::after_reply;
use gartop::order::{name_less, order_processes};
use gartop::process::ProcessRecord;
use gartop::protocol::{Command, SortField};
use gartop::socket::ProcessNetStats;
use gartop::subscriptions::Subscriptions;

fn record(pid: i32, name: &str, conns: u32, tcp: u32) -> ProcessRecord {
    let mut net = ProcessNetStats::zero();
    net.tcp_count = tcp;
    ProcessRecord {
        pid,
        name: name.to_string(),
        cmdline: name.to_string(),
        cpu_delta: 0,
        system_delta: 0,
        rss: 0,
        vsize: 0,
        io_read_bytes: 0,
        io_write_bytes: 0,
        io_read_delta: 0,
        io_write_delta: 0,
        io_elapsed_ns: 0,
        net_connections: conns,
        net,
        bandwidth: vec![],
        state: "running".to_string(),
        user: "root".to_string(),
    }
}

fn sample() -> Vec<ProcessRecord> {
    vec![
        record(30, "sshd", 2, 1),
        record(10, "bash", 0, 0),
        record(20, "Xorg", 5, 3),
        record(40, "bash", 2, 2),
        record(5, "émacs", 2, 1),
    ]
}

fn pids(v: &[ProcessRecord]) -> Vec<i32> {
    v.iter().map(|r| r.pid).collect()
}

#[test]
fn order_by_pid_and_limit() {
    assert_eq!(pids(&order_processes(sample(), SortField::Pid, None)), vec![5, 10, 20, 30, 40]);
    assert_eq!(pids(&order_processes(sample(), SortField::Pid, Some(2))), vec![5, 10]);
    assert_eq!(pids(&order_processes(sample(), SortField::Pid, Some(9))), vec![5, 10, 20, 30, 40]);
    assert!(order_processes(sample(), SortField::Pid, Some(0)).is_empty());
}

#[test]
fn order_by_name_is_stable() {
    // "Xorg" < "bash" (upper case first) < "sshd" < "émacs"; both "bash" keep their order.
    assert_eq!(pids(&order_processes(sample(), SortField::Name, None)), vec![20, 10, 40, 30, 5]);
    assert!(name_less("Xorg", "bash"));
    assert!(name_less("bash", "bashrc"));
    assert!(!name_less("bash", "bash"));
    assert!(name_less("sshd", "émacs"));
}

#[test]
fn order_by_counts_descending_and_stable() {
    assert_eq!(pids(&order_processes(sample(), SortField::NetConnections, None)), vec![20, 30, 40, 5, 10]);
    assert_eq!(pids(&order_processes(sample(), SortField::NetTcp, Some(3))), vec![20, 40, 30]);
}

#[test]
fn connection_stays_open_while_subscribed() {
    let mut subs = Subscriptions::new();
    assert!(!after_reply(&mut subs, &Command::GetCpu));
    assert!(!after_reply(&mut subs, &Command::Subscribe { events: vec![] }));
    assert!(after_reply(&mut subs, &Command::Subscribe { events: vec!["cpu".to_string()] }));
    assert!(after_reply(&mut subs, &Command::GetMemory));
    assert!(after_reply(&mut subs, &Command::Unsubscribe { events: vec!["disk".to_string()] }));
    assert!(!after_reply(&mut subs, &Command::Unsubscribe { events: vec!["cpu".to_string()] }));
}
