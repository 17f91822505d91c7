use gartop::cpu::CpuTimes;
use gartop::process::{kill_error, kill_signal, ProcessCollector, ProcessEntry, ProcessReading};
use gartop::socket::{InetRecord, SocketCollector, SocketProtocol, SocketTable, TcpState};
use gartop::error::Error;

const TCP: &str = "  sl  local_address rem_address   st tx_queue rx_queue tr tm->when retrnsmt   uid  timeout inode\n   0: 00000000:0016 00000000:0000 0A 00000000:00000000 00:00000000 00000000     0        0 1111 1 0000000000000000 100 0 0 10 0\n   1: 0100007F:1F90 0100007F:C350 01 00000010:00000020 00:00000000 00000000  1000        0 2222 1 0000000000000000 20 4 30 10 -1\n   2: 0100007F:1F91 0100007F:C351 01 00000000:00000000 00:00000000 00000000  1000        0 0 1\n";

#[test]
fn tcp_state_numbers() {
    assert_eq!(TcpState::from(1), TcpState::Established);
    assert_eq!(TcpState::from(10), TcpState::Listen);
    assert_eq!(TcpState::from(0), TcpState::Unknown);
    assert_eq!(TcpState::from(12), TcpState::Unknown);
    for n in 1..=11u8 {
        assert_eq!(TcpState::from(n).code(), n);
    }
}

#[test]
fn socket_line_parsing() {
    let c = SocketCollector::new();
    assert_eq!(c.parse_addr_port("0100007F:1F90"), Some(8080));
    assert_eq!(c.parse_addr_port("0100007F"), None);
    assert_eq!(c.parse_addr_port("a:b:c"), None);
    assert_eq!(c.parse_addr_port("x:10000"), None);
    let line = "   1: 0100007F:1F90 0100007F:C350 01 00000010:00000020 00:00000000 00000000  1000        0 2222 1";
    let (inode, info) = c.parse_socket_line(line, SocketProtocol::Tcp).unwrap();
    assert_eq!(inode, 2222);
    assert_eq!(info.state, TcpState::Established);
    assert_eq!(info.local_port, 8080);
    assert_eq!(info.remote_port, 50000);
    assert_eq!(info.tx_queue, 16);
    assert_eq!(info.rx_queue, 32);
    assert!(c.parse_socket_line("too short", SocketProtocol::Udp).is_none());
    let no_colon = "   1: 0100007F:1F90 0100007F:C350 01 00000010 00:00000000 00000000  1000        0 2222 1";
    assert!(c.parse_socket_line(no_colon, SocketProtocol::Tcp).is_none());
}

#[test]
fn socket_refresh_and_process_stats() {
    let mut c = SocketCollector::new();
    let tables = vec![SocketTable { contents: TCP.to_string(), protocol: SocketProtocol::Tcp }];
    let replies = vec![
        InetRecord { inode: 2222, state: 1, source_port: 8080, destination_port: 50000, send_queue: 5, recv_queue: 7, protocol: SocketProtocol::Tcp },
        InetRecord { inode: 3333, state: 7, source_port: 53, destination_port: 0, send_queue: 0, recv_queue: 0, protocol: SocketProtocol::Udp },
        InetRecord { inode: 0, state: 1, source_port: 1, destination_port: 1, send_queue: 1, recv_queue: 1, protocol: SocketProtocol::Udp },
    ];
    c.refresh(&tables, &replies);
    assert_eq!(c.socket_count(), 3);
    let stats = c.get_process_stats(&[1111, 2222, 3333, 9999], 100);
    assert_eq!(stats.tcp_count, 2);
    assert_eq!(stats.udp_count, 1);
    assert_eq!(stats.listen_count, 1);
    assert_eq!(stats.established_count, 1);
    assert_eq!(stats.total_tx_queue, 16);
    assert_eq!(stats.total_rx_queue, 32);
    assert_eq!(stats.total_rx_bytes, 7);
    assert_eq!(stats.total_tx_bytes, 5);
    let parts = c.get_process_bandwidth(&[2222], 150);
    assert_eq!(parts.len(), 1);
    assert_eq!((parts[0].rx_delta, parts[0].tx_delta, parts[0].elapsed_ns), (0, 0, 50));
    assert!(c.get_process_bandwidth(&[2222], 100).is_empty());
    c.refresh(&vec![], &vec![]);
    assert_eq!(c.socket_count(), 0);
    assert!(c.get_process_bandwidth(&[2222], 200).is_empty());
}

#[test]
fn process_info_and_rates() {
    let mut pc = ProcessCollector::new(1 << 30);
    let reading = ProcessReading {
        pid: 42,
        comm: "bash".to_string(),
        cmdline: Some(vec!["/bin/bash".to_string(), "-l".to_string()]),
        io: Some((100, 200)),
        utime: 10,
        stime: 5,
        rss_pages: 3,
        vsize: 12345,
        state: 'S',
        ruid: 1000,
        user_name: None,
        socket_inodes: vec![],
    };
    let r1 = pc.process_info(&reading, 1000, 0);
    assert_eq!(r1.cmdline, "/bin/bash -l");
    assert_eq!(r1.name, "bash");
    assert_eq!(r1.state, "sleeping");
    assert_eq!(r1.user, "1000");
    assert_eq!(r1.rss, 3 * 4096);
    assert_eq!((r1.cpu_delta, r1.system_delta, r1.io_elapsed_ns), (0, 0, 0));
    let later = ProcessReading { utime: 20, io: Some((150, 200)), cmdline: None, user_name: Some("alice".to_string()), state: 'Z', ..reading.clone() };
    let r2 = pc.process_info(&later, 1100, 500);
    assert_eq!((r2.cpu_delta, r2.system_delta), (10, 100));
    assert_eq!((r2.io_read_delta, r2.io_write_delta, r2.io_elapsed_ns), (50, 0, 500));
    assert_eq!(r2.cmdline, "bash");
    assert_eq!(r2.user, "alice");
    assert_eq!(r2.state, "zombie");
    pc.retain_pids(&vec![7]);
    let r3 = pc.process_info(&later, 1200, 900);
    assert_eq!((r3.cpu_delta, r3.system_delta), (0, 0));
    assert_eq!(pc.total_memory(), 1 << 30);
}

#[test]
fn kill_signals_and_errors() {
    assert!(kill_signal(15).is_ok());
    assert!(kill_signal(9).is_ok());
    match kill_signal(0) {
        Err(Error::Ipc(m)) => assert_eq!(m, "Invalid signal: 0"),
        _ => panic!("signal 0 is not a signal"),
    }
    match kill_signal(-3) {
        Err(Error::Ipc(m)) => assert_eq!(m, "Invalid signal: -3"),
        _ => panic!("negative signal"),
    }
    assert!(matches!(kill_error(12, 3), Error::ProcessNotFound(12)));
    match kill_error(12, 1) {
        Error::PermissionDenied(m) => assert_eq!(m, "Cannot kill PID 12"),
        _ => panic!("EPERM"),
    }
    assert!(matches!(kill_error(12, 5), Error::Io(5)));
}

#[test]
fn process_bandwidth_after_recording() {
    let mut pc = ProcessCollector::new(1 << 20);
    let tables = vec![SocketTable { contents: TCP.to_string(), protocol: SocketProtocol::Tcp }];
    pc.refresh_sockets(&tables, &vec![]);
    let reading = ProcessReading {
        pid: 7,
        comm: "srv".to_string(),
        cmdline: None,
        io: None,
        utime: 0,
        stime: 0,
        rss_pages: 0,
        vsize: 0,
        state: 'R',
        ruid: 0,
        user_name: Some("root".to_string()),
        socket_inodes: vec![1111, 2222],
    };
    let r = pc.process_info(&reading, 10, 1_000);
    assert_eq!(r.net_connections, 2);
    assert_eq!(r.net.tcp_count, 2);
    assert!(r.bandwidth.is_empty());
    assert_eq!(r.state, "running");
    assert_eq!(r.user, "root");
}

fn reading(pid: i32, utime: u64) -> ProcessReading {
    ProcessReading {
        pid,
        comm: format!("p{}", pid),
        cmdline: None,
        io: Some((utime, 0)),
        utime,
        stime: 0,
        rss_pages: 1,
        vsize: 0,
        state: 'S',
        ruid: 0,
        user_name: None,
        socket_inodes: vec![2222],
    }
}

fn system(total: u64) -> CpuTimes {
    CpuTimes { user: total, nice: 0, system: 0, idle: 0, iowait: 0, irq: 0, softirq: 0, steal: 0 }
}

#[test]
fn process_collect_samples() {
    let mut pc = ProcessCollector::new(4096 * 100);
    let tables = vec![SocketTable { contents: TCP.to_string(), protocol: SocketProtocol::Tcp }];
    let entries = vec![
        ProcessEntry { pid: 1, reading: Some(reading(1, 10)) },
        ProcessEntry { pid: 2, reading: None },
        ProcessEntry { pid: 3, reading: Some(reading(3, 20)) },
    ];
    let first = pc.collect(&tables, &vec![], system(1000), &entries, 100);
    assert_eq!(first.len(), 2);
    assert_eq!((first[0].pid, first[1].pid), (1, 3));
    assert_eq!(first[0].name, "p1");
    assert_eq!((first[0].cpu_delta, first[0].system_delta), (0, 0));
    assert_eq!(first[1].net.tcp_count, 1);
    assert_eq!(first[1].net.established_count, 1);

    let second = pc.collect(&tables, &vec![], system(1400), &vec![ProcessEntry { pid: 1, reading: Some(reading(1, 50)) }], 300);
    assert_eq!(second.len(), 1);
    assert_eq!((second[0].cpu_delta, second[0].system_delta), (40, 400));
    assert_eq!((second[0].io_read_delta, second[0].io_elapsed_ns), (40, 200));

    // Process 3 was not listed in the second sample: its stats were dropped.
    let third = pc.collect(&tables, &vec![], system(1500), &vec![ProcessEntry { pid: 3, reading: Some(reading(3, 30)) }], 400);
    assert_eq!((third[0].cpu_delta, third[0].system_delta), (0, 0));
}

#[test]
fn process_bandwidth_between_samples() {
    let mut pc = ProcessCollector::new(1 << 20);
    let reply = |recv_queue: u32, send_queue: u32| InetRecord {
        inode: 2222,
        state: 1,
        source_port: 8080,
        destination_port: 50000,
        send_queue,
        recv_queue,
        protocol: SocketProtocol::Tcp,
    };
    let entries = vec![ProcessEntry { pid: 9, reading: Some(reading(9, 1)) }];
    let first = pc.collect(&vec![], &vec![reply(5, 3)], system(100), &entries, 100);
    assert!(first[0].bandwidth.is_empty());
    let second = pc.collect(&vec![], &vec![reply(25, 3)], system(200), &entries, 300);
    assert_eq!(second[0].bandwidth.len(), 1);
    let part = second[0].bandwidth[0];
    assert_eq!((part.rx_delta, part.tx_delta, part.elapsed_ns), (20, 0, 200));
}
