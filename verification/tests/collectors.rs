use gartop::cpu::{CpuCollector, CpuTimes};
use gartop::disk::{diskstats_fit_check, is_physical_disk, DiskCollector};
use gartop::memory::{MemInfo, MemoryCollector};
use gartop::network::{net_dev_is_readable, NetworkCollector};

fn times(user: u64, idle: u64) -> CpuTimes {
    CpuTimes { user, nice: 0, system: 0, idle, iowait: 0, irq: 0, softirq: 0, steal: 0 }
}

#[test]
fn physical_disk_names() {
    assert!(is_physical_disk("sda"));
    assert!(is_physical_disk("nvme0n1"));
    assert!(is_physical_disk("vda"));
    assert!(is_physical_disk("mmcblk0"));
    assert!(!is_physical_disk("sda1"));
    assert!(!is_physical_disk("nvme0n1p1"));
    assert!(!is_physical_disk("loop0"));
    assert!(!is_physical_disk("dm-0"));
    assert!(!is_physical_disk("ram0"));
    assert!(!is_physical_disk("hdb12"));
    assert!(!is_physical_disk("mmcblk0p1"));
    assert!(!is_physical_disk("mmcblk1p12"));
}

const DISKSTATS: &str = "   8       0 sda 100 0 2048 0 50 0 4096 0 0 0 0 0 0 0 0\n   8       1 sda1 10 0 20 0 5 0 40 0 0 0 0 0 0 0 0\n   7       0 loop0 1 0 2 0 3 0 4 0 0 0 0 0 0 0 0\n short line\n";

#[test]
fn disk_collect_first_and_second_sample() {
    let mut c = DiskCollector::new();
    let first = c.collect(DISKSTATS, 1_000_000_000);
    assert_eq!(first.len(), 1);
    assert_eq!(first[0].device, "sda");
    assert_eq!(first[0].reads, 100);
    assert_eq!(first[0].read_bytes, 2048 * 512);
    assert_eq!(first[0].writes, 50);
    assert_eq!(first[0].write_bytes, 4096 * 512);
    assert_eq!((first[0].read_delta, first[0].write_delta, first[0].elapsed_ns), (0, 0, 0));

    let later = "   8       0 sda 110 0 3048 0 55 0 4096 0 0 0 0 0 0 0 0\n";
    let second = c.collect(later, 3_000_000_000);
    assert_eq!(second.len(), 1);
    assert_eq!(second[0].read_delta, 1000 * 512);
    assert_eq!(second[0].write_delta, 0);
    assert_eq!(second[0].elapsed_ns, 2_000_000_000);
}

#[test]
fn disk_unparsable_counter_is_zero() {
    let mut c = DiskCollector::new();
    let s = c.collect("8 0 sdb x 0 y 0 5 0 z 0 0 0 0 0 0\n", 0);
    assert_eq!(s.len(), 1);
    assert_eq!(s[0].reads, 0);
    assert_eq!(s[0].read_bytes, 0);
    assert_eq!(s[0].writes, 5);
    assert_eq!(s[0].write_bytes, 0);
}

const NET_DEV: &str = "Inter-|   Receive                                                |  Transmit\n face |bytes    packets errs drop fifo frame compressed multicast|bytes    packets errs drop fifo colls carrier compressed\n    lo: 1000 10 0 0 0 0 0 0 1000 10 0 0 0 0 0 0\n  eth0: 5000 50 0 0 0 0 0 0 7000 70 0 0 0 0 0 0\nveth12: 1 1 0 0 0 0 0 0 1 1 0 0 0 0 0 0\n";

#[test]
fn network_collect_skips_loopback_and_virtual() {
    assert!(net_dev_is_readable(NET_DEV));
    let mut c = NetworkCollector::new();
    let s = c.collect(NET_DEV, 10);
    assert_eq!(s.len(), 1);
    assert_eq!(s[0].interface, "eth0");
    assert_eq!(s[0].rx_bytes, 5000);
    assert_eq!(s[0].rx_packets, 50);
    assert_eq!(s[0].tx_bytes, 7000);
    assert_eq!(s[0].tx_packets, 70);
    assert_eq!(s[0].elapsed_ns, 0);

    let next = NET_DEV.replace("5000 50", "6000 60");
    let s2 = c.collect(&next, 20);
    assert_eq!(s2[0].rx_delta, 1000);
    assert_eq!(s2[0].tx_delta, 0);
    assert_eq!(s2[0].elapsed_ns, 10);
}

#[test]
fn network_short_line_is_not_readable() {
    let text = "h1\nh2\n eth0: 1 2 3 4 5 6 7 8 9\n";
    assert!(!net_dev_is_readable(text));
    let ok = "h1\nh2\n lo: 1 2 3 4 5 6 7 8 9\n";
    assert!(net_dev_is_readable(ok));
}

#[test]
fn cpu_deltas() {
    let mut c = CpuCollector::new(2);
    let s1 = c.collect(times(100, 300), &vec![times(50, 150), times(50, 150), times(1, 1)]);
    assert_eq!((s1.overall.active, s1.overall.total), (100, 400));
    assert_eq!(s1.per_core.len(), 2);
    assert_eq!(s1.core_count, 2);
    let s2 = c.collect(times(150, 350), &vec![times(80, 170)]);
    assert_eq!((s2.overall.active, s2.overall.total), (50, 100));
    assert_eq!(s2.per_core.len(), 1);
    assert_eq!((s2.per_core[0].active, s2.per_core[0].total), (30, 50));
    assert_eq!(CpuCollector::new(0).collect(times(1, 1), &vec![]).core_count, 1);
    assert_eq!(times(3, 4).total(), 7);
    assert_eq!(times(3, 4).active(), 3);
}

#[test]
fn memory_figures() {
    let c = MemoryCollector::new();
    let m = MemInfo {
        mem_total: 1000,
        mem_free: 100,
        buffers: 50,
        cached: 150,
        mem_available: None,
        swap_total: 500,
        swap_free: 600,
    };
    let s = c.collect(m);
    assert_eq!(s.available, 300);
    assert_eq!(s.used, 700);
    assert_eq!(s.swap_used, 0);
    let s2 = c.collect(MemInfo { mem_available: Some(2000), ..m });
    assert_eq!(s2.used, 0);
    assert_eq!(s2.available, 2000);
}

#[test]
fn disk_byte_counts_must_fit() {
    assert!(diskstats_fit_check(DISKSTATS));
    // 2^55 sectors are 2^64 bytes: too many for a u64.
    let huge = "8 0 sda 1 0 36028797018963968 0 1 0 8 0 0 0 0 0 0\n";
    assert!(!diskstats_fit_check(huge));
    // The same count on a partition is never multiplied.
    let part = "8 1 sda1 1 0 36028797018963968 0 1 0 8 0 0 0 0 0 0\n";
    assert!(diskstats_fit_check(part));
    let edge = "8 0 sda 1 0 36028797018963967 0 1 0 8 0 0 0 0 0 0\n";
    assert!(diskstats_fit_check(edge));
    let mut c = DiskCollector::new();
    assert_eq!(c.collect(edge, 0)[0].read_bytes, 36028797018963967 * 512);
}
