use std::collections::BTreeMap;

use tpu_monitor::sysmon::{countable, holders, ProcFiles, SysMon};

const PASSWD: &str = "root:x:0:0\nann:x:1000:1000\n";
const MEMINFO: &str = "MemTotal: 1000000 kB\n";
const MOUNTS: &str = "/dev/sda1 /data ext4 rw 0 0\n";

fn stat(utime: u64, stime: u64) -> String {
    format!("1 (py) S 1 2 3 4 5 6 7 8 9 10 {utime} {stime} 0 0 20 0 3 0")
}

fn files(pid: i32, utime: u64, stime: u64) -> ProcFiles {
    ProcFiles {
        pid,
        stat: Some(stat(utime, stime)),
        status: Some("VmRSS: 2500 kB\nUid: 1000 1000\n".to_string()),
        cmdline: Some(b"python\0train.py\0".to_vec()),
    }
}

fn disk(read: u64, written: u64) -> String {
    format!("8 1 sda1 0 0 {read} 0 0 0 {written} 0\n")
}

fn net(received: u64, sent: u64) -> String {
    format!("eth0: {received} 0 0 0 0 0 0 0 {sent} 0\n")
}

fn monitor() -> SysMon {
    SysMon::new("/data", Some(PASSWD), Some(MEMINFO), Some(MOUNTS))
}

fn owners(list: &[(i64, i32)]) -> BTreeMap<i64, i32> {
    list.iter().copied().collect()
}

#[test]
fn the_first_sample_measures_nothing() {
    let mut mon = monitor();
    let held = owners(&[(0, 10), (1, 10), (5, 20)]);
    let (procs, io) = mon.sample(
        1_000,
        &held,
        &vec![files(10, 150, 50), files(20, 1, 1), files(30, 9, 9)],
        Some(&disk(100, 200)),
        Some(&net(1000, 2000)),
    );
    assert_eq!(procs.len(), 2);
    assert!(procs.iter().all(|p| p.cpu_ticks == 0));
    let ten = procs.iter().find(|p| p.pid == 10).unwrap();
    assert_eq!(ten.user, "ann");
    assert_eq!(ten.rss_kb, 2500);
    assert_eq!(ten.mem_share, Some((2500, 1000000)));
    assert_eq!(ten.time_secs, 2);
    assert_eq!(ten.threads, 3);
    assert_eq!(ten.devices, "0-1");
    assert_eq!(ten.cmd, "python train.py");
    assert_eq!(io.disk_dev, "sda1");
    assert_eq!((io.disk_r, io.disk_w, io.net_rx, io.net_tx, io.elapsed_ns), (0, 0, 0, 0, 0));
}

#[test]
fn the_second_sample_measures_the_growth() {
    let mut mon = monitor();
    let held = owners(&[(0, 10), (1, 20), (2, 30)]);
    mon.sample(
        1_000,
        &held,
        &vec![files(10, 100, 0), files(20, 500, 0)],
        Some(&disk(100, 200)),
        Some(&net(1000, 2000)),
    );
    let (procs, io) = mon.sample(
        4_000,
        &held,
        &vec![files(10, 100, 7), files(20, 540, 2), files(30, 900, 0)],
        Some(&disk(150, 210)),
        Some(&net(900, 2500)),
    );
    let shown: Vec<(i32, u64)> = procs.iter().map(|p| (p.pid, p.cpu_ticks)).collect();
    assert_eq!(shown, [(20, 42), (10, 7), (30, 0)]);
    assert_eq!((io.disk_r, io.disk_w), (50, 10));
    assert_eq!((io.net_rx, io.net_tx), (0, 500));
    assert_eq!(io.elapsed_ns, 3_000);
}

#[test]
fn unread_counters_are_measured_from_the_last_that_was_read() {
    let mut mon = monitor();
    let none = owners(&[]);
    mon.sample(1, &none, &vec![], Some(&disk(100, 200)), Some(&net(10, 20)));
    let (procs, io) = mon.sample(2, &none, &vec![], None, None);
    assert!(procs.is_empty());
    assert_eq!((io.disk_r, io.disk_w, io.net_rx, io.net_tx), (0, 0, 0, 0));
    let (_, io) = mon.sample(3, &none, &vec![], Some(&disk(101, 202)), Some(&net(13, 24)));
    assert_eq!((io.disk_r, io.disk_w, io.net_rx, io.net_tx), (1, 2, 3, 4));
    assert_eq!(io.elapsed_ns, 1);
}

#[test]
fn two_samples_at_one_time_measure_nothing() {
    let mut mon = monitor();
    let held = owners(&[(0, 10)]);
    mon.sample(7, &held, &vec![files(10, 1, 0)], Some(&disk(1, 1)), Some(&net(1, 1)));
    let (procs, io) = mon.sample(7, &held, &vec![files(10, 9, 0)], Some(&disk(9, 9)), Some(&net(9, 9)));
    assert_eq!(procs[0].cpu_ticks, 0);
    assert_eq!((io.disk_r, io.net_rx, io.elapsed_ns), (0, 0, 0));
}

#[test]
fn processes_that_are_gone_are_left_out_and_forgotten() {
    let mut mon = monitor();
    let held = owners(&[(0, 10)]);
    mon.sample(1, &held, &vec![files(10, 100, 0)], None, None);
    let gone = ProcFiles { pid: 10, stat: None, status: None, cmdline: None };
    assert!(mon.sample(2, &held, &vec![gone], None, None).0.is_empty());
    let (procs, _) = mon.sample(3, &held, &vec![files(10, 200, 0)], None, None);
    assert_eq!(procs[0].cpu_ticks, 0);
}

#[test]
fn what_cannot_be_read_is_left_at_its_default() {
    let mut mon = SysMon::new("/data", None, None, None);
    let bare = ProcFiles { pid: 5, stat: Some(stat(0, 99)), status: None, cmdline: None };
    let (procs, io) = mon.sample(1, &owners(&[(3, 5)]), &vec![bare], Some(&disk(1, 1)), None);
    assert_eq!(procs[0].user, "0");
    assert_eq!(procs[0].rss_kb, 0);
    assert_eq!(procs[0].mem_share, None);
    assert_eq!(procs[0].time_secs, 0);
    assert_eq!(procs[0].cmd, "[py]");
    assert_eq!(io.disk_dev, "");
}

#[test]
fn each_holder_is_listed_once() {
    let mut list = holders(&owners(&[(0, 10), (1, 20), (2, 10), (7, 10)]));
    list.sort();
    assert_eq!(list, [10, 20]);
    assert!(holders(&owners(&[])).is_empty());
}

#[test]
fn sums_that_do_not_fit_are_told() {
    assert!(countable(&vec![files(1, 5, 6)], Some(&net(1, 2))));
    assert!(countable(&vec![], None));
    assert!(!countable(&vec![files(1, u64::MAX, 1)], None));
    let large = net(u64::MAX, 0) + "eth1: 1 0 0 0 0 0 0 0 0\n";
    assert!(!countable(&vec![], Some(&large)));
}
