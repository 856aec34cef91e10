use tpu_monitor::host::{paths_match, DiskInfo, HostMonitor};
use tpu_monitor::reading::Reading;

fn disk(mount: Option<&str>, total: u64, available: u64) -> DiskInfo {
    DiskInfo { mount: mount.map(|m| m.to_string()), total, available }
}

#[test]
fn paths_are_compared_step_by_step() {
    let samples = [
        "", "/", "//", ".", "./", "./.", "/.", "/..", "..", "data", "data/", "data/.", "./data", "/data", "/data/",
        "//data", "/data/.", "/./data", "/data/./x", "/data/x", "/data/x/..", "a/./b", "a//b", "a/b", "/data.",
    ];
    for a in samples {
        for b in samples {
            let wanted = std::path::Path::new(a) == std::path::Path::new(b);
            assert_eq!(paths_match(a, b), wanted, "{a:?} {b:?}");
        }
    }
}

#[test]
fn the_wanted_disk_comes_first() {
    let disks = vec![
        disk(None, 1, 1),
        disk(Some("/"), 100, 40),
        disk(Some("/data"), 1000, 300),
        disk(Some("/data/"), 5, 5),
    ];
    let load = Reading::from_count(12);
    let stats = HostMonitor::new("/data/").sample(load, 3, 8, &disks, Some("tpu-vm"));
    assert_eq!(stats.cpu_pct, load);
    assert_eq!((stats.mem_used, stats.mem_total), (3, 8));
    assert_eq!((stats.disk_used, stats.disk_total), (700, 1000));
    assert_eq!(stats.disk_mount, "/data");
    assert_eq!(stats.hostname, "tpu-vm");
}

#[test]
fn the_root_stands_in_for_a_missing_disk() {
    let disks = vec![disk(Some("/home"), 9, 9), disk(Some("/"), 100, 140)];
    let stats = HostMonitor::new("/data").sample(Reading::from_count(0), 0, 0, &disks, None);
    assert_eq!((stats.disk_used, stats.disk_total), (0, 100));
    assert_eq!(stats.disk_mount, "/");
    assert_eq!(stats.hostname, "?");
}

#[test]
fn without_disks_nothing_is_used() {
    let disks = vec![disk(None, 9, 1), disk(Some("/home"), 9, 1)];
    let stats = HostMonitor::new("/data").sample(Reading::from_count(0), 0, 0, &disks, Some(""));
    assert_eq!((stats.disk_used, stats.disk_total), (0, 0));
    assert_eq!(stats.disk_mount, "?");
    assert_eq!(stats.hostname, "");
}
