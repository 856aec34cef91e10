use tpu_monitor::procfs::{
    disk_device_for, mem_total_kb, net_sums, read_command, read_disk, read_stat, read_status,
    read_users,
};

#[test]
fn users_are_listed_by_number() {
    let text = "root:x:0:0::/root:/bin/sh\nbroken\nbad:x:y:0\nann:x:1000:1000\nbob:x:1000\n";
    let users = read_users(Some(text));
    assert_eq!(users.len(), 2);
    assert_eq!(users[&0], "root");
    assert_eq!(users[&1000], "bob");
    assert!(read_users(None).is_empty());
}

#[test]
fn memory_is_read_from_its_line() {
    assert_eq!(mem_total_kb(Some("MemFree: 5 kB\nMemTotal:   1024 kB\nMemTotal: 7 kB\n")), 1024);
    assert_eq!(mem_total_kb(Some("MemTotal: many kB\n")), 0);
    assert_eq!(mem_total_kb(Some("MemTotal:\n")), 0);
    assert_eq!(mem_total_kb(Some("")), 0);
    assert_eq!(mem_total_kb(None), 0);
}

#[test]
fn statuses_give_memory_and_user() {
    let text = "Name:\tpython\nUid:\t1000\t1001\nVmRSS:\t  2048 kB\n";
    assert_eq!(read_status(Some(text)), (2048, 1000));
    assert_eq!(read_status(Some("Uid:\t-1\n")), (0, 0));
    assert_eq!(read_status(None), (0, 0));
}

#[test]
fn mounts_name_their_device() {
    let text = "proc /proc proc rw 0 0\n/dev/nvme0n2 /data ext4 rw 0 0\n/dev/sda1 /data xfs rw 0 0\ntmpfs /run tmpfs\n";
    assert_eq!(disk_device_for(Some(text), "/data"), "nvme0n2");
    assert_eq!(disk_device_for(Some(text), "/run"), "tmpfs");
    assert_eq!(disk_device_for(Some(text), "/home"), "");
    assert_eq!(disk_device_for(None, "/data"), "");
}

#[test]
fn disks_are_counted_in_sectors() {
    let text = " 259 0 nvme0n1 1 2 3 4 5 6 7 8\n 259 1 nvme0n2 10 0 200 0 30 0 400 0 0\n";
    assert_eq!(read_disk(Some(text), "nvme0n2"), Some((200, 400)));
    assert_eq!(read_disk(Some(text), "sda"), None);
    assert_eq!(read_disk(Some(text), ""), None);
    assert_eq!(read_disk(None, "nvme0n2"), None);
    assert_eq!(read_disk(Some("1 1 sda 0 0 x 0 0 0 9"), "sda"), None);
    assert_eq!(read_disk(Some("1 1 sda 0 0 1"), "sda"), None);
}

#[test]
fn networks_are_summed_without_loopback() {
    let text = "Inter-|   Receive\n face |bytes\n    lo: 9 0 0 0 0 0 0 0 9 0\n  eth0: 100 1 0 0 0 0 0 0 20 0\n  eth1:7 0 0 0 0 0 0 0 x\n  eth2: 1 2 3\n";
    assert_eq!(net_sums(text), Some((107, 20)));
    assert_eq!(net_sums(""), Some((0, 0)));
    let large = format!("a: {0} 0 0 0 0 0 0 0 0\nb: 1 0 0 0 0 0 0 0 0\n", u64::MAX);
    assert_eq!(net_sums(&large), None);
}

#[test]
fn process_lines_survive_odd_names() {
    let rest = "S 1 2 3 4 5 6 7 8 9 10 150 50 0 0 20 0 12 0";
    assert_eq!(read_stat(&format!("42 (a b) c) {rest}")), Some((150, 50, 12)));
    assert_eq!(read_stat("42 (x) S 1 2 3 4 5 6 7 8 9 10 1 2"), Some((1, 2, 0)));
    assert_eq!(read_stat("42 (x) S 1 2 3 4 5 6 7 8 9 10 1"), None);
    assert_eq!(read_stat("42 (x) S 1 2 3 4 5 6 7 8 9 10 a 2"), None);
    assert_eq!(read_stat("42 x"), None);
}

#[test]
fn processes_without_arguments_show_their_name() {
    let stat = "42 (kworker/0:1) S 1";
    assert_eq!(read_command(Some(&b"run\0me\0".to_vec()), stat), "run me");
    assert_eq!(read_command(Some(&b"".to_vec()), stat), "[kworker/0:1]");
    assert_eq!(read_command(None, stat), "[kworker/0:1]");
    assert_eq!(read_command(None, "42 x S"), "[?]");
    assert_eq!(read_command(None, "42 (a(b) S"), "[a]");
}
