use std::collections::BTreeMap;

use tpu_monitor::collect::{chip_label, collect_rows, measured};
use tpu_monitor::device::{ChipType, DeviceInfo};
use tpu_monitor::metrics::Usage;
use tpu_monitor::reading::Reading;
use tpu_monitor::rows::group_by_chip;

const GIB: f64 = 1024.0 * 1024.0 * 1024.0;

fn reading(x: f64) -> Reading {
    Reading::from_bits(x.to_bits())
}

fn info(cores: usize) -> DeviceInfo {
    let chip = ChipType { name: "7x", hbm_gib: 192, devices_per_chip: 2 };
    DeviceInfo { chip: Some(chip), chips: cores / 2, cores }
}

fn values(list: &[(i64, f64)]) -> BTreeMap<i64, Reading> {
    list.iter().map(|(d, x)| (*d, reading(*x))).collect()
}

fn usage(n: i64, uptime: f64, fault: f64) -> Usage {
    let of = |k: f64| (0..n).map(|d| (d, reading(d as f64 + k))).collect();
    Usage {
        usage: of(0.5),
        total: of(100.0),
        duty: of(10.0),
        uptime_secs: reading(uptime),
        slice_error: reading(fault),
    }
}

fn addrs(list: &[&str]) -> Vec<String> {
    list.iter().map(|s| s.to_string()).collect()
}

#[test]
fn a_silent_machine_shows_its_data_sheet() {
    let owners: BTreeMap<i64, i32> = [(1, 4242)].into_iter().collect();
    let found = collect_rows(&addrs(&["http://localhost:8431"]), &info(3), &owners, &[None]);
    assert!(!found.any_metrics);
    assert_eq!(found.uptime_secs, reading(0.0));
    assert_eq!(found.slice_error, reading(0.0));
    assert_eq!(found.rows.len(), 3);
    for (i, row) in found.rows.iter().enumerate() {
        assert_eq!(row.host, "localhost:8431");
        assert_eq!(row.dev, i as i64);
        assert_eq!(row.chip, i as i64 / 2);
        assert_eq!(row.pid, if i == 1 { "4242" } else { "-" });
        assert_eq!(row.used, reading(0.0));
        assert_eq!(row.total, reading(192.0 * GIB));
        assert_eq!(row.duty, reading(0.0));
        assert!(!row.metrics_ok);
    }
    assert_eq!(group_by_chip(&found.rows).len(), 2);
}

#[test]
fn workers_fill_their_rows() {
    let owners: BTreeMap<i64, i32> = [(0, 7), (2, -8)].into_iter().collect();
    let hosts = addrs(&["http://a:1", "https://b:2", "http://c:3"]);
    let reports = [Some(usage(4, 60.0, 0.0)), Some(usage(1, 90.0, 2.0)), None];
    let found = collect_rows(&hosts, &info(2), &owners, &reports);
    assert!(found.any_metrics);
    assert_eq!(found.uptime_secs, reading(90.0));
    assert_eq!(found.slice_error, reading(2.0));
    let shown: Vec<(String, i64, String)> =
        found.rows.iter().map(|r| (r.host.clone(), r.dev, r.pid.clone())).collect();
    let wanted = [("a:1", 0, "7"), ("a:1", 1, "-"), ("a:1", 2, "-8"), ("a:1", 3, "-"), ("b:2", 0, "-")];
    assert_eq!(shown, wanted.map(|(h, d, p)| (h.to_string(), d, p.to_string())));
    assert_eq!(found.rows[3].used, reading(3.5));
    assert_eq!(found.rows[3].total, reading(103.0));
    assert_eq!(found.rows[3].duty, reading(13.0));
    assert!(found.rows.iter().all(|r| r.metrics_ok));
}

#[test]
fn values_that_were_not_reported_are_zero() {
    let report = Usage {
        usage: values(&[(0, 5.0)]),
        total: values(&[]),
        duty: values(&[(1, 50.0)]),
        uptime_secs: reading(1.0),
        slice_error: reading(0.0),
    };
    let found = collect_rows(&addrs(&["http://a"]), &info(2), &BTreeMap::new(), &[Some(report)]);
    assert_eq!(found.rows.len(), 2);
    assert_eq!(found.rows[0].used, reading(5.0));
    assert_eq!(found.rows[0].total, reading(0.0));
    assert_eq!(found.rows[0].duty, reading(0.0));
    assert_eq!(found.rows[1].used, reading(0.0));
    assert_eq!(found.rows[1].duty, reading(50.0));
}

#[test]
fn unknown_chips_have_one_core_and_no_memory() {
    let none = DeviceInfo { chip: None, chips: 0, cores: 0 };
    assert_eq!(chip_label(&none), ("unknown".to_string(), 0, 0));
    assert_eq!(chip_label(&info(4)), ("7x".to_string(), 2, 4));
    let found = collect_rows(&addrs(&["http://a"]), &none, &BTreeMap::new(), &[None]);
    assert!(found.rows.is_empty());
    let remote = collect_rows(&addrs(&["http://a"]), &none, &BTreeMap::new(), &[Some(usage(2, 0.0, 0.0))]);
    assert_eq!(remote.rows.iter().map(|r| r.chip).collect::<Vec<_>>(), [0, 1]);
}

#[test]
fn only_measured_rows_are_averaged() {
    let hosts = addrs(&["http://a:1", "http://b:2"]);
    let silent = collect_rows(&hosts, &info(2), &BTreeMap::new(), &[None, Some(usage(2, 1.0, 0.0))]);
    assert_eq!(silent.rows.len(), 4);
    assert_eq!(measured(&silent.rows), [2, 3]);
    assert!(measured(&[]).is_empty());
}
