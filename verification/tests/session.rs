use tpu_monitor::collect::Collected;
use tpu_monitor::device::{ChipType, DeviceInfo};
use tpu_monitor::host::HostStats;
use tpu_monitor::reading::Reading;
use tpu_monitor::session::{quits, History, Key, Session, HIST_LEN};
use tpu_monitor::sysmon::IoStats;

fn reading(x: f64) -> Reading {
    Reading::from_bits(x.to_bits())
}

fn quiet() -> Collected {
    Collected { rows: vec![], any_metrics: true, uptime_secs: reading(5.0), slice_error: reading(1.0) }
}

fn host() -> HostStats {
    HostStats {
        cpu_pct: reading(0.0),
        mem_used: 1,
        mem_total: 2,
        disk_used: 3,
        disk_total: 4,
        disk_mount: "/".to_string(),
        hostname: "h".to_string(),
    }
}

fn io() -> IoStats {
    IoStats { disk_dev: "sda".to_string(), disk_r: 1, disk_w: 2, net_rx: 3, net_tx: 4, elapsed_ns: 5 }
}

#[test]
fn the_history_keeps_the_latest_rounds() {
    let mut history = History::new();
    assert!(history.duty_values().is_empty());
    for i in 0..HIST_LEN as u64 + 10 {
        history.record(Some(reading(i as f64 + 0.9)), Some(reading(2.0 * i as f64)));
        let n = (i as usize + 1).min(HIST_LEN);
        assert_eq!(history.duty_values().len(), n);
        assert_eq!(history.hbm_values().len(), n);
    }
    assert_eq!(history.duty_values(), (10..HIST_LEN as u64 + 10).collect::<Vec<_>>());
    assert_eq!(history.hbm_values(), (10..HIST_LEN as u64 + 10).map(|i| 2 * i).collect::<Vec<_>>());
}

#[test]
fn rounds_without_measurements_count_as_zero() {
    let mut history = History::new();
    history.record(None, Some(reading(99.999)));
    assert_eq!(history.duty_values(), [0]);
    assert_eq!(history.hbm_values(), [99]);
}

#[test]
fn a_session_carries_the_machine_through_its_rounds() {
    let chip = ChipType { name: "v6e", hbm_gib: 32, devices_per_chip: 1 };
    let info = DeviceInfo { chip: Some(chip), chips: 8, cores: 8 };
    let mut session = Session::new(&info, 2);
    session.round(quiet(), Some(reading(10.0)), Some(reading(20.0)), host(), vec![], io());
    let app = session.round(quiet(), Some(reading(11.5)), None, host(), vec![], io());
    assert_eq!((app.chip.as_str(), app.chips, app.cores), ("v6e", 8, 8));
    assert!(app.multi_host);
    assert_eq!(app.duty_hist, [10, 11]);
    assert_eq!(app.hbm_hist, [20, 0]);
    assert!(app.any_metrics);
    assert_eq!(app.uptime_secs, reading(5.0));
    assert_eq!(app.slice_error, reading(1.0));
    assert_eq!(app.host.disk_total, 4);
    assert_eq!(app.io.net_tx, 4);
    assert!(!Session::new(&info, 1).round(quiet(), None, None, host(), vec![], io()).multi_host);
}

#[test]
fn three_keys_end_the_view() {
    assert!(quits(Key::Char('q'), false));
    assert!(quits(Key::Char('q'), true));
    assert!(quits(Key::Esc, false));
    assert!(quits(Key::Char('c'), true));
    assert!(!quits(Key::Char('c'), false));
    assert!(!quits(Key::Char('Q'), false));
    assert!(!quits(Key::Other, true));
}
