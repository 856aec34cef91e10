use tpu_monitor::reading::Reading;
use tpu_monitor::rows::{group_by_chip, DevRow};

fn reading(x: f64) -> Reading {
    Reading::from_bits(x.to_bits())
}

fn row(host: &str, dev: i64, chip: i64, pid: &str, figures: (f64, f64, f64), ok: bool) -> DevRow {
    DevRow {
        host: host.to_string(),
        dev,
        chip,
        pid: pid.to_string(),
        used: reading(figures.0),
        total: reading(figures.1),
        duty: reading(figures.2),
        metrics_ok: ok,
    }
}

#[test]
fn the_cores_of_a_chip_share_a_row() {
    let rows = vec![
        row("a", 0, 0, "-", (10.0, 100.0, 1.0), true),
        row("a", 1, 0, "77", (30.0, 90.0, 2.0), true),
        row("a", 2, 1, "88", (5.0, 100.0, 3.0), true),
        row("b", 0, 0, "-", (7.0, 50.0, 4.0), true),
        row("a", 3, 1, "99", (4.0, 200.0, 5.0), true),
    ];
    let chips = group_by_chip(&rows);
    assert_eq!(chips.len(), 3);
    assert_eq!((chips[0].host.as_str(), chips[0].chip, chips[0].pid.as_str()), ("a", 0, "77"));
    assert_eq!((chips[0].used, chips[0].total), (reading(30.0), reading(100.0)));
    assert_eq!(chips[0].cores, [(0, reading(1.0)), (1, reading(2.0))]);
    assert_eq!((chips[1].host.as_str(), chips[1].chip, chips[1].pid.as_str()), ("a", 1, "88"));
    assert_eq!((chips[1].used, chips[1].total), (reading(5.0), reading(200.0)));
    assert_eq!(chips[1].cores, [(2, reading(3.0)), (3, reading(5.0))]);
    assert_eq!((chips[2].host.as_str(), chips[2].chip, chips[2].pid.as_str()), ("b", 0, "-"));
    assert_eq!(chips[2].cores, [(0, reading(4.0))]);
    assert_eq!(chips.iter().map(|c| c.cores.len()).sum::<usize>(), rows.len());
    assert!(chips.iter().all(|c| c.metrics_ok));
}

#[test]
fn only_measured_memory_is_taken_in() {
    let rows = vec![
        row("a", 0, 0, "-", (0.0, 50.0, 0.0), false),
        row("a", 1, 0, "-", (9.0, 900.0, 0.0), false),
    ];
    let idle = group_by_chip(&rows);
    assert_eq!((idle[0].used, idle[0].total, idle[0].metrics_ok), (reading(0.0), reading(50.0), false));
    assert_eq!(idle[0].pid, "-");

    let mixed = vec![
        row("a", 0, 0, "-", (0.0, 50.0, 0.0), false),
        row("a", 1, 0, "-", (9.0, 40.0, 0.0), true),
    ];
    let chips = group_by_chip(&mixed);
    assert_eq!((chips[0].used, chips[0].total, chips[0].metrics_ok), (reading(9.0), reading(50.0), true));
}

#[test]
fn no_rows_make_no_chips() {
    assert!(group_by_chip(&[]).is_empty());
}
