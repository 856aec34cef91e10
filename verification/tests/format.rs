use tpu_monitor::format::{
    bar, bar_blocks, ratio_color, fmt_gib, fmt_mem, fmt_minutes, fmt_short_uptime, fmt_time, fmt_uptime, util_color, Tint,
};
use tpu_monitor::reading::Reading;

fn reading(x: f64) -> Reading {
    Reading::from_bits(x.to_bits())
}

#[test]
fn uptimes_are_shown_in_two_units() {
    assert_eq!(fmt_uptime(reading(0.0)), "0m0s");
    assert_eq!(fmt_uptime(reading(59.9)), "0m59s");
    assert_eq!(fmt_uptime(reading(3599.0)), "59m59s");
    assert_eq!(fmt_uptime(reading(3600.0)), "1h0m");
    assert_eq!(fmt_uptime(reading(90061.0)), "25h1m");
    assert_eq!(fmt_uptime(reading(-5.0)), "0m0s");
    assert_eq!(fmt_uptime(reading(f64::NAN)), "0m0s");
}

#[test]
fn snapshot_uptimes_leave_seconds_out() {
    assert_eq!(fmt_short_uptime(reading(59.0)), "0m");
    assert_eq!(fmt_short_uptime(reading(3599.0)), "59m");
    assert_eq!(fmt_short_uptime(reading(3600.0)), "1h0m");
    assert_eq!(fmt_short_uptime(reading(7325.0)), "2h2m");
}

#[test]
fn cpu_times_are_shown_as_clocks() {
    assert_eq!(fmt_time(5), "0:05");
    assert_eq!(fmt_time(65), "1:05");
    assert_eq!(fmt_time(3600), "1:00:00");
    assert_eq!(fmt_time(36061), "10:01:01");
    assert_eq!(fmt_minutes(5), "0:05");
    assert_eq!(fmt_minutes(3661), "61:01");
}

#[test]
fn memory_is_shown_as_doubles_would_be() {
    let mut n: u64 = 3;
    for _ in 0..500 {
        for kb in [n, n >> 13, n >> 30, n >> 40, n >> 45] {
            let mb = kb as f64 / 1024.0;
            let wanted = if mb >= 1024.0 {
                format!("{:.1}G", mb / 1024.0)
            } else {
                format!("{:.0}M", mb)
            };
            assert_eq!(fmt_mem(kb), wanted, "{kb}");
            let gib = kb as f64 / (1024.0 * 1024.0 * 1024.0);
            assert_eq!(fmt_gib(kb), format!("{gib:.0}"), "{kb}");
        }
        n = n.wrapping_mul(6364136223846793005).wrapping_add(1442695040888963407);
    }
}

#[test]
fn memory_halves_go_to_the_even_neighbour() {
    assert_eq!(fmt_mem(0), "0M");
    assert_eq!(fmt_mem(512), "0M");
    assert_eq!(fmt_mem(1536), "2M");
    assert_eq!(fmt_mem(1048575), "1024M");
    assert_eq!(fmt_mem(1048576), "1.0G");
    assert_eq!(fmt_mem(1310720), "1.2G");
    assert_eq!(fmt_mem(1835008), "1.8G");
    assert_eq!(fmt_gib(536870912), "0");
    assert_eq!(fmt_gib(1610612736), "2");
    assert_eq!(fmt_gib(u64::MAX), "17179869184");
}

#[test]
fn bars_have_their_width() {
    assert_eq!(bar(0, 8), "░░░░░░░░");
    assert_eq!(bar(3, 8), "███░░░░░");
    assert_eq!(bar(8, 8), "████████");
    assert_eq!(bar(20, 8), "████████");
    assert_eq!(bar(1, 0), "");
}

#[test]
fn loads_have_their_colours() {
    assert_eq!(util_color(reading(0.0)), Tint::Green);
    assert_eq!(util_color(reading(39.999)), Tint::Green);
    assert_eq!(util_color(reading(40.0)), Tint::Yellow);
    assert_eq!(util_color(reading(74.999)), Tint::Yellow);
    assert_eq!(util_color(reading(75.0)), Tint::Red);
    assert_eq!(util_color(reading(f64::NAN)), Tint::Red);
    assert_eq!(Tint::Green.rgb(), Some((0x9e, 0xce, 0x6a)));
    assert_eq!(Tint::Accent.rgb(), Some((0x7a, 0xa2, 0xf7)));
    assert_eq!(Tint::Gray.rgb(), None);
}

fn neighbours(x: f64) -> Vec<f64> {
    let bits = x.to_bits();
    (0..200).flat_map(|d| [f64::from_bits(bits + d), f64::from_bits(bits - d)]).collect()
}

#[test]
fn blocks_are_filled_as_doubles_would_be() {
    let mut samples = vec![0.0, -0.0, -5.0, 1e300, f64::INFINITY, f64::NEG_INFINITY, f64::NAN, 5e-324];
    for k in 1..=8 {
        samples.extend(neighbours(6.25 * (2 * k - 1) as f64));
        samples.extend(neighbours(12.5 * k as f64));
    }
    samples.extend((0..4000).map(|i| i as f64 * 0.037));
    for pct in samples {
        let wanted = (((pct / 100.0).clamp(0.0, 1.0) * 8.0).round() as usize).min(8);
        assert_eq!(bar_blocks(reading(pct)), wanted, "{pct}");
    }
}

#[test]
fn ratios_have_the_colour_of_their_hundredfold() {
    let mut samples = vec![0.0, 1.0, f64::NAN, 0.2, 0.9];
    samples.extend(neighbours(0.4));
    samples.extend(neighbours(0.75));
    samples.extend((0..2000).map(|i| i as f64 / 2000.0));
    for ratio in samples {
        assert_eq!(ratio_color(reading(ratio)), util_color(reading(ratio * 100.0)), "{ratio}");
    }
}

#[test]
fn bars_grow_with_the_percentage() {
    let mut before = 0;
    for i in -100..2000 {
        let blocks = bar_blocks(reading(i as f64 / 10.0));
        assert!(before <= blocks && blocks <= 8);
        before = blocks;
        let text = bar(blocks, 8);
        assert_eq!(text, "█".repeat(blocks) + &"░".repeat(8 - blocks));
    }
    assert_eq!(bar_blocks(reading(0.0)), 0);
    assert_eq!(bar_blocks(reading(-0.0)), 0);
    assert_eq!(bar_blocks(reading(f64::NAN)), 0);
    assert_eq!(bar_blocks(reading(100.0)), 8);
    assert_eq!(bar_blocks(reading(f64::INFINITY)), 8);
}
