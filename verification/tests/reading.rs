use tpu_monitor::reading::{nearest_whole, quotient, round_ratio, Reading};

const SAMPLES: [f64; 16] = [
    0.0,
    -0.0,
    1.0,
    -1.0,
    0.5,
    39.999,
    40.0,
    74.99,
    75.0,
    100.0,
    1e300,
    -1e300,
    f64::INFINITY,
    f64::NEG_INFINITY,
    f64::MIN_POSITIVE,
    5e-324,
];

fn reading(x: f64) -> Reading {
    Reading::from_bits(x.to_bits())
}

fn value(r: Reading) -> f64 {
    f64::from_bits(r.bits)
}

#[test]
fn order_agrees_with_doubles() {
    for a in SAMPLES {
        for b in SAMPLES {
            assert_eq!(reading(a).below(reading(b)), a < b, "{a} {b}");
            assert_eq!(value(reading(a).max(reading(b))), a.max(b), "{a} {b}");
            assert_eq!(value(reading(a).min(reading(b))), a.min(b), "{a} {b}");
        }
        assert_eq!(value(reading(a).clamp(reading(0.0), reading(1.0))), a.clamp(0.0, 1.0));
        assert_eq!(reading(a).zero(), a == 0.0);
        assert_eq!(reading(a).trunc(), a as u64);
        assert!(!reading(a).not_a_number());
    }
}

#[test]
fn what_is_not_a_number_gives_way() {
    let nan = reading(f64::NAN);
    assert!(nan.not_a_number());
    assert!(!nan.below(reading(1.0)));
    assert!(!reading(1.0).below(nan));
    assert_eq!(nan.max(reading(1.0)), reading(1.0));
    assert_eq!(reading(1.0).max(nan), reading(1.0));
    assert_eq!(nan.min(reading(1.0)), reading(1.0));
    assert_eq!(reading(1.0).min(nan), reading(1.0));
    assert_eq!(nan.trunc(), 0);
    assert!(!nan.zero());
    assert!(nan.clamp(reading(0.0), reading(1.0)).not_a_number());
}

#[test]
fn whole_numbers_become_the_nearest_doubles() {
    let mut n: u64 = 1;
    for k in 0..64 {
        for d in [0u64, 1, 2, 3] {
            for m in [n.wrapping_add(d), n.wrapping_sub(d), n | (n >> 3) | d] {
                assert_eq!(Reading::from_count(m).bits, (m as f64).to_bits(), "{k} {m}");
                assert_eq!(nearest_whole(m), m as f64 as u128);
                assert_eq!(Reading::from_count(m).trunc(), m as f64 as u64);
                let i = m as i64;
                assert_eq!(Reading::from_int(i).bits, (i as f64).to_bits(), "{k} {i}");
            }
        }
        n = n.wrapping_mul(2);
    }
    assert_eq!(Reading::from_int(i64::MIN).bits, (i64::MIN as f64).to_bits());
    assert_eq!(Reading::from_count(u64::MAX).trunc(), u64::MAX);
}

#[test]
fn quotients_agree_with_doubles() {
    let mut n: u64 = 7;
    for _ in 0..400 {
        assert_eq!(quotient(n, 100), (n as f64 / 100.0) as u64, "{n}");
        assert_eq!(quotient(n >> 20, 100), ((n >> 20) as f64 / 100.0) as u64);
        assert_eq!(quotient(n, 7), (n as f64 / 7.0) as u64);
        n = n.wrapping_mul(6364136223846793005).wrapping_add(1442695040888963407);
    }
    for n in [0, 1, 99, 100, 101, 12345, u64::MAX, u64::MAX - 1, 1 << 53] {
        assert_eq!(quotient(n, 100), (n as f64 / 100.0) as u64, "{n}");
    }
}

#[test]
fn small_quotients_are_those_of_whole_numbers() {
    for n in [0, 1, 99, 100, 199, 4503599627370495, 4503599627370496] {
        assert_eq!(quotient(n, 100), n / 100);
    }
}

#[test]
fn rounding_goes_to_the_even_neighbour() {
    assert_eq!(round_ratio(5, 2), 2);
    assert_eq!(round_ratio(7, 2), 4);
    assert_eq!(round_ratio(8, 3), 3);
    assert_eq!(round_ratio(7, 3), 2);
    assert_eq!(round_ratio(0, 9), 0);
}
