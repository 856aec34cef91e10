use tpu_monitor::metrics::{
    device_id, fetch_metric, fetch_scalar_max, gauge_value, Attr, Fetch, GaugeValue, Measure, Metric,
    MetricReply, Step, DUTY_CYCLE, MEMORY_USAGE, SLICE_ERROR, TOTAL_MEMORY, UPTIME,
};
use tpu_monitor::reading::Reading;

fn reading(x: f64) -> Reading {
    Reading::from_bits(x.to_bits())
}

fn double(dev: i64, x: f64) -> Metric {
    Metric {
        attribute: Some(Some(Some(Attr::IntAttr(dev)))),
        measure: Some(Measure::Gauge(Some(GaugeValue::AsDouble(reading(x))))),
    }
}

fn integer(dev: i64, x: i64) -> Metric {
    Metric {
        attribute: Some(Some(Some(Attr::IntAttr(dev)))),
        measure: Some(Measure::Gauge(Some(GaugeValue::AsInt(x)))),
    }
}

fn reply(metrics: Vec<Metric>) -> MetricReply {
    MetricReply { metrics: Some(metrics) }
}

#[test]
fn gauges_are_doubles_integers_or_zero() {
    assert_eq!(gauge_value(&double(0, 12.5)), reading(12.5));
    assert_eq!(gauge_value(&integer(0, -3)), reading(-3.0));
    let measures = [
        None,
        Some(Measure::Other),
        Some(Measure::Gauge(None)),
        Some(Measure::Gauge(Some(GaugeValue::Other))),
    ];
    for measure in measures {
        assert_eq!(gauge_value(&Metric { attribute: None, measure }), reading(0.0));
    }
}

#[test]
fn devices_without_a_number_are_minus_one() {
    assert_eq!(device_id(&double(5, 1.0)), 5);
    for attribute in [None, Some(None), Some(Some(None)), Some(Some(Some(Attr::Other)))] {
        assert_eq!(device_id(&Metric { attribute, measure: None }), -1);
    }
}

#[test]
fn the_last_gauge_of_a_device_counts() {
    let map = fetch_metric(&reply(vec![double(0, 1.0), integer(1, 7), double(0, 3.0)]));
    let found: Vec<(i64, Reading)> = map.into_iter().collect();
    assert_eq!(found, [(0, reading(3.0)), (1, reading(7.0))]);
    assert!(fetch_metric(&MetricReply { metrics: None }).is_empty());
}

#[test]
fn the_largest_gauge_counts_whatever_its_device() {
    let unnumbered = Metric {
        attribute: Some(Some(Some(Attr::Other))),
        measure: Some(Measure::Gauge(Some(GaugeValue::AsInt(90)))),
    };
    assert_eq!(fetch_scalar_max(&reply(vec![double(0, 60.0), unnumbered, double(1, 7.0)])), reading(90.0));
    assert_eq!(fetch_scalar_max(&reply(vec![double(0, -1.0)])), reading(-1.0));
    assert_eq!(fetch_scalar_max(&reply(vec![integer(0, -5), double(0, -2.5), integer(0, -3)])), reading(-2.5));
    assert_eq!(fetch_scalar_max(&reply(vec![double(0, f64::NAN), double(0, -1.0), double(0, f64::NAN)])), reading(-1.0));
    assert_eq!(fetch_scalar_max(&reply(vec![double(0, f64::NAN)])), reading(0.0));
    assert_eq!(fetch_scalar_max(&reply(vec![])), reading(0.0));
    assert_eq!(fetch_scalar_max(&MetricReply { metrics: None }), reading(0.0));
}

#[test]
fn a_worker_is_asked_for_five_metrics_in_turn() {
    let mut fetch = Fetch::new();
    let mut asked = Vec::new();
    let mut value = 1.0;
    while let Some(name) = fetch.request() {
        asked.push(name);
        fetch.answer(Some(reply(vec![double(0, value)])));
        value += 1.0;
    }
    assert_eq!(asked, [MEMORY_USAGE, TOTAL_MEMORY, DUTY_CYCLE, UPTIME, SLICE_ERROR]);
    assert_eq!(MEMORY_USAGE, "tpu.runtime.hbm.memory.usage.bytes");
    assert_eq!(TOTAL_MEMORY, "tpu.runtime.hbm.memory.total.bytes");
    assert_eq!(DUTY_CYCLE, "tpu.runtime.tensorcore.dutycycle.percent");
    assert_eq!(UPTIME, "tpu.runtime.uptime.seconds.gauge");
    assert_eq!(SLICE_ERROR, "slice.error.detected.gauge");
    let usage = fetch.finish().unwrap();
    assert_eq!(usage.usage[&0], reading(1.0));
    assert_eq!(usage.total[&0], reading(2.0));
    assert_eq!(usage.duty[&0], reading(3.0));
    assert_eq!(usage.uptime_secs, reading(4.0));
    assert_eq!(usage.slice_error, reading(5.0));
}

#[test]
fn the_first_three_answers_are_needed() {
    for failing in 0..5 {
        let mut fetch = Fetch::new();
        let mut asked = 0;
        while fetch.request().is_some() {
            if asked == failing {
                fetch.answer(None);
            } else {
                fetch.answer(Some(reply(vec![double(2, 9.0)])));
            }
            asked += 1;
        }
        if failing < 3 {
            assert_eq!(asked, failing + 1);
            assert_eq!(fetch.step, Step::Failed);
            assert!(fetch.finish().is_none());
        } else {
            assert_eq!(asked, 5);
            let usage = fetch.finish().unwrap();
            assert_eq!(usage.uptime_secs, reading(if failing == 3 { 0.0 } else { 9.0 }));
            assert_eq!(usage.slice_error, reading(if failing == 4 { 0.0 } else { 9.0 }));
        }
    }
}

#[test]
fn a_sampling_that_is_not_done_gives_nothing() {
    assert!(Fetch::new().finish().is_none());
}
