//! Laws of what the workers report.
use vstd::prelude::*;

use crate::metrics::{
    answered, device_number, gauge_of, gauges, metric_name, no_sample, peak, Attr, GaugeValue,
    Measure, Metric, Step, UsageView,
};
use crate::reading::{
    law_small_counts_are_exact, law_whole_reading_truncates, nearest, whole_reading, Reading,
};

verus! {

/// A measurement of a device with an integer gauge.
pub open spec fn integer_gauge(attribute: Option<Option<Option<Attr>>>, i: i64) -> Metric {
    Metric { attribute, measure: Some(Measure::Gauge(Some(GaugeValue::AsInt(i)))) }
}

/// An integer gauge is taken at its value: a number of up to 53 bits exactly, a larger one as
/// the double nearest to it, and a negative one with its sign.
pub proof fn law_integer_gauges_keep_their_value(
    attribute: Option<Option<Option<Attr>>>,
    i: i64,
)
    ensures
        0 <= i <= 0x20_0000_0000_0000 ==> gauge_of(integer_gauge(attribute, i)).truncated() == i,
        0 <= i ==> gauge_of(integer_gauge(attribute, i)).truncated() == nearest(i as nat),
        gauge_of(integer_gauge(attribute, i)) == whole_reading(i as int),
{
    if i >= 0 {
        law_whole_reading_truncates(i as u64);
        crate::laws::reading::law_nearest_double(i as nat);
        assert(nearest(i as nat) <= u64::MAX);
        if i <= 0x20_0000_0000_0000 {
            law_small_counts_are_exact(i as u64);
        }
    }
}

/// Integer gauges of up to 53 bits are ordered as the integers are, so different ones stay
/// different.
pub proof fn law_integer_gauges_keep_their_order(
    attribute: Option<Option<Option<Attr>>>,
    other: Option<Option<Option<Attr>>>,
    i: i64,
    j: i64,
)
    requires
        -0x20_0000_0000_0000 <= i < j <= 0x20_0000_0000_0000,
    ensures
        gauge_of(integer_gauge(attribute, i)).is_below(gauge_of(integer_gauge(other, j))),
{
    crate::laws::reading::law_whole_readings_are_ordered(i as int, j as int);
}

/// A floating-point gauge is taken as it is, bit for bit; a measurement without a number
/// counts as zero.
pub proof fn law_gauges_keep_their_value(m: Metric, d: Reading)
    ensures
        m.measure == Some(Measure::Gauge(Some(GaugeValue::AsDouble(d)))) ==> gauge_of(m) == d,
        m.measure is None || m.measure == Some(Measure::Other) || m.measure == Some(
            Measure::Gauge(None),
        ) || m.measure == Some(Measure::Gauge(Some(GaugeValue::Other))) ==> gauge_of(m).bits == 0,
{
}

/// A measurement is of the device whose number its attribute holds, whatever number that is,
/// and of device -1 where it holds none.
pub proof fn law_devices_keep_their_number(m: Metric, i: i64)
    ensures
        m.attribute == Some(Some(Some(Attr::IntAttr(i)))) ==> device_number(m) == i,
        m.attribute is None || m.attribute == Some(None::<Option<Attr>>) || m.attribute == Some(
            Some(None::<Attr>),
        ) || m.attribute == Some(Some(Some(Attr::Other))) ==> device_number(m) == -1,
{
}

/// One more measurement sets the gauge of its device and leaves those of the others.
pub proof fn law_measurements_set_their_device(
    metrics: Seq<Metric>,
    measure: Option<Measure>,
    dev: i64,
    other: i64,
)
    ensures
        ({
            let m = Metric { attribute: Some(Some(Some(Attr::IntAttr(dev)))), measure };
            let after = gauges(metrics.push(m));
            &&& after.contains_key(dev) && after[dev] == gauge_of(m)
            &&& other != dev ==> (after.contains_key(other) <==> gauges(metrics).contains_key(other))
            &&& other != dev && after.contains_key(other) ==> after[other] == gauges(metrics)[other]
            &&& !gauges(Seq::empty()).contains_key(other)
        }),
{
    let m = Metric { attribute: Some(Some(Some(Attr::IntAttr(dev)))), measure };
    assert(metrics.push(m).drop_last() =~= metrics);
}

/// The gauge that is listed for a device is the whole number that was measured last.
pub proof fn law_listed_gauges_are_the_numbers(metrics: Seq<Metric>, dev: i64, i: i64)
    requires
        0 <= i <= 0x20_0000_0000_0000,
    ensures
        gauges(
            metrics.push(integer_gauge(Some(Some(Some(Attr::IntAttr(dev)))), i)),
        )[dev].truncated() == i,
{
    let m = integer_gauge(Some(Some(Some(Attr::IntAttr(dev)))), i);
    law_measurements_set_their_device(metrics, m.measure, dev, dev);
    law_integer_gauges_keep_their_value(m.attribute, i);
}

/// A measurement without a device number sets that of device -1.
pub proof fn law_measurements_without_a_device(metrics: Seq<Metric>, m: Metric, other: i64)
    requires
        m.attribute is None || m.attribute == Some(None::<Option<Attr>>) || m.attribute == Some(
            Some(None::<Attr>),
        ) || m.attribute == Some(Some(Some(Attr::Other))),
    ensures
        ({
            let after = gauges(metrics.push(m));
            &&& after.contains_key((-1) as i64) && after[(-1) as i64] == gauge_of(m)
            &&& other != -1 ==> (after.contains_key(other) <==> gauges(metrics).contains_key(other))
            &&& other != -1 && after.contains_key(other) ==> after[other] == gauges(metrics)[other]
        }),
{
    assert(metrics.push(m).drop_last() =~= metrics);
}

/// The five requests are made in turn, each answer goes to the part of the sample that it
/// was asked for, and leaves the other parts.
pub proof fn law_answers_go_where_they_were_asked_for(s: UsageView, m: Seq<Metric>)
    ensures
        metric_name(Step::Usage) == Some("tpu.runtime.hbm.memory.usage.bytes"@),
        metric_name(Step::Total) == Some("tpu.runtime.hbm.memory.total.bytes"@),
        metric_name(Step::Duty) == Some("tpu.runtime.tensorcore.dutycycle.percent"@),
        metric_name(Step::Uptime) == Some("tpu.runtime.uptime.seconds.gauge"@),
        metric_name(Step::SliceError) == Some("slice.error.detected.gauge"@),
        metric_name(Step::Done) is None && metric_name(Step::Failed) is None,
        answered(Step::Usage, s, Some(m)) == (Step::Total, UsageView { usage: gauges(m), ..s }),
        answered(Step::Total, s, Some(m)) == (Step::Duty, UsageView { total: gauges(m), ..s }),
        answered(Step::Duty, s, Some(m)) == (Step::Uptime, UsageView { duty: gauges(m), ..s }),
        answered(Step::Uptime, s, Some(m)) == (
            Step::SliceError,
            UsageView { uptime_secs: peak(m), ..s },
        ),
        answered(Step::SliceError, s, Some(m)) == (
            Step::Done,
            UsageView { slice_error: peak(m), ..s },
        ),
        answered(Step::Usage, s, None).0 == Step::Failed,
        answered(Step::Total, s, None).0 == Step::Failed,
        answered(Step::Duty, s, None).0 == Step::Failed,
        answered(Step::Uptime, s, None) == (Step::SliceError, s),
        answered(Step::SliceError, s, None) == (Step::Done, s),
        answered(Step::Done, s, Some(m)) == (Step::Done, s),
        answered(Step::Done, s, None) == (Step::Done, s),
        answered(Step::Failed, s, Some(m)).0 == Step::Failed,
        answered(Step::Failed, s, None).0 == Step::Failed,
        no_sample().uptime_secs.bits == 0 && no_sample().slice_error.bits == 0,
        no_sample().usage.dom().is_empty() && no_sample().total.dom().is_empty()
            && no_sample().duty.dom().is_empty(),
{
}

/// The peak of one measurement is its gauge, and more measurements never lower it.
pub proof fn law_peaks_grow(metrics: Seq<Metric>, m: Metric)
    ensures
        !gauge_of(m).is_nan() ==> peak(seq![m]) == gauge_of(m),
        !gauge_of(m).is_nan() ==> !peak(metrics.push(m)).is_below(gauge_of(m)),
        (exists|i: int| 0 <= i < metrics.len() && !gauge_of(#[trigger] metrics[i]).is_nan())
            ==> !peak(metrics.push(m)).is_below(peak(metrics)),
        peak(Seq::empty()).bits == 0,
{
    assert(metrics.push(m).drop_last() =~= metrics);
    assert(seq![m].drop_last() =~= Seq::empty());
    crate::metrics::law_peak_is_largest(metrics);
    crate::metrics::law_peak_is_largest(metrics.push(m));
    reveal_with_fuel(crate::metrics::largest_gauge, 2);
    if !gauge_of(m).is_nan() {
        assert(metrics.push(m)[metrics.len() as int] == m);
    }
    if exists|i: int| 0 <= i < metrics.len() && !gauge_of(#[trigger] metrics[i]).is_nan() {
        let k = choose|k: int| 0 <= k < metrics.len() && peak(metrics) == gauge_of(#[trigger] metrics[k]);
        assert(metrics.push(m)[k] == metrics[k]);
    }
}

} // verus!
