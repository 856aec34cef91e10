//! What the TPU runtime's metric service reports.
use std::collections::BTreeMap;

use vstd::prelude::*;

use crate::reading::{lemma_zero, whole_reading, Reading};

verus! {

/// Memory in use, in bytes, for each device.
pub const MEMORY_USAGE: &'static str = "tpu.runtime.hbm.memory.usage.bytes";

/// Memory there is, in bytes, for each device.
pub const TOTAL_MEMORY: &'static str = "tpu.runtime.hbm.memory.total.bytes";

/// How busy each device is, in percent.
pub const DUTY_CYCLE: &'static str = "tpu.runtime.tensorcore.dutycycle.percent";

/// How long the runtime has been up, in seconds.
pub const UPTIME: &'static str = "tpu.runtime.uptime.seconds.gauge";

/// Whether a fault of the slice was detected.
pub const SLICE_ERROR: &'static str = "slice.error.detected.gauge";

/// The value of a gauge.
#[derive(Clone, Copy, Debug)]
pub enum GaugeValue {
    AsDouble(Reading),
    AsInt(i64),
    /// A value that is not a number.
    Other,
}

/// What a metric measured.
#[derive(Clone, Copy, Debug)]
pub enum Measure {
    /// A gauge, whose value may be missing.
    Gauge(Option<GaugeValue>),
    /// A counter, a distribution or a summary.
    Other,
}

/// The value of an attribute.
#[derive(Clone, Copy, Debug)]
pub enum Attr {
    IntAttr(i64),
    /// A value that is not an integer.
    Other,
}

/// One measurement.
#[derive(Clone, Copy, Debug)]
pub struct Metric {
    /// The attribute, its value and what the value holds; each may be missing.
    pub attribute: Option<Option<Option<Attr>>>,
    pub measure: Option<Measure>,
}

/// The answer to a request for one metric: its measurements, where there are any.
pub struct MetricReply {
    pub metrics: Option<Vec<Metric>>,
}

/// One sample of a worker.
pub struct Usage {
    /// Memory in use, in bytes, by device number.
    pub usage: BTreeMap<i64, Reading>,
    /// Memory there is, in bytes, by device number.
    pub total: BTreeMap<i64, Reading>,
    /// How busy a device is, in percent, by device number.
    pub duty: BTreeMap<i64, Reading>,
    /// How long the runtime has been up, in seconds.
    pub uptime_secs: Reading,
    /// Not zero where the slice has a fault.
    pub slice_error: Reading,
}

/// The contents of a sample.
pub struct UsageView {
    pub usage: Map<i64, Reading>,
    pub total: Map<i64, Reading>,
    pub duty: Map<i64, Reading>,
    pub uptime_secs: Reading,
    pub slice_error: Reading,
}

impl View for Usage {
    type V = UsageView;

    open spec fn view(&self) -> UsageView {
        UsageView {
            usage: self.usage@,
            total: self.total@,
            duty: self.duty@,
            uptime_secs: self.uptime_secs,
            slice_error: self.slice_error,
        }
    }
}

/// What the sampling of a worker asks for next.
#[derive(Clone, Copy, PartialEq, Eq, Structural, Debug)]
pub enum Step {
    Usage,
    Total,
    Duty,
    Uptime,
    SliceError,
    /// Everything has been asked for.
    Done,
    /// A request failed that the sample cannot do without.
    Failed,
}

/// The sampling of a worker, one request after another.
pub struct Fetch {
    pub step: Step,
    pub sample: Usage,
}

/// The value of a measurement's gauge, zero where it has none.
pub open spec fn gauge_of(m: Metric) -> Reading {
    match m.measure {
        Some(Measure::Gauge(Some(GaugeValue::AsDouble(d)))) => d,
        Some(Measure::Gauge(Some(GaugeValue::AsInt(i)))) => whole_reading(i as int),
        _ => whole_reading(0),
    }
}

/// The device number of a measurement, -1 where it has none.
pub open spec fn device_number(m: Metric) -> i64 {
    match m.attribute {
        Some(Some(Some(Attr::IntAttr(i)))) => i,
        _ => (-1) as i64,
    }
}

/// The gauge of each device, the last one where several measurements name a device.
pub open spec fn gauges(metrics: Seq<Metric>) -> Map<i64, Reading>
    decreases metrics.len(),
{
    if metrics.len() == 0 {
        Map::empty()
    } else {
        gauges(metrics.drop_last()).insert(device_number(metrics.last()), gauge_of(metrics.last()))
    }
}

/// The larger of a reading, if there is one yet, and a gauge, if it is a number.
pub open spec fn taken_in(best: Option<Reading>, gauge: Reading) -> Option<Reading> {
    if gauge.is_nan() {
        best
    } else {
        match best {
            Some(b) => Some(b.larger(gauge)),
            None => Some(gauge),
        }
    }
}

/// The largest gauge of all measurements, whatever devices they are of; nothing where no
/// gauge is a number.
pub open spec fn largest_gauge(metrics: Seq<Metric>) -> Option<Reading>
    decreases metrics.len(),
{
    if metrics.len() == 0 {
        None
    } else {
        taken_in(largest_gauge(metrics.drop_last()), gauge_of(metrics.last()))
    }
}

/// The largest gauge of all measurements, zero where there is none.
pub open spec fn peak(metrics: Seq<Metric>) -> Reading {
    match largest_gauge(metrics) {
        Some(v) => v,
        None => whole_reading(0),
    }
}

impl MetricReply {
    /// The measurements.
    pub open spec fn items(self) -> Seq<Metric> {
        match self.metrics {
            Some(list) => list@,
            None => Seq::empty(),
        }
    }
}

/// The metric that a step asks for.
pub open spec fn metric_name(step: Step) -> Option<Seq<char>> {
    match step {
        Step::Usage => Some(MEMORY_USAGE@),
        Step::Total => Some(TOTAL_MEMORY@),
        Step::Duty => Some(DUTY_CYCLE@),
        Step::Uptime => Some(UPTIME@),
        Step::SliceError => Some(SLICE_ERROR@),
        Step::Done | Step::Failed => None,
    }
}

/// The sample before anything has been asked for.
pub open spec fn no_sample() -> UsageView {
    UsageView {
        usage: Map::empty(),
        total: Map::empty(),
        duty: Map::empty(),
        uptime_secs: whole_reading(0),
        slice_error: whole_reading(0),
    }
}

/// The step and the sample after the answer to a request, which is missing where the
/// request failed. The uptime and the slice's fault count as zero where theirs failed.
pub open spec fn answered(step: Step, sample: UsageView, answer: Option<Seq<Metric>>) -> (
    Step,
    UsageView,
) {
    match (step, answer) {
        (Step::Usage, Some(m)) => (Step::Total, UsageView { usage: gauges(m), ..sample }),
        (Step::Total, Some(m)) => (Step::Duty, UsageView { total: gauges(m), ..sample }),
        (Step::Duty, Some(m)) => (Step::Uptime, UsageView { duty: gauges(m), ..sample }),
        (Step::Uptime, Some(m)) => (Step::SliceError, UsageView { uptime_secs: peak(m), ..sample }),
        (Step::Uptime, None) => (Step::SliceError, sample),
        (Step::SliceError, Some(m)) => (Step::Done, UsageView { slice_error: peak(m), ..sample }),
        (Step::SliceError, None) => (Step::Done, sample),
        (Step::Done, _) => (Step::Done, sample),
        _ => (Step::Failed, sample),
    }
}

/// The measurements of an answer that may be missing.
pub open spec fn reply_items(reply: Option<MetricReply>) -> Option<Seq<Metric>> {
    match reply {
        Some(r) => Some(r.items()),
        None => None,
    }
}

/// The value of a measurement's gauge, zero where it has none.
pub fn gauge_value(m: &Metric) -> (r: Reading)
    ensures
        r == gauge_of(*m),
{
    match m.measure {
        Some(Measure::Gauge(Some(GaugeValue::AsDouble(d)))) => d,
        Some(Measure::Gauge(Some(GaugeValue::AsInt(i)))) => Reading::from_int(i),
        _ => Reading::from_count(0),
    }
}

/// The device number of a measurement, -1 where it has none.
pub fn device_id(m: &Metric) -> (r: i64)
    ensures
        r == device_number(*m),
{
    match m.attribute {
        Some(Some(Some(Attr::IntAttr(i)))) => i,
        _ => -1,
    }
}

/// The gauge of each device in an answer.
pub fn fetch_metric(reply: &MetricReply) -> (r: BTreeMap<i64, Reading>)
    ensures
        r@ == gauges(reply.items()),
{
    let mut out: BTreeMap<i64, Reading> = BTreeMap::new();
    if let Some(list) = &reply.metrics {
        let mut i: usize = 0;
        while i < list.len()
            invariant
                i <= list.len(),
                out@ == gauges(list@.take(i as int)),
            decreases list.len() - i,
        {
            assert(list@.take(i + 1).drop_last() =~= list@.take(i as int));
            out.insert(device_id(&list[i]), gauge_value(&list[i]));
            i = i + 1;
        }
        assert(list@.take(list.len() as int) =~= list@);
    }
    out
}

/// The largest gauge in an answer, whatever device it is of; zero where there is none.
pub fn fetch_scalar_max(reply: &MetricReply) -> (r: Reading)
    ensures
        r == peak(reply.items()),
{
    let mut best: Option<Reading> = None;
    if let Some(list) = &reply.metrics {
        let mut i: usize = 0;
        while i < list.len()
            invariant
                i <= list.len(),
                best == largest_gauge(list@.take(i as int)),
            decreases list.len() - i,
        {
            assert(list@.take(i + 1).drop_last() =~= list@.take(i as int));
            let gauge = gauge_value(&list[i]);
            if !gauge.not_a_number() {
                best = match best {
                    Some(b) => Some(b.max(gauge)),
                    None => Some(gauge),
                };
            }
            i = i + 1;
        }
        assert(list@.take(list.len() as int) =~= list@);
    }
    match best {
        Some(v) => v,
        None => Reading::from_count(0),
    }
}

impl Fetch {
    /// A sampling that has asked for nothing yet.
    pub fn new() -> (r: Fetch)
        ensures
            r.step == Step::Usage,
            r.sample@ == no_sample(),
    {
        Fetch {
            step: Step::Usage,
            sample: Usage {
                usage: BTreeMap::new(),
                total: BTreeMap::new(),
                duty: BTreeMap::new(),
                uptime_secs: Reading::from_count(0),
                slice_error: Reading::from_count(0),
            },
        }
    }

    /// The metric to ask for next, if any.
    pub fn request(&self) -> (r: Option<&'static str>)
        ensures
            match r {
                Some(name) => metric_name(self.step) == Some(name@),
                None => metric_name(self.step) is None,
            },
    {
        match self.step {
            Step::Usage => Some(MEMORY_USAGE),
            Step::Total => Some(TOTAL_MEMORY),
            Step::Duty => Some(DUTY_CYCLE),
            Step::Uptime => Some(UPTIME),
            Step::SliceError => Some(SLICE_ERROR),
            Step::Done | Step::Failed => None,
        }
    }

    /// Takes the answer to the last request; it is missing where the request failed.
    pub fn answer(&mut self, reply: Option<MetricReply>)
        ensures
            (final(self).step, final(self).sample@) == answered(
                old(self).step,
                old(self).sample@,
                reply_items(reply),
            ),
    {
        match (self.step, reply) {
            (Step::Usage, Some(r)) => {
                self.sample.usage = fetch_metric(&r);
                self.step = Step::Total;
            },
            (Step::Total, Some(r)) => {
                self.sample.total = fetch_metric(&r);
                self.step = Step::Duty;
            },
            (Step::Duty, Some(r)) => {
                self.sample.duty = fetch_metric(&r);
                self.step = Step::Uptime;
            },
            (Step::Uptime, Some(r)) => {
                self.sample.uptime_secs = fetch_scalar_max(&r);
                self.step = Step::SliceError;
            },
            (Step::Uptime, None) => {
                self.step = Step::SliceError;
            },
            (Step::SliceError, Some(r)) => {
                self.sample.slice_error = fetch_scalar_max(&r);
                self.step = Step::Done;
            },
            (Step::SliceError, None) => {
                self.step = Step::Done;
            },
            (Step::Done, _) => {},
            _ => {
                self.step = Step::Failed;
            },
        }
    }

    /// The sample, once everything has been asked for.
    pub fn finish(self) -> (r: Option<Usage>)
        ensures
            r == if self.step == Step::Done {
                Some(self.sample)
            } else {
                None
            },
    {
        match self.step {
            Step::Done => Some(self.sample),
            _ => None,
        }
    }
}

/// A sample comes about exactly if the requests for the memory in use, the memory there
/// is and the duty cycle all succeed; the two others count as zero where theirs fail.
pub proof fn law_sample_needs_three_answers(
    usage: Option<Seq<Metric>>,
    total: Option<Seq<Metric>>,
    duty: Option<Seq<Metric>>,
    uptime: Option<Seq<Metric>>,
    slice_error: Option<Seq<Metric>>,
)
    ensures
        ({
            let a = answered(Step::Usage, no_sample(), usage);
            let b = answered(a.0, a.1, total);
            let c = answered(b.0, b.1, duty);
            let d = answered(c.0, c.1, uptime);
            let e = answered(d.0, d.1, slice_error);
            match (usage, total, duty) {
                (Some(u), Some(t), Some(y)) => e == (
                    Step::Done,
                    UsageView {
                        usage: gauges(u),
                        total: gauges(t),
                        duty: gauges(y),
                        uptime_secs: match uptime {
                            Some(m) => peak(m),
                            None => whole_reading(0),
                        },
                        slice_error: match slice_error {
                            Some(m) => peak(m),
                            None => whole_reading(0),
                        },
                    },
                ),
                _ => e.0 == Step::Failed && metric_name(e.0) is None,
            }
        }),
{
}

/// The peak is one of the gauges and no gauge lies above it, whatever devices they are of
/// and whether they are above zero or not; it is zero only where no gauge is a number.
pub proof fn law_peak_is_largest(metrics: Seq<Metric>)
    ensures
        !peak(metrics).is_nan(),
        forall|i: int|
            0 <= i < metrics.len() ==> !peak(metrics).is_below(gauge_of(#[trigger] metrics[i])),
        if exists|i: int| 0 <= i < metrics.len() && !gauge_of(#[trigger] metrics[i]).is_nan() {
            exists|i: int| 0 <= i < metrics.len() && peak(metrics) == gauge_of(#[trigger] metrics[i])
        } else {
            peak(metrics) == whole_reading(0)
        },
{
    lemma_zero();
    lemma_largest_gauge(metrics);
}

proof fn lemma_largest_gauge(metrics: Seq<Metric>)
    ensures
        match largest_gauge(metrics) {
            Some(v) => {
                &&& !v.is_nan()
                &&& forall|i: int|
                    0 <= i < metrics.len() ==> !v.is_below(gauge_of(#[trigger] metrics[i]))
                &&& exists|i: int| 0 <= i < metrics.len() && v == gauge_of(#[trigger] metrics[i])
            },
            None => forall|i: int|
                0 <= i < metrics.len() ==> gauge_of(#[trigger] metrics[i]).is_nan(),
        },
    decreases metrics.len(),
{
    if metrics.len() > 0 {
        let rest = metrics.drop_last();
        let n = metrics.len() - 1;
        lemma_largest_gauge(rest);
        assert forall|i: int| 0 <= i < n implies rest[i] == #[trigger] metrics[i] by {}
        if let Some(before) = largest_gauge(rest) {
            let k = choose|k: int| 0 <= k < rest.len() && before == gauge_of(#[trigger] rest[k]);
            assert(metrics[k] == rest[k]);
        }
        if largest_gauge(metrics) != largest_gauge(rest) {
            assert(largest_gauge(metrics)->0 == gauge_of(metrics[n]));
        }
    }
}

/// The gauges are of the devices that the measurements name, and each is the gauge of
/// one of its device's measurements.
pub proof fn law_gauges_by_device(metrics: Seq<Metric>, dev: i64)
    ensures
        gauges(metrics).contains_key(dev) <==> exists|i: int|
            0 <= i < metrics.len() && device_number(#[trigger] metrics[i]) == dev,
        gauges(metrics).contains_key(dev) ==> exists|i: int|
            0 <= i < metrics.len() && device_number(#[trigger] metrics[i]) == dev
                && gauges(metrics)[dev] == gauge_of(metrics[i]) && forall|j: int|
                i < j < metrics.len() ==> device_number(#[trigger] metrics[j]) != dev,
    decreases metrics.len(),
{
    if metrics.len() > 0 {
        let rest = metrics.drop_last();
        let n = metrics.len() - 1;
        law_gauges_by_device(rest, dev);
        assert forall|i: int| 0 <= i < n implies rest[i] == #[trigger] metrics[i] by {}
        if device_number(metrics[n]) == dev {
            assert(gauges(metrics)[dev] == gauge_of(metrics[n]));
        } else if gauges(rest).contains_key(dev) {
            let i = choose|i: int|
                0 <= i < rest.len() && device_number(#[trigger] rest[i]) == dev
                    && gauges(rest)[dev] == gauge_of(rest[i]) && forall|j: int|
                    i < j < rest.len() ==> device_number(#[trigger] rest[j]) != dev;
            assert(metrics[i] == rest[i]);
            assert forall|j: int| i < j < metrics.len() implies device_number(
                #[trigger] metrics[j],
            ) != dev by {
                if j < n {
                    assert(metrics[j] == rest[j]);
                }
            }
        } else {
            assert forall|i: int| 0 <= i < metrics.len() implies device_number(
                #[trigger] metrics[i],
            ) != dev by {
                if i < n {
                    assert(metrics[i] == rest[i]);
                }
            }
        }
    }
}

} // verus!
