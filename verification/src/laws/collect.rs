//! Laws of the rows that one round over all workers gives.
use vstd::prelude::*;

use crate::address::shown_address;
use crate::collect::{
    any_reported, fault, largest, law_largest_over_workers, machine, report_view, report_views,
    uptime, Collected, Machine,
};
use crate::device::DeviceInfo;
use crate::metrics::{Usage, UsageView};
use crate::number::signed_decimal;
use crate::reading::{law_small_counts_are_exact, law_whole_reading_truncates, lemma_zero, Reading};
use crate::rows::{row_views, DevView};
use crate::text::texts;

verus! {

/// How many cores of a host are shown: the first host is this machine, which has `cores`.
pub open spec fn cores_shown(cores: nat, h: int, report: Option<UsageView>) -> nat {
    let measured = match report {
        Some(u) => u.usage.len(),
        None => 0,
    };
    if h == 0 && cores > measured {
        cores
    } else {
        measured
    }
}

/// How many cores are shown of the first `h` hosts.
pub open spec fn shown_before(cores: nat, reports: Seq<Option<UsageView>>, h: int) -> nat
    decreases h,
{
    if h <= 0 {
        0
    } else {
        shown_before(cores, reports, h - 1) + cores_shown(cores, h - 1, reports[h - 1])
    }
}

/// Whether a figure is the one that a report has for device `dev`, zero where it has none.
pub open spec fn is_figure_of(figure: Reading, values: Map<i64, Reading>, dev: i64) -> bool {
    &&& values.contains_key(dev) ==> figure == values[dev]
    &&& !values.contains_key(dev) ==> figure.bits == 0
}

proof fn lemma_shown_before(cores: nat, p: Seq<Option<UsageView>>, q: Seq<Option<UsageView>>, h: int)
    requires
        h <= p.len() <= q.len(),
        p == q.take(p.len() as int),
    ensures
        shown_before(cores, p, h) == shown_before(cores, q, h),
    decreases h,
{
    if h > 0 {
        lemma_shown_before(cores, p, q, h - 1);
        assert(p[h - 1] == q[h - 1]);
    }
}

proof fn lemma_rows_of_host(
    m: Machine,
    addrs: Seq<Seq<char>>,
    reports: Seq<Option<UsageView>>,
    h: int,
    i: int,
)
    requires
        addrs.len() == reports.len(),
        0 <= h < addrs.len(),
        0 <= i < cores_shown(m.cores, h, reports[h]),
    ensures
        m.all_rows(addrs, reports).len() == shown_before(m.cores, reports, addrs.len() as int),
        0 <= shown_before(m.cores, reports, h) + i < m.all_rows(addrs, reports).len(),
        m.all_rows(addrs, reports)[shown_before(m.cores, reports, h) + i] == m.row(
            shown_address(addrs[h]),
            h == 0,
            reports[h],
            i,
        ),
    decreases addrs.len(),
{
    let (hosts, rest) = (addrs.drop_last(), reports.drop_last());
    let n = addrs.len() as int;
    lemma_length(m, hosts, rest);
    lemma_length(m, addrs, reports);
    lemma_shown_before(m.cores, rest, reports, n - 1);
    lemma_shown_before(m.cores, rest, reports, if h < n - 1 { h } else { n - 1 });
    assert(reports.last() == reports[n - 1]);
    if h < n - 1 {
        assert(rest[h] == reports[h] && hosts[h] == addrs[h]);
        lemma_rows_of_host(m, hosts, rest, h, i);
    }
}

proof fn lemma_length(m: Machine, addrs: Seq<Seq<char>>, reports: Seq<Option<UsageView>>)
    requires
        addrs.len() == reports.len(),
    ensures
        m.all_rows(addrs, reports).len() == shown_before(m.cores, reports, addrs.len() as int),
    decreases addrs.len(),
{
    if addrs.len() > 0 {
        lemma_length(m, addrs.drop_last(), reports.drop_last());
        lemma_shown_before(m.cores, reports.drop_last(), reports, addrs.len() - 1);
        assert(reports.last() == reports[addrs.len() - 1]);
    }
}

/// The rows of a round, host by host and core by core. Every host that reported, the first
/// or any other, shows of each core what its report has under used memory, all memory and
/// duty cycle for that core; one that did not report shows none in use, not busy, and the
/// memory of the data sheet.
pub proof fn law_rows_show_their_reports(
    found: Collected,
    addrs: Seq<String>,
    info: DeviceInfo,
    owners: Map<i64, i32>,
    reports: Seq<Option<Usage>>,
    h: int,
    i: int,
)
    requires
        addrs.len() == reports.len(),
        row_views(found.rows@) == machine(info, owners).all_rows(
            texts(addrs),
            report_views(reports),
        ),
        0 <= h < addrs.len(),
        0 <= i < cores_shown(info.cores as nat, h, report_view(reports[h])),
    ensures
        ({
            let at = shown_before(info.cores as nat, report_views(reports), h) + i;
            let row = found.rows@[at];
            let dev = i as i64;
            &&& 0 <= at < found.rows.len()
            &&& row.host@ == shown_address(addrs[h]@)
            &&& row.dev == dev
            &&& row.metrics_ok == reports[h] is Some
            &&& reports[h] matches Some(u) ==> is_figure_of(row.used, u.usage@, dev)
                && is_figure_of(row.total, u.total@, dev) && is_figure_of(row.duty, u.duty@, dev)
            &&& reports[h] is None ==> row.used.bits == 0 && row.duty.bits == 0
            &&& reports[h] is None && info.chip is None ==> row.total.bits == 0
            &&& reports[h] is None && info.chip is Some && info.chip->0.hbm_gib <= 0x80_0000
                ==> row.total.truncated() == info.chip->0.hbm_gib * 0x4000_0000
            &&& h != 0 || !owners.contains_key(dev) ==> row.pid@ == "-"@
            &&& h == 0 && owners.contains_key(dev) ==> row.pid@ == signed_decimal(
                owners[dev] as int,
            )
            &&& info.chip is None || info.chip->0.devices_per_chip == 0 ==> row.chip == i as i64
            &&& info.chip is Some && info.chip->0.devices_per_chip > 0 ==> row.chip == (i
                / info.chip->0.devices_per_chip as int) as i64
        }),
        found.rows.len() == shown_before(
            info.cores as nat,
            report_views(reports),
            addrs.len() as int,
        ),
{
    let m = machine(info, owners);
    let views = report_views(reports);
    let at = shown_before(m.cores, views, h) + i;
    lemma_zero();
    assert(views[h] == report_view(reports[h]));
    assert(texts(addrs)[h] == addrs[h]@);
    lemma_rows_of_host(m, texts(addrs), views, h, i);
    assert(row_views(found.rows@)[at] == found.rows@[at]@);
    if info.chip is Some && info.chip->0.hbm_gib <= 0x80_0000 {
        let bytes = (info.chip->0.hbm_gib * 0x4000_0000) as u64;
        law_whole_reading_truncates(bytes);
        law_small_counts_are_exact(bytes);
    }
    assert(i / 1 == i);
}

/// What a row shows of a core that its host reported does not depend on whether that host is
/// the first one, nor on what this machine is.
pub proof fn law_figures_do_not_depend_on_place(
    m: Machine,
    other: Machine,
    label: Seq<char>,
    u: UsageView,
    i: int,
)
    ensures
        ({
            let (here, there) = (m.row(label, true, Some(u), i), other.row(label, false, Some(u), i));
            &&& here.used == there.used && here.total == there.total && here.duty == there.duty
            &&& here.metrics_ok && there.metrics_ok
            &&& here.host == label && there.host == label && here.dev == there.dev
        }),
{
}

/// A report that changes in one figure of one device changes that figure of that core's row
/// and nothing else.
pub proof fn law_figures_stand_apart(
    m: Machine,
    label: Seq<char>,
    first: bool,
    u: UsageView,
    dev: i64,
    value: Reading,
    i: int,
)
    requires
        0 <= i <= i64::MAX,
    ensures
        ({
            let row = m.row(label, first, Some(u), i);
            let used = UsageView { usage: u.usage.insert(dev, value), ..u };
            let total = UsageView { total: u.total.insert(dev, value), ..u };
            let duty = UsageView { duty: u.duty.insert(dev, value), ..u };
            &&& m.row(label, first, Some(used), i) == if i == dev {
                DevView { used: value, ..row }
            } else {
                row
            }
            &&& m.row(label, first, Some(total), i) == if i == dev {
                DevView { total: value, ..row }
            } else {
                row
            }
            &&& m.row(label, first, Some(duty), i) == if i == dev {
                DevView { duty: value, ..row }
            } else {
                row
            }
        }),
{
}

/// The uptime and the fault of a round are the largest that a worker reported, each of its
/// own kind, and zero where none reported.
pub proof fn law_largest_of_a_round(found: Collected, reports: Seq<Option<Usage>>, h: int)
    requires
        found.any_metrics == any_reported(report_views(reports)),
        found.uptime_secs == largest(report_views(reports), uptime()),
        found.slice_error == largest(report_views(reports), fault()),
    ensures
        0 <= h < reports.len() && reports[h] is Some ==> found.any_metrics
            && !found.uptime_secs.is_below(reports[h]->0.uptime_secs)
            && !found.slice_error.is_below(reports[h]->0.slice_error),
        found.any_metrics ==> exists|k: int|
            0 <= k < reports.len() && (#[trigger] reports[k]) is Some,
        !found.any_metrics ==> found.uptime_secs.bits == 0 && found.slice_error.bits == 0,
        found.uptime_secs.bits == 0 || exists|k: int|
            0 <= k < reports.len() && (#[trigger] reports[k]) is Some && reports[k]->0.uptime_secs
                == found.uptime_secs,
        found.slice_error.bits == 0 || exists|k: int|
            0 <= k < reports.len() && (#[trigger] reports[k]) is Some && reports[k]->0.slice_error
                == found.slice_error,
{
    let views = report_views(reports);
    lemma_zero();
    law_largest_over_workers(views, uptime());
    law_largest_over_workers(views, fault());
    assert forall|k: int| 0 <= k < reports.len() implies #[trigger] views[k] == report_view(
        reports[k],
    ) by {}
    if 0 <= h < reports.len() {
        assert(views[h] == report_view(reports[h]));
    }
    if found.any_metrics {
        let k = choose|k: int| 0 <= k < views.len() && (#[trigger] views[k]) is Some;
        assert(reports[k] is Some);
    }
    if found.uptime_secs.bits != 0 {
        let k = choose|k: int|
            0 <= k < views.len() && (#[trigger] views[k]) is Some && largest(views, uptime())
                == uptime()(views[k]->0);
        assert(reports[k] is Some && reports[k]->0.uptime_secs == found.uptime_secs);
    }
    if found.slice_error.bits != 0 {
        let k = choose|k: int|
            0 <= k < views.len() && (#[trigger] views[k]) is Some && largest(views, fault())
                == fault()(views[k]->0);
        assert(reports[k] is Some && reports[k]->0.slice_error == found.slice_error);
    }
}

} // verus!
