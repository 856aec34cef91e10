//! The rows of the device table, from what was found on this machine and what the workers
//! reported.
use std::collections::BTreeMap;

use vstd::prelude::*;

use crate::address::{host_label, shown_address};
use crate::device::{chip_view, cores_per_chip, DeviceInfo};
use crate::format::GIB;
use crate::metrics::{Usage, UsageView};
use crate::number::{show_i64, signed_decimal};
use crate::reading::{lemma_zero, whole_reading, Reading};
use crate::rows::{chips_of, keys_of, row_views, DevRow, DevView};
use crate::text::texts;

verus! {

/// What one round over all workers found.
pub struct Collected {
    pub rows: Vec<DevRow>,
    /// Whether any worker reported.
    pub any_metrics: bool,
    /// How long the runtime has been up, the longest over all workers, in seconds.
    pub uptime_secs: Reading,
    /// Not zero where a worker's slice has a fault.
    pub slice_error: Reading,
}

/// The contents of a worker's report that may be missing.
pub open spec fn report_view(report: Option<Usage>) -> Option<UsageView> {
    match report {
        Some(u) => Some(u@),
        None => None,
    }
}

/// The contents of the workers' reports.
pub open spec fn report_views(reports: Seq<Option<Usage>>) -> Seq<Option<UsageView>> {
    reports.map_values(|r: Option<Usage>| report_view(r))
}

/// What is known of this machine.
pub struct Machine {
    /// How many cores it has.
    pub cores: nat,
    /// How many of them make a chip.
    pub per_chip: nat,
    /// The memory of a chip in bytes, from its data sheet; zero for an unknown chip.
    pub memory: Reading,
    /// The process that holds each core.
    pub owners: Map<i64, i32>,
}

/// What is known of the machine that `info` describes.
pub open spec fn machine(info: DeviceInfo, owners: Map<i64, i32>) -> Machine {
    Machine {
        cores: info.cores as nat,
        per_chip: cores_per_chip(chip_view(info.chip)),
        memory: whole_reading(
            match info.chip {
                Some(c) => c.hbm_gib * GIB,
                None => 0,
            },
        ),
        owners,
    }
}

/// How many devices a worker reported memory for.
pub open spec fn reported(report: Option<UsageView>) -> nat {
    match report {
        Some(u) => u.usage.len(),
        None => 0,
    }
}

/// A device's value, zero where there is none.
pub open spec fn value_or_zero(values: Map<i64, Reading>, dev: i64) -> Reading {
    if values.contains_key(dev) {
        values[dev]
    } else {
        whole_reading(0)
    }
}

impl Machine {
    /// How many rows a host gets: the first one, this machine, a row for each core that
    /// was found or reported, another one for each that it reported.
    pub open spec fn count(self, first: bool, report: Option<UsageView>) -> nat {
        if first && self.cores > reported(report) {
            self.cores
        } else {
            reported(report)
        }
    }

    /// The row of core `i` of a host. Who holds it is known on this machine only. A host
    /// that did not report shows the memory of the data sheet and is idle otherwise.
    pub open spec fn row(
        self,
        label: Seq<char>,
        first: bool,
        report: Option<UsageView>,
        i: int,
    ) -> DevView {
        let dev = i as i64;
        DevView {
            host: label,
            dev,
            chip: (i / self.per_chip as int) as i64,
            pid: if first && self.owners.contains_key(dev) {
                signed_decimal(self.owners[dev] as int)
            } else {
                "-"@
            },
            used: match report {
                Some(u) => value_or_zero(u.usage, dev),
                None => whole_reading(0),
            },
            total: match report {
                Some(u) => value_or_zero(u.total, dev),
                None => self.memory,
            },
            duty: match report {
                Some(u) => value_or_zero(u.duty, dev),
                None => whole_reading(0),
            },
            metrics_ok: report is Some,
        }
    }

    /// The first `n` rows of a host.
    pub open spec fn host_rows(
        self,
        label: Seq<char>,
        first: bool,
        report: Option<UsageView>,
        n: nat,
    ) -> Seq<DevView> {
        Seq::new(n, |i: int| self.row(label, first, report, i))
    }

    /// The rows of all hosts, one after another; the first one is this machine.
    pub open spec fn all_rows(
        self,
        addrs: Seq<Seq<char>>,
        reports: Seq<Option<UsageView>>,
    ) -> Seq<DevView>
        decreases addrs.len(),
    {
        if addrs.len() == 0 {
            Seq::empty()
        } else {
            let first = addrs.len() == 1;
            self.all_rows(addrs.drop_last(), reports.drop_last()) + self.host_rows(
                shown_address(addrs.last()),
                first,
                reports.last(),
                self.count(first, reports.last()),
            )
        }
    }
}

/// Whether any worker reported.
pub open spec fn any_reported(reports: Seq<Option<UsageView>>) -> bool {
    exists|i: int| 0 <= i < reports.len() && (#[trigger] reports[i]) is Some
}

/// The largest of a value over the workers that reported, at least zero.
pub open spec fn largest(
    reports: Seq<Option<UsageView>>,
    value: spec_fn(UsageView) -> Reading,
) -> Reading
    decreases reports.len(),
{
    if reports.len() == 0 {
        whole_reading(0)
    } else {
        let before = largest(reports.drop_last(), value);
        match reports.last() {
            Some(u) => before.larger(value(u)),
            None => before,
        }
    }
}

/// How long a worker's runtime has been up.
pub open spec fn uptime() -> spec_fn(UsageView) -> Reading {
    |u: UsageView| u.uptime_secs
}

/// Whether a worker's slice has a fault.
pub open spec fn fault() -> spec_fn(UsageView) -> Reading {
    |u: UsageView| u.slice_error
}

/// How many chips `n` cores make, the last of them perhaps with fewer cores.
pub open spec fn chips_for(n: nat, per_chip: nat) -> nat {
    if n % per_chip == 0 {
        n / per_chip
    } else {
        n / per_chip + 1
    }
}

proof fn lemma_next_chip(n: nat, per_chip: nat)
    requires
        per_chip > 0,
    ensures
        n % per_chip == 0 ==> chips_for(n, per_chip) == n / per_chip && chips_for(n + 1, per_chip)
            == n / per_chip + 1,
        n % per_chip != 0 ==> chips_for(n, per_chip) == n / per_chip + 1 && chips_for(
            n + 1,
            per_chip,
        ) == n / per_chip + 1,
        n / per_chip <= n,
{
    let (q, r) = (n / per_chip, n % per_chip);
    vstd::arithmetic::div_mod::lemma_fundamental_div_mod(n as int, per_chip as int);
    assert(0 <= r < per_chip) by {
        vstd::arithmetic::div_mod::lemma_mod_bound(n as int, per_chip as int);
    }
    if r + 1 < per_chip {
        vstd::arithmetic::div_mod::lemma_fundamental_div_mod_converse(
            n as int + 1,
            per_chip as int,
            q as int,
            r as int + 1,
        );
    } else {
        assert(n + 1 == (q + 1) * per_chip) by (nonlinear_arith)
            requires
                n == per_chip * q + r,
                r + 1 == per_chip,
        ;
        vstd::arithmetic::div_mod::lemma_fundamental_div_mod_converse(
            n as int + 1,
            per_chip as int,
            q as int + 1,
            0,
        );
    }
    vstd::arithmetic::div_mod::lemma_div_is_ordered_by_denominator(
        n as int,
        1,
        per_chip as int,
    );
}

/// The chips of a host are numbered from zero on, as many as its cores make.
pub proof fn law_rows_make_chips(
    m: Machine,
    label: Seq<char>,
    first: bool,
    report: Option<UsageView>,
    n: nat,
)
    requires
        m.per_chip > 0,
        n <= i64::MAX,
    ensures
        ({
            let keys = keys_of(m.host_rows(label, first, report, n));
            &&& keys.len() == chips_for(n, m.per_chip)
            &&& forall|c: int| 0 <= c < keys.len() ==> #[trigger] keys[c] == (label, c as i64)
        }),
        chips_of(m.host_rows(label, first, report, n)).len() == chips_for(n, m.per_chip),
    decreases n,
{
    let rows = m.host_rows(label, first, report, n);
    if n == 0 {
        vstd::arithmetic::div_mod::lemma_fundamental_div_mod_converse(0, m.per_chip as int, 0, 0);
    } else {
        let k = (n - 1) as nat;
        let rest = m.host_rows(label, first, report, k);
        law_rows_make_chips(m, label, first, report, k);
        lemma_next_chip(k, m.per_chip);
        assert(rows.drop_last() =~= rest);
        let keys = keys_of(rest);
        let q = (k / m.per_chip) as int;
        assert(rows.last().key() == (label, q as i64));
        if k % m.per_chip != 0 {
            assert(keys[q] == rows.last().key());
            assert(keys.contains(rows.last().key()));
        } else {
            assert(!keys.contains(rows.last().key())) by {
                if keys.contains(rows.last().key()) {
                    let c = choose|c: int| 0 <= c < keys.len() && keys[c] == rows.last().key();
                    assert(keys[c] == (label, c as i64));
                    assert(c as i64 == c && q as i64 == q);
                }
            }
        }
    }
}

/// This machine's rows come first and cover all its cores, whether it reported or not.
pub proof fn law_machine_shows_every_core(
    m: Machine,
    addrs: Seq<Seq<char>>,
    reports: Seq<Option<UsageView>>,
    i: int,
)
    requires
        addrs.len() == reports.len(),
        addrs.len() > 0,
        0 <= i < m.count(true, reports[0]),
    ensures
        m.cores <= m.count(true, reports[0]) <= m.all_rows(addrs, reports).len(),
        m.all_rows(addrs, reports)[i] == m.row(shown_address(addrs[0]), true, reports[0], i),
    decreases addrs.len(),
{
    if addrs.len() > 1 {
        law_machine_shows_every_core(m, addrs.drop_last(), reports.drop_last(), i);
        assert(addrs.drop_last()[0] == addrs[0]);
        assert(reports.drop_last()[0] == reports[0]);
    } else {
        assert(m.all_rows(addrs.drop_last(), reports.drop_last()).len() == 0);
        assert(addrs.last() == addrs[0]);
        assert(reports.last() == reports[0]);
    }
}

/// A host that did not report is shown idle, with the memory of this machine's data sheet.
pub proof fn law_silent_host_is_idle(m: Machine, label: Seq<char>, first: bool, i: int)
    ensures
        ({
            let row = m.row(label, first, None, i);
            &&& !row.metrics_ok
            &&& row.used == whole_reading(0)
            &&& row.duty == whole_reading(0)
            &&& row.total == m.memory
        }),
{
}

/// A core is said to be held only on this machine, and only by the process that owns it.
pub proof fn law_only_owners_are_named(
    m: Machine,
    label: Seq<char>,
    first: bool,
    report: Option<UsageView>,
    i: int,
)
    ensures
        m.row(label, first, report, i).pid != "-"@ ==> first && m.owners.contains_key(i as i64)
            && m.row(label, first, report, i).pid == signed_decimal(
            m.owners[i as i64] as int,
        ),
{
}

/// No worker's value lies above the largest one, which is zero or the value of one of
/// them.
pub proof fn law_largest_over_workers(
    reports: Seq<Option<UsageView>>,
    value: spec_fn(UsageView) -> Reading,
)
    ensures
        !largest(reports, value).is_nan(),
        !largest(reports, value).is_below(whole_reading(0)),
        forall|i: int|
            0 <= i < reports.len() && (#[trigger] reports[i]) is Some ==> !largest(
                reports,
                value,
            ).is_below(value(reports[i]->0)),
        largest(reports, value) == whole_reading(0) || exists|i: int|
            0 <= i < reports.len() && (#[trigger] reports[i]) is Some && largest(reports, value)
                == value(reports[i]->0),
    decreases reports.len(),
{
    lemma_zero();
    if reports.len() > 0 {
        let rest = reports.drop_last();
        law_largest_over_workers(rest, value);
        assert forall|i: int| 0 <= i < reports.len() && (#[trigger] reports[i]) is Some implies !largest(
            reports,
            value,
        ).is_below(value(reports[i]->0)) by {
            if i < rest.len() {
                assert(rest[i] == reports[i]);
            }
        }
        if largest(reports, value) != whole_reading(0) {
            if largest(reports, value) == largest(rest, value) {
                let i = choose|i: int|
                    0 <= i < rest.len() && (#[trigger] rest[i]) is Some && largest(rest, value)
                        == value(rest[i]->0);
                assert(reports[i] == rest[i]);
            } else {
                assert(reports[reports.len() - 1] is Some);
            }
        }
    }
}

fn lookup(values: &BTreeMap<i64, Reading>, dev: i64) -> (r: Reading)
    ensures
        r == value_or_zero(values@, dev),
{
    match values.get(&dev) {
        Some(v) => *v,
        None => Reading::from_count(0),
    }
}

/// The memory of a chip in bytes, from its data sheet; zero for an unknown chip.
fn sheet_memory(info: &DeviceInfo) -> (r: Reading)
    ensures
        r == machine(*info, Map::empty()).memory,
{
    match info.chip {
        Some(c) => {
            let bytes: u64 = c.hbm_gib as u64 * GIB;
            Reading::from_count(bytes)
        },
        None => Reading::from_count(0),
    }
}

/// How many cores make a chip, at least one.
fn chip_cores(info: &DeviceInfo) -> (r: usize)
    ensures
        r > 0,
        r == cores_per_chip(chip_view(info.chip)),
{
    match info.chip {
        Some(c) => if c.devices_per_chip == 0 {
            1
        } else {
            c.devices_per_chip as usize
        },
        None => 1,
    }
}

/// The rows of all hosts in `addrs`, of which the first is this machine, whether any
/// reported, and the largest uptime and fault. `reports` holds what each host reported.
pub fn collect_rows(
    addrs: &[String],
    info: &DeviceInfo,
    owners: &BTreeMap<i64, i32>,
    reports: &[Option<Usage>],
) -> (r: Collected)
    requires
        addrs.len() == reports.len(),
    ensures
        row_views(r.rows@) == machine(*info, owners@).all_rows(
            texts(addrs@),
            report_views(reports@),
        ),
        r.any_metrics == any_reported(report_views(reports@)),
        r.uptime_secs == largest(report_views(reports@), uptime()),
        r.slice_error == largest(report_views(reports@), fault()),
{
    let ghost m = machine(*info, owners@);
    let ghost hosts = texts(addrs@);
    let ghost all = report_views(reports@);
    let memory = sheet_memory(info);
    let per_chip: usize = chip_cores(info);
    let mut rows: Vec<DevRow> = Vec::new();
    let mut any_metrics: bool = false;
    let mut uptime_secs = Reading::from_count(0);
    let mut slice_error = Reading::from_count(0);
    let mut h: usize = 0;
    assert(row_views(rows@) =~= m.all_rows(hosts.take(0), all.take(0)));
    while h < addrs.len()
        invariant
            h <= addrs.len(),
            addrs.len() == reports.len(),
            m == machine(*info, owners@),
            hosts == texts(addrs@),
            all == report_views(reports@),
            memory == m.memory,
            per_chip > 0,
            per_chip == m.per_chip,
            row_views(rows@) == m.all_rows(hosts.take(h as int), all.take(h as int)),
            any_metrics == any_reported(all.take(h as int)),
            uptime_secs == largest(all.take(h as int), uptime()),
            slice_error == largest(all.take(h as int), fault()),
        decreases addrs.len() - h,
    {
        let ghost before = row_views(rows@);
        let ghost earlier = all.take(h as int);
        let ghost now = all.take(h + 1);
        let ghost report = all[h as int];
        proof {
            assert(now.drop_last() =~= earlier);
            assert(now.last() == report);
            assert(hosts.take(h + 1).drop_last() =~= hosts.take(h as int));
            assert(hosts.take(h + 1).last() == addrs@[h as int]@);
            assert(report == report_view(reports@[h as int]));
            assert(any_reported(now) == (any_reported(earlier) || report is Some)) by {
                if any_reported(earlier) {
                    let i = choose|i: int| 0 <= i < earlier.len() && (#[trigger] earlier[i]) is Some;
                    assert(now[i] is Some);
                }
                if report is Some {
                    assert(now[h as int] is Some);
                }
                if any_reported(now) && report is None {
                    let i = choose|i: int| 0 <= i < now.len() && (#[trigger] now[i]) is Some;
                    assert(earlier[i] is Some);
                }
            }
        }
        let first: bool = h == 0;
        let label = host_label(addrs[h].as_str());
        let mut count: usize = 0;
        if let Some(u) = &reports[h] {
            any_metrics = true;
            uptime_secs = uptime_secs.max(u.uptime_secs);
            slice_error = slice_error.max(u.slice_error);
            count = u.usage.len();
        }
        if first && info.cores > count {
            count = info.cores;
        }
        assert(count == m.count(first, report));
        let mut i: usize = 0;
        assert(row_views(rows@) =~= before + m.host_rows(label@, first, report, 0));
        while i < count
            invariant
                i <= count,
                h < reports.len(),
                m == machine(*info, owners@),
                memory == m.memory,
                per_chip > 0,
                per_chip == m.per_chip,
                report == report_view(reports@[h as int]),
                row_views(rows@) == before + m.host_rows(label@, first, report, i as nat),
            decreases count - i,
        {
            let dev: i64 = i as i64;
            let pid = if first {
                match owners.get(&dev) {
                    Some(p) => show_i64(*p as i64),
                    None => "-".to_string(),
                }
            } else {
                "-".to_string()
            };
            let (used, total, duty, metrics_ok) = match &reports[h] {
                Some(u) => (
                    lookup(&u.usage, dev),
                    lookup(&u.total, dev),
                    lookup(&u.duty, dev),
                    true,
                ),
                None => (Reading::from_count(0), memory, Reading::from_count(0), false),
            };
            let row = DevRow {
                host: label.clone(),
                dev,
                chip: (i / per_chip) as i64,
                pid,
                used,
                total,
                duty,
                metrics_ok,
            };
            let ghost sofar = row_views(rows@);
            let ghost shown = row@;
            rows.push(row);
            proof {
                assert(shown =~= m.row(label@, first, report, i as int));
                assert(row_views(rows@) =~= sofar.push(shown));
                assert(m.host_rows(label@, first, report, (i + 1) as nat) =~= m.host_rows(
                    label@,
                    first,
                    report,
                    i as nat,
                ).push(shown));
                assert(row_views(rows@) =~= before + m.host_rows(
                    label@,
                    first,
                    report,
                    (i + 1) as nat,
                ));
            }
            i = i + 1;
        }
        h = h + 1;
    }
    assert(hosts.take(addrs.len() as int) =~= hosts);
    assert(all.take(reports.len() as int) =~= all);
    Collected { rows, any_metrics, uptime_secs, slice_error }
}

/// The positions of the rows that were measured, in rising order.
pub open spec fn measured_rows(rows: Seq<DevView>) -> Seq<int>
    decreases rows.len(),
{
    if rows.len() == 0 {
        Seq::empty()
    } else {
        let before = measured_rows(rows.drop_last());
        if rows.last().metrics_ok {
            before.push(rows.len() - 1)
        } else {
            before
        }
    }
}

/// The rows whose figures count in averages: each that was measured, once, in order.
pub proof fn law_only_measured_rows_count(rows: Seq<DevView>, at: int)
    ensures
        measured_rows(rows).contains(at) <==> 0 <= at < rows.len() && rows[at].metrics_ok,
        forall|i: int, j: int|
            0 <= i < j < measured_rows(rows).len() ==> #[trigger] measured_rows(rows)[i]
                < #[trigger] measured_rows(rows)[j],
        forall|i: int|
            0 <= i < measured_rows(rows).len() ==> 0 <= #[trigger] measured_rows(rows)[i]
                < rows.len(),
    decreases rows.len(),
{
    if rows.len() > 0 {
        let rest = rows.drop_last();
        let before = measured_rows(rest);
        let all = measured_rows(rows);
        law_only_measured_rows_count(rest, at);
        if before.contains(at) {
            let k = choose|k: int| 0 <= k < before.len() && before[k] == at;
            assert(all[k] == at);
        }
        if all.contains(at) {
            let k = choose|k: int| 0 <= k < all.len() && all[k] == at;
            if k < before.len() {
                assert(before[k] == at);
            }
        }
        if at == rest.len() && rows.last().metrics_ok {
            assert(all[before.len() as int] == at);
        }
        assert forall|i: int, j: int| 0 <= i < j < all.len() implies #[trigger] all[i]
            < #[trigger] all[j] by {
            assert(all[i] == before[i]);
            if j < before.len() {
                assert(all[j] == before[j]);
            }
        }
        assert forall|i: int| 0 <= i < all.len() implies 0 <= #[trigger] all[i] < rows.len() by {
            if i < before.len() {
                assert(all[i] == before[i]);
            }
        }
    }
}

/// The positions of the rows whose figures count in averages: those that were measured.
pub fn measured(rows: &[DevRow]) -> (r: Vec<usize>)
    ensures
        r@.map_values(|i: usize| i as int) == measured_rows(row_views(rows@)),
        forall|k: int| 0 <= k < r.len() ==> (#[trigger] r@[k]) < rows.len(),
{
    let ghost all = row_views(rows@);
    let ghost wide = |i: usize| i as int;
    let mut out: Vec<usize> = Vec::new();
    let mut i: usize = 0;
    assert(out@.map_values(wide) =~= measured_rows(all.take(0)));
    while i < rows.len()
        invariant
            i <= rows.len(),
            all == row_views(rows@),
            wide == (|i: usize| i as int),
            out@.map_values(wide) == measured_rows(all.take(i as int)),
            forall|k: int| 0 <= k < out.len() ==> (#[trigger] out@[k]) < i,
        decreases rows.len() - i,
    {
        assert(all.take(i + 1).drop_last() =~= all.take(i as int));
        assert(all.take(i + 1).last() == rows@[i as int]@);
        if rows[i].metrics_ok {
            let ghost earlier = out@.map_values(wide);
            out.push(i);
            assert(out@.map_values(wide) =~= earlier.push(i as int));
        }
        i = i + 1;
    }
    assert(all.take(rows.len() as int) =~= all);
    out
}

/// The name of this machine's chips, how many there are, and how many cores they have.
pub fn chip_label(info: &DeviceInfo) -> (r: (String, usize, usize))
    ensures
        r.0@ == match info.chip {
            Some(c) => c.name@,
            None => "unknown"@,
        },
        r.1 == info.chips,
        r.2 == info.cores,
{
    let name = match info.chip {
        Some(c) => c.name.to_string(),
        None => "unknown".to_string(),
    };
    (name, info.chips, info.cores)
}

} // verus!
