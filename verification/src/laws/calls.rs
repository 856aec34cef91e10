//! Laws of single calls: what a caller gets back, said of the arguments and the result.
use std::collections::{BTreeMap, HashMap};

use vstd::prelude::*;

use crate::address::{addresses, host_label, normalize, normalized, shown_address};
use crate::collect::{chip_label, collect_rows, measured, report_view, Collected};
use crate::device::{
    arguments, chip_from_ids, chip_table, cmdline, command_line, command_text, cores_per_chip,
    detect, device_owners, group_devices, last_chip, tpu_addresses, tpu_pci_sorted, tpus,
    vfio_group_to_device, ChipType, DeviceInfo, GroupMap, IommuGroup, PciFunction, ProcFds,
};
use crate::format::{
    bar, bar_blocks, bar_text, clock_text, fmt_gib, fmt_mem, fmt_minutes, fmt_short_uptime,
    fmt_time, fmt_uptime, full_blocks, gib_text, load_tint, mem_text, minutes_text, ratio_color,
    ratio_tint, short_uptime_text, uptime_text, util_color, Tint,
};
use crate::host::{
    chosen_disk, paths_match, same_path, space_used, DiskInfo, HostMonitor, HostStats,
};
use crate::laws::collect::{cores_shown, is_figure_of, law_rows_show_their_reports, shown_before};
use crate::laws::metrics::{
    law_integer_gauges_keep_their_order, law_integer_gauges_keep_their_value,
};
use crate::laws::procfs::{about_disk, law_disk_counters_are_of_the_device};
use crate::laws::session::law_one_more_round;
use crate::laws::snapshot::{law_banner, law_cells_show_their_figures, law_lines_show_their_process};
use crate::laws::sysmon::law_list_of_processes;
use crate::laws::ui::{
    healthy, is_piece, law_header_tells_of_faults, law_screen_shows_every_part,
    law_series_show_their_last_value, law_shares, law_table_shows_every_chip,
    law_table_shows_every_process, show_chip_in, show_process_in,
};
use crate::layout::{lay_out, Area, Panes, Plan};
use crate::metrics::{
    device_id, fetch_metric, fetch_scalar_max, gauge_value, gauges, peak, Attr, Fetch, GaugeValue,
    Measure, Metric, MetricReply, Step, Usage,
};
use crate::number::{
    decimal, pad_left, pad_right, padded_left, padded_right, parsed_i32, parsed_u32, parsed_u64,
    read_i32, read_u32, read_u64, show, show_i64, show_two, signed_decimal, two_digits,
};
use crate::procfs::{
    command_or_name, disk_counters, disk_device_for, file_lines, labelled_number, labelled_user,
    mem_total_kb, mounted_device, net_fits, net_sums, net_totals, read_command, read_disk,
    read_stat, read_status, read_users, show_command, shown_command, stat_threads, stat_times,
    users_of,
};
use crate::ranges::{compress, ids_text};
use crate::panel::{SparkPanel, TablePanel, TextPanel};
use crate::reading::{quotient, Reading};
use crate::rows::{chips_of, group_by_chip, row_views, ChipRow, DevRow};
use crate::session::{whole_percent, History, Session};
use crate::snapshot::{
    all_core_cells, banner, closing, core_columns, core_table, core_table_cells, host_line,
    host_text, opening, opening_texts, proc_lines, table_text, CoreFigures,
};
use crate::sysmon::{
    countable, disk_now, holders, infos, lists, net_now, sums_fit, ticks_fit, traffic, IoStats,
    ProcFiles, ProcInfo, SysMon,
};
use crate::text::{
    after_prefix, at_most, begins, cut_at, head, in_code_order, in_order, join, joined, lines,
    lines_of, no_later, same, sort, split, strip_prefixes, texts, trim, trimmed, without_prefixes,
    words, words_of,
};
use crate::ui::{
    complete, draw, draw_header, draw_history, draw_host, draw_procs, draw_table, figures_match,
    figures_suffice, hbm_share, header_panel, kept, kept_of, multi_core, ratio, ratio_of,
    show_gib_pair, App, ChipFigures, Figures, HostFigures, HostPanels, IoFigures, ProcFigures,
    Screen,
};

verus! {

/// An integer gauge is taken as the whole number that it is, up to the 53rd power of two,
/// and so two that differ are told apart; a floating-point one is taken bit for bit.
pub proof fn law_gauge_value(m: &Metric, n: &Metric, r: Reading, q: Reading, i: i64, j: i64)
    requires
        call_ensures(gauge_value, (m,), r),
        call_ensures(gauge_value, (n,), q),
    ensures
        m.measure == Some(Measure::Gauge(Some(GaugeValue::AsInt(i)))) && 0 <= i
            <= 0x20_0000_0000_0000 ==> r.truncated() == i,
        m.measure == Some(Measure::Gauge(Some(GaugeValue::AsInt(i)))) && n.measure == Some(
            Measure::Gauge(Some(GaugeValue::AsInt(j))),
        ) && -0x20_0000_0000_0000 <= i < j <= 0x20_0000_0000_0000 ==> r.is_below(q) && r != q,
        m.measure == Some(Measure::Gauge(Some(GaugeValue::AsDouble(q)))) ==> r == q,
        m.measure is None ==> r.bits == 0,
{
    law_integer_gauges_keep_their_value(m.attribute, i);
    if m.measure == Some(Measure::Gauge(Some(GaugeValue::AsInt(i)))) && n.measure == Some(
        Measure::Gauge(Some(GaugeValue::AsInt(j))),
    ) && -0x20_0000_0000_0000 <= i < j <= 0x20_0000_0000_0000 {
        law_integer_gauges_keep_their_order(m.attribute, n.attribute, i, j);
    }
}

/// What an answer gives: the gauge of each device, or the largest one; a measurement's device
/// is the one that it names.
pub proof fn law_answers_are_read(
    reply: &MetricReply,
    list: Vec<Metric>,
    m: &Metric,
    map: BTreeMap<i64, Reading>,
    top: Reading,
    dev: i64,
    i: i64,
)
    ensures
        call_ensures(fetch_metric, (reply,), map) && reply.metrics == Some(list) ==> map@ == gauges(
            list@,
        ),
        call_ensures(fetch_metric, (reply,), map) && reply.metrics is None ==> map@.dom().is_empty(),
        call_ensures(fetch_scalar_max, (reply,), top) && reply.metrics == Some(list) ==> top
            == peak(list@),
        call_ensures(fetch_scalar_max, (reply,), top) && reply.metrics is None ==> top.bits == 0,
        call_ensures(device_id, (m,), dev) && m.attribute is None ==> dev == -1,
        call_ensures(device_id, (m,), dev) && m.attribute == Some(Some(Some(Attr::IntAttr(i))))
            ==> dev == i,
{
}

/// The disk counters are known only from a line of ten words or more whose third is the
/// device, letter for letter, and no earlier one; its sixth and tenth words spell them.
pub proof fn law_read_disk(text: &str, device: &str, r: Option<(u64, u64)>)
    requires
        call_ensures(read_disk, (Some(text), device), r),
    ensures
        r is Some ==> exists|i: int|
            {
                let fields = words_of(#[trigger] lines_of(text@)[i]);
                &&& 0 <= i < lines_of(text@).len()
                &&& fields.len() >= 10 && fields[2] == device@
                &&& parsed_u64(fields[5]) == Some((r->0).0)
                &&& parsed_u64(fields[9]) == Some((r->0).1)
                &&& forall|j: int|
                    0 <= j < i ==> !about_disk(#[trigger] lines_of(text@)[j], device@)
            },
        device@.len() == 0 ==> r is None,
        device@.len() > 0 ==> r == disk_counters(lines_of(text@), device@),
{
    let all = lines_of(text@);
    if r is Some {
        law_disk_counters_are_of_the_device(all, device@, 0);
        let some = exists|i: int| 0 <= i < all.len() && about_disk(#[trigger] all[i], device@);
        assert(some);
        let i = choose|i: int| 0 <= i < all.len() && about_disk(#[trigger] all[i], device@);
        let first = lemma_first(all, device@, i);
        law_disk_counters_are_of_the_device(all, device@, first);
        assert(about_disk(all[first], device@));
    }
}

proof fn lemma_first(all: Seq<Seq<char>>, device: Seq<char>, i: int) -> (first: int)
    requires
        0 <= i < all.len(),
        about_disk(all[i], device),
    ensures
        0 <= first <= i,
        about_disk(all[first], device),
        forall|j: int| 0 <= j < first ==> !about_disk(#[trigger] all[j], device),
    decreases i,
{
    if exists|j: int| 0 <= j < i && about_disk(#[trigger] all[j], device) {
        let j = choose|j: int| 0 <= j < i && about_disk(#[trigger] all[j], device);
        lemma_first(all, device, j)
    } else {
        i
    }
}

/// Every host that reported, the first or any other, shows for each of its cores exactly
/// what its own report has for that core.
pub proof fn law_collect_rows(
    addrs: &[String],
    info: &DeviceInfo,
    owners: &BTreeMap<i64, i32>,
    reports: &[Option<Usage>],
    r: Collected,
    h: int,
    i: int,
)
    requires
        call_ensures(collect_rows, (addrs, info, owners, reports), r),
        addrs@.len() == reports@.len(),
        0 <= h < addrs@.len(),
        0 <= i < cores_shown(info.cores as nat, h, report_view(reports@[h])),
    ensures
        ({
            let at = shown_before(
                info.cores as nat,
                crate::collect::report_views(reports@),
                h,
            ) + i;
            let row = r.rows@[at];
            &&& 0 <= at < r.rows.len()
            &&& row.host@ == shown_address(addrs@[h]@)
            &&& row.dev == i as i64
            &&& reports@[h] matches Some(u) ==> row.metrics_ok && is_figure_of(
                row.used,
                u.usage@,
                i as i64,
            ) && is_figure_of(row.total, u.total@, i as i64) && is_figure_of(
                row.duty,
                u.duty@,
                i as i64,
            )
            &&& reports@[h] is None ==> !row.metrics_ok && row.used.bits == 0 && row.duty.bits == 0
        }),
{
    law_rows_show_their_reports(r, addrs@, *info, owners@, reports@, h, i);
}

/// The header calls the slice healthy, in green, exactly if the reading is a zero of either
/// sign, and so does the banner of the snapshot; any other reading is an error, in red.
pub proof fn law_draw_header(app: &App, r: TextPanel, chip: &str, hostname: &str, text: String)
    requires
        call_ensures(draw_header, (app,), r),
        call_ensures(
            banner,
            (chip, app.chips, app.cores, app.uptime_secs, app.slice_error, hostname),
            text,
        ),
    ensures
        r@ == header_panel(*app),
        r.line.len() == 9,
        healthy(app.slice_error) ==> is_piece(r.line@[7], "slice: OK"@, Tint::Green, true),
        !healthy(app.slice_error) ==> is_piece(r.line@[7], "slice: ERROR!"@, Tint::Red, true),
        ({
            let before = "TPU "@ + chip@ + "   chips="@ + decimal(app.chips as nat) + " cores="@
                + decimal(app.cores as nat) + "   up "@ + short_uptime_text(
                app.uptime_secs.truncated() as nat,
            );
            &&& healthy(app.slice_error) ==> text@ == before + "   slice: "@ + "OK"@ + "   host="@
                + hostname@
            &&& !healthy(app.slice_error) ==> text@ == before + "   slice: "@ + "ERROR!"@
                + "   host="@ + hostname@
        }),
{
    law_header_tells_of_faults(r, *app);
    law_banner(
        chip@,
        app.chips as nat,
        app.cores as nat,
        app.uptime_secs,
        app.slice_error,
        hostname@,
    );
}

/// Row by row the memory and duty cells hold the texts of the figures at that position.
pub proof fn law_core_table_cells(
    rows: &[DevRow],
    figures: &[CoreFigures],
    multi_host: bool,
    r: Vec<Vec<String>>,
    i: int,
)
    requires
        call_ensures(core_table_cells, (rows, figures, multi_host), r),
        rows@.len() == figures@.len(),
        0 <= i < rows@.len(),
    ensures
        r.len() == rows@.len(),
        ({
            let row = r@[i]@;
            let at: int = if multi_host {
                1
            } else {
                0
            };
            let figure = figures@[i];
            &&& row.len() == at + 4
            &&& row[at]@ == signed_decimal(rows@[i].dev as int)
            &&& row[at + 1]@ == rows@[i].pid@
            &&& rows@[i].metrics_ok ==> row[at + 2]@ == figure.used@ + "/"@ + figure.total@
                + " GiB"@ && row[at + 3]@ == figure.duty@
            &&& !rows@[i].metrics_ok ==> row[at + 2]@ == "—/"@ + figure.total@ + " GiB"@ && row[at
                + 3]@ == "0"@
        }),
{
    law_cells_show_their_figures(r@, rows@, figures@, multi_host, i);
}

/// The snapshot's lines about the host and the processes: each process has a line of its own
/// under the host's line and the heading.
pub proof fn law_closing(
    host: &HostStats,
    cpu: &str,
    io: &IoFigures,
    procs: &[ProcInfo],
    figures: &[ProcFigures],
    commands: bool,
    r: Vec<String>,
    rest: Vec<String>,
    first: String,
)
    requires
        procs@.len() == figures@.len(),
        call_ensures(closing, (host, cpu, io, procs, figures, commands), r),
        call_ensures(proc_lines, (procs, figures, commands), rest),
        call_ensures(host_line, (host, cpu, io), first),
    ensures
        texts(r@) == texts(seq![first]) + texts(rest@),
        first@ == host_text(*host, cpu@, *io),
        procs@.len() == 0 ==> rest.len() == 1,
        procs@.len() > 0 ==> rest.len() == procs@.len() + 1,
{
    law_lines_show_their_process(rest@, procs@, figures@, commands, 0);
    assert(texts(seq![first]) =~= seq![first@]);
}

/// The snapshot opens with its banner and the table of all cores, and the table is that of
/// the cells.
pub proof fn law_opening(
    info: &DeviceInfo,
    found: &Collected,
    figures: &[CoreFigures],
    multi_host: bool,
    hostname: &str,
    rows: &[DevRow],
    r: Vec<String>,
    table: String,
)
    requires
        found.rows@ == rows@,
        rows@.len() == figures@.len(),
        call_ensures(opening, (info, found, figures, multi_host, hostname), r),
        call_ensures(core_table, (rows, figures, multi_host), table),
    ensures
        texts(r@) == opening_texts(*info, *found, figures@, multi_host, hostname@),
        r.len() >= 2 && r@[1]@ == table@,
        table@ == table_text(
            core_columns(multi_host),
            all_core_cells(row_views(rows@), figures@, multi_host),
        ),
{
    assert(texts(r@).len() == r.len());
    assert(texts(r@)[1] == r@[1]@);
}

/// The live view's tables show every chip and every process, each with its own figures.
pub proof fn law_draw_tables(
    rows: &[DevRow],
    chip_figures: &[ChipFigures],
    multi_host: bool,
    chips: TablePanel,
    procs: &[ProcInfo],
    proc_figures: &[ProcFigures],
    listed: TablePanel,
    i: int,
)
    requires
        figures_match(chips_of(row_views(rows@)), chip_figures@),
        procs@.len() == proc_figures@.len(),
        call_ensures(draw_table, (rows, chip_figures, multi_host), chips),
        call_ensures(draw_procs, (procs, proc_figures), listed),
    ensures
        chips.rows.len() == chips_of(row_views(rows@)).len(),
        0 <= i < chips.rows.len() ==> show_chip_in(
            chips.rows@[i].cells@,
            chips_of(row_views(rows@))[i],
            chip_figures@[i],
            multi_host,
            multi_core(chips_of(row_views(rows@))),
        ),
        listed.rows.len() == procs@.len(),
        0 <= i < listed.rows.len() ==> show_process_in(
            listed.rows@[i].cells@,
            procs@[i],
            proc_figures@[i],
        ),
{
    law_table_shows_every_chip(chips, rows@, chip_figures@, multi_host, i);
    law_table_shows_every_process(listed, procs@, proc_figures@, i);
}

/// The history's panels show the two series, each under its own title, and the host's panels
/// its load, memory, disk and traffic.
pub proof fn law_draw_history_and_host(
    duty_hist: &Vec<u64>,
    hbm_hist: &Vec<u64>,
    r: (SparkPanel, SparkPanel),
    host: &HostStats,
    figures: &HostFigures,
    panels: HostPanels,
)
    requires
        call_ensures(draw_history, (duty_hist, hbm_hist), r),
        call_ensures(draw_host, (host, figures), panels),
    ensures
        r.0.data@ == duty_hist@ && r.0.tint == Tint::Green,
        duty_hist.len() > 0 ==> r.0.title@ == " TC Util (duty cycle)  "@ + decimal(
            duty_hist@[duty_hist.len() - 1] as nat,
        ) + "% "@,
        r.1.data@ == hbm_hist@ && r.1.tint == Tint::Accent,
        hbm_hist.len() > 0 ==> r.1.title@ == " HBM usage  "@ + decimal(
            hbm_hist@[hbm_hist.len() - 1] as nat,
        ) + "% "@,
        panels.shows(*host, *figures),
{
    law_series_show_their_last_value(
        r.0,
        " TC Util (duty cycle)  "@,
        duty_hist@,
        Tint::Green,
    );
    law_series_show_their_last_value(r.1, " HBM usage  "@, hbm_hist@, Tint::Accent);
}

/// The live view shows every part of what was sampled, laid out over the given area.
pub proof fn law_draw(app: &App, figures: &Figures, area: Area, r: Screen, plan: Plan, panes: Panes)
    ensures
        call_ensures(draw, (app, figures, area), r) && figures_suffice(*app, *figures) ==> {
            &&& r.header@ == header_panel(*app)
            &&& r.duty.data@ == app.duty_hist@ && r.hbm.data@ == app.hbm_hist@
            &&& r.procs.rows.len() == app.procs.len()
            &&& r.chips.rows.len() == chips_of(row_views(app.rows@)).len()
            &&& r.shows(*app, *figures) && r.fits(area)
        },
        call_ensures(lay_out, (plan, area), panes) ==> panes.plan == plan && panes.divide(area),
{
    if call_ensures(draw, (app, figures, area), r) && figures_suffice(*app, *figures) {
        law_screen_shows_every_part(r, *app, *figures, area);
        assert(r.procs@.rows.len() == r.procs.rows.len());
        assert(r.chips@.rows.len() == r.chips.rows.len());
    }
}

/// How full something is, and whether there are figures for all that is shown.
pub proof fn law_shares_and_figures(
    total: Reading,
    pct: Reading,
    count: u64,
    used: u64,
    r: Reading,
    text: String,
    app: &App,
    figures: &Figures,
    ready: bool,
)
    ensures
        call_ensures(hbm_share, (total, pct), r) && !total.is_nan() && 0 < total.bits
            < 0x8000_0000_0000_0000 ==> r == pct,
        call_ensures(hbm_share, (total, pct), r) && total.bits == 0 ==> r.bits == 0,
        call_ensures(ratio, (pct,), r) ==> r == kept(pct),
        call_ensures(ratio_of, (count, pct), r) ==> r == kept_of(count, pct),
        call_ensures(show_gib_pair, (used, count), text) ==> text@ == gib_text(used as nat) + "/"@
            + gib_text(count as nat) + " GiB"@,
        call_ensures(complete, (app, figures), ready) ==> ready == figures_suffice(*app, *figures),
{
    law_shares(total, pct);
}

/// What this machine is called, and how many chips and cores it has.
pub proof fn law_chip_label(info: &DeviceInfo, r: (String, usize, usize))
    requires
        call_ensures(chip_label, (info,), r),
    ensures
        info.chip is Some ==> r.0@ == info.chip->0.name@,
        info.chip is None ==> r.0@ == "unknown"@,
        r.1 == info.chips && r.2 == info.cores,
{
}

/// The rows that were measured are picked by their positions, in rising order.
pub proof fn law_measured(rows: &[DevRow], r: Vec<usize>, at: int, i: int, j: int)
    requires
        call_ensures(measured, (rows,), r),
    ensures
        0 <= i < r.len() ==> r@[i] < rows@.len() && rows@[r@[i] as int].metrics_ok,
        0 <= i < j < r.len() ==> r@[i] < r@[j],
        0 <= at < rows@.len() && rows@[at].metrics_ok && at <= usize::MAX ==> r@.contains(
            at as usize,
        ),
{
    let views = row_views(rows@);
    let all = r@.map_values(|k: usize| k as int);
    crate::collect::law_only_measured_rows_count(views, at);
    if 0 <= i < r.len() {
        assert(all[i] == r@[i] as int);
        crate::collect::law_only_measured_rows_count(views, r@[i] as int);
        assert(crate::collect::measured_rows(views).contains(r@[i] as int));
        assert(views[r@[i] as int] == rows@[r@[i] as int]@);
    }
    if 0 <= i < j < r.len() {
        assert(all[i] == r@[i] as int && all[j] == r@[j] as int);
    }
    if 0 <= at < rows@.len() && rows@[at].metrics_ok && at <= usize::MAX {
        assert(views[at] == rows@[at]@);
        let k = choose|k: int| 0 <= k < all.len() && all[k] == at;
        assert(r@[k] == at as usize);
    }
}

/// What was found on the bus: the kind of the last chip, one core for each function of a
/// chip, and as many chips as these cores make.
pub proof fn law_detect(functions: &Vec<PciFunction>, r: DeviceInfo)
    requires
        call_ensures(detect, (functions,), r),
    ensures
        r.cores == tpus(functions@).len(),
        r.chip is None <==> last_chip(functions@) is None,
        r.chip matches Some(c) ==> last_chip(functions@) == Some(
            (c.name@, c.hbm_gib, c.devices_per_chip),
        ),
        r.chip is None ==> r.chips == r.cores,
        r.chip is Some && r.chip->0.devices_per_chip > 0 ==> {
            let per_chip = r.chip->0.devices_per_chip;
            r.chips * per_chip <= r.cores < (r.chips + 1) * per_chip
        },
{
    crate::device::law_cores_make_chips(functions@);
    assert(r.cores as nat / 1 == r.cores);
    if r.chip is Some && r.chip->0.devices_per_chip > 0 {
        assert(cores_per_chip(last_chip(functions@)) == r.chip->0.devices_per_chip);
    }
}

/// A function's chip is the one that its ids say.
pub proof fn law_chip_type(function: &PciFunction, r: Option<ChipType>)
    requires
        call_ensures(PciFunction::chip_type, (function,), r),
    ensures
        r is None <==> function.chip() is None,
        r matches Some(c) ==> function.chip() == Some((c.name@, c.hbm_gib, c.devices_per_chip)),
{
}

/// Devices are numbered by their addresses, groups stand for them, and the first process that
/// has one open owns it.
pub proof fn law_device_calls(
    functions: &Vec<PciFunction>,
    groups: &Vec<IommuGroup>,
    procs: &Vec<ProcFds>,
    map: &GroupMap,
    device: &str,
    subsystem: &str,
    found: GroupMap,
    owners: BTreeMap<i64, i32>,
    sorted: Vec<String>,
    kind: Option<ChipType>,
    empty: bool,
)
    ensures
        call_ensures(tpu_pci_sorted, (functions,), sorted) ==> texts(sorted@) == in_code_order(
            tpu_addresses(functions@),
        ),
        call_ensures(vfio_group_to_device, (functions, groups), found) ==> found@ == group_devices(
            groups@,
            in_code_order(tpu_addresses(functions@)),
        ),
        call_ensures(crate::device::chip_owners, (map, procs), owners) ==> owners@ == device_owners(
            procs@,
            map@,
        ),
        call_ensures(chip_from_ids, (device, subsystem), kind) ==> (kind is None <==> chip_table(
            device@,
            subsystem@,
        ) is None) && (kind matches Some(c) ==> chip_table(device@, subsystem@) == Some(
            (c.name@, c.hbm_gib, c.devices_per_chip),
        )),
        call_ensures(GroupMap::is_empty, (map,), empty) && empty ==> map@.dom().is_empty(),
{
}

/// A command line is the arguments with spaces between them, and none where there is none.
pub proof fn law_command_calls(
    parts: &Vec<String>,
    raw: &Vec<u8>,
    r: Option<String>,
    q: Option<String>,
)
    ensures
        call_ensures(command_line, (parts,), r) ==> (r is None <==> parts.len() == 0) && (
        r matches Some(t) ==> t@ == joined(texts(parts@), " "@)),
        call_ensures(cmdline, (raw,), q) ==> (q is None <==> arguments(raw@).len() == 0) && (
        q matches Some(t) ==> t@ == command_text(raw@)),
{
}

/// The host's figures are passed on; the disk is the one looked at, and unknown where there
/// is none.
pub proof fn law_host_sample(
    monitor: &HostMonitor,
    cpu_pct: Reading,
    mem_used: u64,
    mem_total: u64,
    disks: &Vec<DiskInfo>,
    hostname: Option<&str>,
    r: HostStats,
)
    requires
        call_ensures(
            HostMonitor::sample,
            (monitor, cpu_pct, mem_used, mem_total, disks, hostname),
            r,
        ),
    ensures
        r.cpu_pct == cpu_pct && r.mem_used == mem_used && r.mem_total == mem_total,
        hostname is None ==> r.hostname@ == "?"@,
        hostname matches Some(name) ==> r.hostname@ == name@,
        chosen_disk(disks@, monitor@) is None ==> r.disk_mount@ == "?"@ && r.disk_total == 0
            && r.disk_used == 0,
        chosen_disk(disks@, monitor@) matches Some(disk) ==> r.disk_mount@ == disk.mount->0@
            && r.disk_total == disk.total && r.disk_used == space_used(disk),
{
}

/// Addresses come from a list with commas between them, in its order.
pub proof fn law_address_calls(
    addr: &str,
    r: String,
    list: Vec<String>,
    monitor: HostMonitor,
    other: &str,
    equal: bool,
    i: int,
)
    ensures
        call_ensures(normalize, (addr,), r) ==> r@ == normalized(addr@),
        call_ensures(host_label, (addr,), r) ==> r@ == shown_address(addr@),
        call_ensures(addresses, (addr,), list) ==> list.len() == cut_at(addr@, ',').len(),
        call_ensures(addresses, (addr,), list) && 0 <= i < list.len() ==> list@[i]@ == normalized(
            cut_at(addr@, ',')[i],
        ),
        call_ensures(HostMonitor::new, (addr,), monitor) ==> monitor@ == addr@,
        call_ensures(paths_match, (addr, other), equal) ==> equal == same_path(addr@, other@),
{
    if call_ensures(addresses, (addr,), list) {
        assert(texts(list@).len() == list.len());
        if 0 <= i < list.len() {
            assert(texts(list@)[i] == list@[i]@);
        }
    }
}

/// Times, memory, bars and colours.
pub proof fn law_format_calls(
    secs: Reading,
    n: u64,
    filled: usize,
    width: usize,
    r: String,
    blocks: usize,
    tint: Tint,
    mix: Option<(u8, u8, u8)>,
)
    ensures
        call_ensures(fmt_uptime, (secs,), r) ==> r@ == uptime_text(secs.truncated() as nat),
        call_ensures(fmt_short_uptime, (secs,), r) ==> r@ == short_uptime_text(
            secs.truncated() as nat,
        ),
        call_ensures(fmt_time, (n,), r) ==> r@ == clock_text(n as nat),
        call_ensures(fmt_minutes, (n,), r) ==> r@ == minutes_text(n as nat),
        call_ensures(fmt_mem, (n,), r) ==> r@ == mem_text(n as nat),
        call_ensures(fmt_gib, (n,), r) ==> r@ == gib_text(n as nat),
        call_ensures(bar, (filled, width), r) ==> r@ == bar_text(filled as nat, width as nat),
        call_ensures(bar_blocks, (secs,), blocks) ==> blocks == full_blocks(secs),
        call_ensures(ratio_color, (secs,), tint) ==> tint == ratio_tint(secs),
        call_ensures(util_color, (secs,), tint) ==> tint == load_tint(secs),
        call_ensures(Tint::rgb, (tint,), mix) ==> mix == tint.mix(),
{
}

/// Numbers as texts and back.
pub proof fn law_number_calls(
    n: u64,
    i: i64,
    s: &str,
    width: usize,
    r: String,
    a: Option<u64>,
    b: Option<u32>,
    c: Option<i32>,
)
    ensures
        call_ensures(show, (n,), r) ==> r@ == decimal(n as nat),
        call_ensures(show_i64, (i,), r) ==> r@ == signed_decimal(i as int),
        call_ensures(show_two, (n,), r) ==> r@ == two_digits(n as nat),
        call_ensures(pad_right, (s, width), r) ==> r@ == padded_right(s@, width as nat),
        call_ensures(pad_left, (s, width), r) ==> r@ == padded_left(s@, width as nat),
        call_ensures(read_u64, (s,), a) ==> a == parsed_u64(s@),
        call_ensures(read_u32, (s,), b) ==> b == parsed_u32(s@),
        call_ensures(read_i32, (s,), c) ==> c == parsed_i32(s@),
{
}

/// Readings.
pub proof fn law_reading_calls(
    n: u64,
    i: i64,
    a: Reading,
    b: Reading,
    c: Reading,
    r: Reading,
    yes: bool,
    whole: u64,
)
    ensures
        call_ensures(Reading::from_bits, (n,), r) ==> r.bits == n,
        call_ensures(Reading::from_count, (n,), r) ==> r == crate::reading::whole_reading(n as int),
        call_ensures(Reading::from_int, (i,), r) ==> r == crate::reading::whole_reading(i as int),
        call_ensures(Reading::not_a_number, (a,), yes) ==> yes == a.is_nan(),
        call_ensures(Reading::below, (a, b), yes) ==> yes == a.is_below(b),
        call_ensures(Reading::zero, (a,), yes) ==> (yes <==> a.bits == 0 || a.bits
            == 0x8000_0000_0000_0000),
        call_ensures(Reading::max, (a, b), r) ==> r == a.larger(b),
        call_ensures(Reading::min, (a, b), r) ==> r == a.smaller(b),
        call_ensures(Reading::clamp, (a, b, c), r) ==> r == a.within(b, c),
        call_ensures(Reading::trunc, (a,), whole) ==> whole == a.truncated(),
        call_ensures(quotient, (n, 100), whole) && n <= 0x10_0000_0000_0000 ==> whole == n / 100,
{
    crate::laws::reading::law_special_readings(a);
    if n <= 0x10_0000_0000_0000 {
        crate::reading::law_small_quotients_are_exact(n, 100);
    }
}

/// The system's files.
pub proof fn law_procfs_calls(
    text: &str,
    file: Option<&str>,
    mount: &str,
    n: u64,
    pair: (u64, u32),
    r: String,
    sums: Option<(u64, u64)>,
    stat: Option<(u64, u64, u64)>,
    command: Option<String>,
    raw: &Vec<u8>,
)
    ensures
        call_ensures(mem_total_kb, (file,), n) ==> n == labelled_number(
            file_lines(file),
            "MemTotal:"@,
        ),
        call_ensures(read_status, (file,), pair) ==> pair.0 == labelled_number(
            file_lines(file),
            "VmRSS:"@,
        ) && pair.1 == labelled_user(file_lines(file), "Uid:"@),
        call_ensures(disk_device_for, (file, mount), r) ==> r@ == mounted_device(
            file_lines(file),
            mount@,
        ),
        file_lines(Some(text)) == lines_of(text@) && file_lines(None).len() == 0,
        call_ensures(net_sums, (text,), sums) ==> (sums is None <==> !net_fits(lines_of(text@))),
        call_ensures(net_sums, (text,), sums) && sums is Some ==> (sums->0).0 == net_totals(
            lines_of(text@),
        ).0 && (sums->0).1 == net_totals(lines_of(text@)).1,
        call_ensures(read_stat, (text,), stat) ==> (stat is None <==> stat_times(text@) is None),
        call_ensures(read_stat, (text,), stat) && stat is Some ==> stat_times(text@) == Some(
            ((stat->0).0, (stat->0).1),
        ) && (stat->0).2 == stat_threads(text@),
        call_ensures(show_command, (command, text), r) && command is None ==> r@ == command_or_name(
            None,
            text@,
        ),
        call_ensures(show_command, (command, text), r) && command is Some ==> r@ == command_or_name(
            Some(command->0@),
            text@,
        ),
        call_ensures(read_command, (Some(raw), text), r) ==> r@ == shown_command(
            Some(raw@),
            text@,
        ),
        call_ensures(read_command, (None, text), r) ==> r@ == shown_command(None, text@),
{
}

/// Cores are taken together to chips, of which each shows what it is made of.
pub proof fn law_group_by_chip(rows: &[DevRow], r: Vec<ChipRow>, i: int)
    requires
        call_ensures(group_by_chip, (rows,), r),
    ensures
        r.len() == chips_of(row_views(rows@)).len(),
        0 <= i < r.len() ==> {
            let chip = chips_of(row_views(rows@))[i];
            &&& r@[i].host@ == chip.host && r@[i].chip == chip.chip && r@[i].pid@ == chip.pid
            &&& r@[i].used == chip.used && r@[i].total == chip.total
            &&& r@[i].metrics_ok == chip.metrics_ok && r@[i].cores@ == chip.cores
        },
{
    let views = crate::rows::chip_views(r@);
    assert(views.len() == r.len());
    if 0 <= i < r.len() {
        assert(views[i] == r@[i]@);
    }
}

/// The users that are known are those of the list, each under its name.
pub proof fn law_read_users(file: Option<&str>, r: HashMap<u32, String>, uid: u32)
    requires
        call_ensures(read_users, (file,), r),
    ensures
        r@.dom().contains(uid) <==> users_of(file_lines(file)).dom().contains(uid),
        r@.dom().contains(uid) ==> r@[uid]@ == users_of(file_lines(file))[uid],
{
    let names = crate::procfs::user_names(r@);
    assert(names.dom().contains(uid) <==> r@.dom().contains(uid));
    if r@.dom().contains(uid) {
        assert(names[uid] == r@[uid]@);
    }
}

/// A round that is taken in stands last in both series, without its fractions; of the rounds
/// before, only the oldest is lost, once there are more than are kept.
pub proof fn law_record(
    history: &mut History,
    duty: Option<Reading>,
    hbm: Option<Reading>,
    shown: Vec<u64>,
    kept_history: &History,
)
    requires
        old(history)@.well_formed(),
        call_ensures(History::record, (history, duty, hbm), ()),
    ensures
        final(history)@.well_formed(),
        final(history)@.duty.last() == match duty {
            Some(v) => v.truncated(),
            None => 0,
        },
        final(history)@.hbm.last() == match hbm {
            Some(v) => v.truncated(),
            None => 0,
        },
        old(history)@.duty.len() < 240 ==> final(history)@.duty.drop_last()
            =~= old(history)@.duty && final(history)@.hbm.drop_last() =~= old(history)@.hbm,
        old(history)@.duty.len() == 240 ==> final(history)@.duty.drop_last()
            =~= old(history)@.duty.drop_first() && final(history)@.hbm.drop_last()
            =~= old(history)@.hbm.drop_first(),
        call_ensures(History::duty_values, (kept_history,), shown) ==> shown@ == kept_history@.duty,
        call_ensures(History::hbm_values, (kept_history,), shown) ==> shown@ == kept_history@.hbm,
{
    law_one_more_round(old(history)@, whole_percent(duty), whole_percent(hbm));
}

/// What is shown after a round is what was found in it, part by part, under the machine's
/// name, with the series as they are then.
pub proof fn law_round(
    session: &mut Session,
    found: Collected,
    duty: Option<Reading>,
    hbm: Option<Reading>,
    host: HostStats,
    procs: Vec<ProcInfo>,
    io: IoStats,
    r: App,
)
    requires
        old(session)@.history.well_formed(),
        call_ensures(Session::round, (session, found, duty, hbm, host, procs, io), r),
    ensures
        r.chip@ == old(session)@.chip && final(session)@.chip == old(session)@.chip,
        r.chips == old(session)@.chips && final(session)@.chips == old(session)@.chips,
        r.cores == old(session)@.cores && final(session)@.cores == old(session)@.cores,
        r.multi_host == old(session)@.multi_host && final(session)@.multi_host
            == old(session)@.multi_host,
        r.duty_hist@ == final(session)@.history.duty && r.duty_hist@.last() == match duty {
            Some(v) => v.truncated(),
            None => 0,
        },
        r.hbm_hist@ == final(session)@.history.hbm && r.hbm_hist@.last() == match hbm {
            Some(v) => v.truncated(),
            None => 0,
        },
        old(session)@.history.duty.len() < 240 ==> r.duty_hist@.drop_last()
            =~= old(session)@.history.duty && r.hbm_hist@.drop_last() =~= old(session)@.history.hbm,
        final(session)@.history.well_formed(),
        r.rows == found.rows && r.any_metrics == found.any_metrics,
        r.uptime_secs == found.uptime_secs && r.slice_error == found.slice_error,
        r.host == host && r.procs == procs && r.io == io,
{
    law_one_more_round(old(session)@.history, whole_percent(duty), whole_percent(hbm));
}

/// An answer is taken in by the step that asked for it: a list of gauges by device, or the
/// largest gauge. Without one of the first three there is no sample; the other two count as
/// zero then.
pub proof fn law_answer(fetch: &mut Fetch, reply: Option<MetricReply>, list: Vec<Metric>)
    requires
        call_ensures(Fetch::answer, (fetch, reply), ()),
    ensures
        reply == Some((MetricReply { metrics: Some(list) })) ==> {
            let (before, after) = (*old(fetch), *final(fetch));
            &&& before.step == Step::Usage ==> after.step == Step::Total
                && after.sample.usage@ == gauges(list@) && after.sample.total@
                == before.sample.total@ && after.sample.duty@ == before.sample.duty@
            &&& before.step == Step::Total ==> after.step == Step::Duty && after.sample.total@
                == gauges(list@) && after.sample.usage@ == before.sample.usage@
                && after.sample.duty@ == before.sample.duty@
            &&& before.step == Step::Duty ==> after.step == Step::Uptime && after.sample.duty@
                == gauges(list@) && after.sample.usage@ == before.sample.usage@
                && after.sample.total@ == before.sample.total@
            &&& before.step == Step::Uptime ==> after.step == Step::SliceError
                && after.sample.uptime_secs == peak(list@)
            &&& before.step == Step::SliceError ==> after.step == Step::Done
                && after.sample.slice_error == peak(list@) && after.sample.uptime_secs
                == before.sample.uptime_secs && after.sample.usage@ == before.sample.usage@
        },
        reply is None ==> {
            let (before, after) = (*old(fetch), *final(fetch));
            &&& before.step == Step::Usage || before.step == Step::Total || before.step
                == Step::Duty ==> after.step == Step::Failed
            &&& before.step == Step::Uptime ==> after.step == Step::SliceError
                && after.sample.uptime_secs == before.sample.uptime_secs
            &&& before.step == Step::SliceError ==> after.step == Step::Done
                && after.sample.slice_error == before.sample.slice_error
        },
        old(fetch).step == Step::Failed ==> final(fetch).step == Step::Failed,
{
    assert(final(fetch).sample@.usage == final(fetch).sample.usage@);
    assert(old(fetch).sample@.usage == old(fetch).sample.usage@);
}

/// A sample lists the processes that hold devices and measures the traffic since the one
/// before, each counter for itself, and keeps what the next one needs.
pub proof fn law_sample(
    monitor: &mut SysMon,
    now_ns: u64,
    owners: &BTreeMap<i64, i32>,
    files: &Vec<ProcFiles>,
    disk: Option<&str>,
    net: Option<&str>,
    r: (Vec<ProcInfo>, IoStats),
    i: int,
    j: int,
)
    requires
        sums_fit(files@, net),
        call_ensures(SysMon::sample, (monitor, now_ns, owners, files, disk, net), r),
    ensures
        0 <= i < j < r.0.len() ==> r.0@[i].cpu_ticks >= r.0@[j].cpu_ticks && r.0@[i].pid
            != r.0@[j].pid,
        lists(infos(r.0@), old(monitor)@, now_ns, owners@, files@),
        r.1.disk_dev@ == old(monitor)@.disk_dev,
        r.1.elapsed_ns == old(monitor)@.elapsed(now_ns),
        (r.1.disk_r, r.1.disk_w) == traffic(
            disk_now(disk, old(monitor)@.disk_dev),
            old(monitor)@.prev_disk,
            r.1.elapsed_ns,
        ),
        (r.1.net_rx, r.1.net_tx) == traffic(net_now(net), old(monitor)@.prev_net, r.1.elapsed_ns),
        final(monitor)@ == old(monitor)@.after(now_ns, owners@, files@, disk, net),
{
    law_list_of_processes(
        r.0@,
        old(monitor)@,
        now_ns,
        owners@,
        files@,
        0,
        i,
        j,
    );
}

/// A process is described by its own files, or not at all.
pub proof fn law_read_proc(
    monitor: &SysMon,
    files: &ProcFiles,
    elapsed_ns: u64,
    devices: &str,
    r: Option<(ProcInfo, u64)>,
)
    requires
        ticks_fit(*files),
        call_ensures(SysMon::read_proc, (monitor, files, elapsed_ns, devices), r),
    ensures
        r is None <==> monitor@.described(*files, elapsed_ns, devices@) is None,
        r is Some ==> {
            let shown = monitor@.described(*files, elapsed_ns, devices@)->0;
            (r->0).0@ == shown.0 && (r->0).1 == shown.1
        },
{
}

/// Texts and their parts.
pub proof fn law_text_calls(
    s: &str,
    t: &str,
    c: char,
    n: usize,
    parts: &Vec<String>,
    list: Vec<String>,
    r: String,
    yes: bool,
    rest: Option<String>,
    ids: &Vec<i64>,
)
    ensures
        call_ensures(same, (s, t), yes) ==> (yes <==> s@ == t@),
        call_ensures(split, (s, c), list) ==> texts(list@) == cut_at(s@, c),
        call_ensures(words, (s,), list) ==> texts(list@) == words_of(s@),
        call_ensures(lines, (s,), list) ==> texts(list@) == lines_of(s@),
        call_ensures(trim, (s,), r) ==> r@ == trimmed(s@),
        call_ensures(begins, (s, t), yes) ==> (yes <==> t@.len() <= s@.len() && s@.take(
            t@.len() as int,
        ) =~= t@),
        call_ensures(after_prefix, (s, t), rest) && rest is Some ==> s@ =~= t@ + rest->0@,
        call_ensures(after_prefix, (s, t), rest) && rest is None ==> !t@.is_prefix_of(s@),
        call_ensures(strip_prefixes, (s, t), r) ==> r@ == without_prefixes(s@, t@),
        call_ensures(join, (parts, s), r) ==> r@ == joined(texts(parts@), s@),
        call_ensures(head, (s, n), r) ==> r@ == at_most(s@, n as nat),
        call_ensures(in_order, (s, t), yes) ==> yes == no_later(s@, t@),
        call_ensures(sort, (parts,), list) ==> texts(list@) == in_code_order(texts(parts@)),
        call_ensures(compress, (ids,), r) ==> r@ == ids_text(ids@.to_set()),
{
}

/// What is kept between rounds and samples before the first one: nothing but what the machine
/// is, who its users are and where the disk is.
pub proof fn law_new_state(
    info: &DeviceInfo,
    hosts: usize,
    session: Session,
    history: History,
    mount: &str,
    passwd: Option<&str>,
    meminfo: Option<&str>,
    mounts: Option<&str>,
    monitor: SysMon,
    fetch: Fetch,
)
    ensures
        call_ensures(Session::new, (info, hosts), session) ==> {
            &&& info.chip is Some ==> session@.chip == info.chip->0.name@
            &&& info.chip is None ==> session@.chip == "unknown"@
            &&& session@.chips == info.chips && session@.cores == info.cores
            &&& session@.multi_host <==> hosts >= 2
            &&& session@.history.duty.len() == 0 && session@.history.hbm.len() == 0
        },
        call_ensures(History::new, (), history) ==> history@.duty.len() == 0 && history@.hbm.len()
            == 0,
        call_ensures(SysMon::new, (mount, passwd, meminfo, mounts), monitor) ==> {
            &&& monitor@.users == users_of(file_lines(passwd))
            &&& monitor@.mem_total_kb == labelled_number(file_lines(meminfo), "MemTotal:"@)
            &&& monitor@.disk_dev == mounted_device(file_lines(mounts), mount@)
            &&& monitor@.prev_cpu.dom().is_empty()
            &&& monitor@.prev_ns is None && monitor@.prev_disk is None && monitor@.prev_net is None
        },
        call_ensures(Fetch::new, (), fetch) ==> fetch.step == Step::Usage,
{
}

/// A sample is asked for step by step and is there exactly once all steps are done.
pub proof fn law_fetch_calls(
    fetch: Fetch,
    asked: &Fetch,
    name: Option<&'static str>,
    r: Option<Usage>,
)
    ensures
        call_ensures(Fetch::finish, (fetch,), r) ==> (r is Some <==> fetch.step == Step::Done),
        call_ensures(Fetch::finish, (fetch,), r) && r is Some ==> r->0 == fetch.sample,
        call_ensures(Fetch::request, (asked,), name) && name is Some
            ==> crate::metrics::metric_name(asked.step) == Some(name->0@),
        call_ensures(Fetch::request, (asked,), name) && name is None
            ==> crate::metrics::metric_name(asked.step) is None,
{
}

/// The processes that hold devices are exactly the owners, each once; and samples can be
/// taken exactly where all sums fit.
pub proof fn law_holder_calls(
    owners: &BTreeMap<i64, i32>,
    r: Vec<i32>,
    dev: i64,
    files: &Vec<ProcFiles>,
    net: Option<&str>,
    yes: bool,
    i: int,
    j: int,
)
    ensures
        call_ensures(holders, (owners,), r) && owners@.dom().contains(dev) ==> r@.contains(
            owners@[dev],
        ),
        call_ensures(holders, (owners,), r) && 0 <= i < r.len() ==> exists|d: i64| #[trigger]
            owners@.dom().contains(d) && owners@[d] == r@[i],
        call_ensures(holders, (owners,), r) && 0 <= i < j < r.len() ==> r@[i] != r@[j],
        call_ensures(countable, (files, net), yes) ==> yes == sums_fit(files@, net),
{
    if call_ensures(holders, (owners,), r) {
        if owners@.dom().contains(dev) {
            assert(owners@.values().contains(owners@[dev]));
        }
        if 0 <= i < r.len() {
            assert(r@.contains(r@[i]));
            assert(owners@.values().contains(r@[i]));
        }
    }
}

} // verus!
