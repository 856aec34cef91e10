//! The live view: what each of its panels shows.
use vstd::prelude::*;

use crate::format::{
    bar, bar_blocks, bar_text, clock_text, fmt_gib, fmt_mem, fmt_time, fmt_uptime, full_blocks,
    gib_text, load_tint, mem_text, ratio_color, ratio_tint, uptime_text, util_color, Tint,
};
use crate::host::HostStats;
use crate::layout::{
    all_due, all_lengths, all_wanted, can_grow, end, extent, in_line, is_due, is_part, lay_out,
    least_wanted, percentages_fit, start, to_the_end, Area, Axis, Panes, Plan, Size,
};
use crate::number::{decimal, pad_left, padded_left, show, show_i64, signed_decimal};
use crate::panel::{
    bold, header, header_cells, piece, piece_views, plain, table_row_views, GaugePanel,
    GaugePanelView, Piece, PieceView, SparkPanel, SparkPanelView, TablePanel, TablePanelView,
    TableRow, TableRowView, TextPanel, TextPanelView,
};
use crate::reading::{lemma_one, lemma_zero, whole_reading, Reading};
use crate::rows::{chip_views, chips_of, group_by_chip, row_views, ChipRow, ChipView, DevRow};
use crate::sysmon::{infos, IoStats, ProcInfo, ProcView};
use crate::text::{at_most, head, join, joined, texts};

verus! {

/// What the live view shows.
pub struct App {
    /// The name of this machine's chips.
    pub chip: String,
    pub chips: usize,
    pub cores: usize,
    /// Whether the rows are of several hosts.
    pub multi_host: bool,
    pub rows: Vec<DevRow>,
    pub host: HostStats,
    /// The load of the last rounds, in percent.
    pub duty_hist: Vec<u64>,
    pub hbm_hist: Vec<u64>,
    /// Whether any worker reported.
    pub any_metrics: bool,
    pub procs: Vec<ProcInfo>,
    pub io: IoStats,
    pub uptime_secs: Reading,
    /// Not zero where a slice has a fault.
    pub slice_error: Reading,
}

/// The figures of a chip.
pub struct ChipFigures {
    /// Its memory in use over all of it, in percent; it counts only where there is any.
    pub hbm_pct: Reading,
    /// The same, to the nearest whole number.
    pub pct: String,
    /// Its memory in gibibytes, to the nearest tenth and whole number.
    pub used: String,
    pub total: String,
    /// The duty cycle of each core in percent, to the nearest whole number.
    pub duties: Vec<String>,
}

/// The figures of a process.
pub struct ProcFigures {
    /// Its share of a processor, in percent.
    pub cpu_pct: Reading,
    /// The same, to the nearest whole number.
    pub cpu: String,
    /// Its share of the memory in percent, to the nearest tenth.
    pub mem: String,
}

/// The figures of the host and its traffic.
pub struct HostFigures {
    /// The load of the processors over a hundred percent.
    pub cpu_quotient: Reading,
    /// Memory in use over all memory; it counts only where there is any.
    pub mem_quotient: Reading,
    /// Space in use over all space of the disk; it counts only where there is any.
    pub disk_quotient: Reading,
    /// The load of the processors in percent, to the nearest whole number.
    pub cpu_text: String,
    pub io: IoFigures,
}

/// Traffic in megabytes per second, to the nearest whole numbers.
pub struct IoFigures {
    pub disk_r: String,
    pub disk_w: String,
    pub net_rx: String,
    pub net_tx: String,
}

/// How full something is, in percent, where `total` is what there is and `pct` what its
/// used part comes to; zero where there is nothing.
pub open spec fn share_of(total: Reading, pct: Reading) -> Reading {
    if whole_reading(0).is_below(total) {
        pct
    } else {
        whole_reading(0)
    }
}

/// How full something is, in percent.
pub fn hbm_share(total: Reading, pct: Reading) -> (r: Reading)
    ensures
        r == share_of(total, pct),
{
    let zero = Reading::from_count(0);
    if zero.below(total) {
        pct
    } else {
        zero
    }
}

/// A ratio kept from zero to one.
pub open spec fn kept(quotient: Reading) -> Reading {
    quotient.within(whole_reading(0), whole_reading(1))
}

/// How full something is, from zero to one, where `total` is what there is and
/// `quotient` what its used part comes to; zero where there is nothing.
pub open spec fn kept_of(total: u64, quotient: Reading) -> Reading {
    if total > 0 {
        kept(quotient)
    } else {
        whole_reading(0)
    }
}

/// A ratio kept from zero to one.
pub fn ratio(quotient: Reading) -> (r: Reading)
    ensures
        r == kept(quotient),
{
    quotient.clamp(Reading::from_count(0), Reading::from_count(1))
}

/// How full something is, from zero to one, where `total` is what there is and
/// `quotient` what its used part comes to; zero where there is nothing.
pub fn ratio_of(total: u64, quotient: Reading) -> (r: Reading)
    ensures
        r == kept_of(total, quotient),
{
    if total > 0 {
        ratio(quotient)
    } else {
        Reading::from_count(0)
    }
}

/// Whether a ratio is one that a gauge can show: a number from zero to one.
pub open spec fn is_ratio(r: Reading) -> bool {
    !r.is_nan() && !r.is_below(whole_reading(0)) && !whole_reading(1).is_below(r)
}

/// A quotient that is a number is kept from zero to one, and what is there already stays.
pub proof fn law_ratio_fits_gauge(total: u64, quotient: Reading)
    requires
        !quotient.is_nan(),
    ensures
        is_ratio(kept(quotient)),
        is_ratio(kept_of(total, quotient)),
        is_ratio(quotient) ==> kept(quotient) == quotient,
{
    lemma_zero();
    lemma_one();
}

/// Whether the row at position `i` has a background of its own: every second one.
pub open spec fn stripe(i: int) -> bool {
    i % 2 == 1
}

/// The line about the chips, the runtime and the host.
pub open spec fn header_line(
    chip: Seq<char>,
    chips: nat,
    cores: nat,
    any_metrics: bool,
    uptime_secs: Reading,
    slice_error: Reading,
    hostname: Seq<char>,
) -> Seq<PieceView> {
    seq![
        plain("  TPU "@, Tint::Gray),
        bold(chip, Tint::Accent),
        plain("  chips="@ + decimal(chips) + " cores="@ + decimal(cores), Tint::Gray),
        plain("    "@, Tint::Plain),
        if any_metrics {
            bold("● ACTIVE"@, Tint::Green)
        } else {
            bold("○ IDLE"@, Tint::Dim)
        },
        plain("   up "@ + uptime_text(uptime_secs.truncated() as nat), Tint::Gray),
        plain("   "@, Tint::Plain),
        if slice_error.is_zero() {
            bold("slice: OK"@, Tint::Green)
        } else {
            bold("slice: ERROR!"@, Tint::Red)
        },
        plain("   host "@ + hostname, Tint::Dim),
    ]
}

/// The header: the chips, the runtime, the host, and how to leave.
pub open spec fn header_panel(app: App) -> TextPanelView {
    TextPanelView {
        title: " ⣿ tpu-monitor "@,
        border: Tint::Accent,
        line: header_line(
            app.chip@,
            app.chips as nat,
            app.cores as nat,
            app.any_metrics,
            app.uptime_secs,
            app.slice_error,
            app.host.hostname@,
        ),
        hint: Some(plain("[q] quit "@, Tint::Dim)),
    }
}

/// The header: the chips, the runtime, the host, and how to leave.
pub fn draw_header(app: &App) -> (r: TextPanel)
    ensures
        r@ == header_panel(*app),
{
    let mut counts = "  chips=".to_string();
    counts.append(show(app.chips as u64).as_str());
    counts.append(" cores=");
    counts.append(show(app.cores as u64).as_str());
    let mut up = "   up ".to_string();
    up.append(fmt_uptime(app.uptime_secs).as_str());
    let mut host = "   host ".to_string();
    host.append(app.host.hostname.as_str());
    let mut line: Vec<Piece> = Vec::new();
    line.push(piece("  TPU ", Tint::Gray, false));
    line.push(piece(app.chip.as_str(), Tint::Accent, true));
    line.push(piece(counts.as_str(), Tint::Gray, false));
    line.push(piece("    ", Tint::Plain, false));
    if app.any_metrics {
        line.push(piece("● ACTIVE", Tint::Green, true));
    } else {
        line.push(piece("○ IDLE", Tint::Dim, true));
    }
    line.push(piece(up.as_str(), Tint::Gray, false));
    line.push(piece("   ", Tint::Plain, false));
    if app.slice_error.zero() {
        line.push(piece("slice: OK", Tint::Green, true));
    } else {
        line.push(piece("slice: ERROR!", Tint::Red, true));
    }
    line.push(piece(host.as_str(), Tint::Dim, false));
    assert(piece_views(line@) =~= header_panel(*app).line);
    TextPanel {
        title: " ⣿ tpu-monitor ".to_string(),
        border: Tint::Accent,
        line,
        hint: Some(piece("[q] quit ", Tint::Dim, false)),
    }
}

/// Whether some chip has several cores.
pub open spec fn multi_core(chips: Seq<ChipView>) -> bool {
    exists|i: int| 0 <= i < chips.len() && (#[trigger] chips[i]).cores.len() > 1
}

/// The columns of the table of chips. The host is named only if there are several.
pub open spec fn chip_columns(multi_host: bool, multi_core: bool) -> Seq<Seq<char>> {
    let columns = seq![
        "CHIP"@,
        "PID"@,
        "HBM"@,
        "USED/TOTAL"@,
        if multi_core {
            "TC Util /core"@
        } else {
            "TC Util"@
        },
    ];
    if multi_host {
        seq!["HOST"@] + columns
    } else {
        columns
    }
}

/// The widths of these columns.
pub open spec fn chip_widths(multi_host: bool) -> Seq<Size> {
    let widths = seq![
        Size::Length(5),
        Size::Length(8),
        Size::Length(14),
        Size::Length(14),
        Size::Min(16),
    ];
    if multi_host {
        seq![Size::Length(18)] + widths
    } else {
        widths
    }
}

/// The duty cycle of a core, with its number where chips have several.
pub open spec fn core_text(core: i64, duty: Seq<char>, multi_core: bool) -> Seq<char> {
    let pct = padded_left(duty, 3) + "%"@;
    if multi_core {
        "c"@ + signed_decimal(core as int) + ":"@ + pct
    } else {
        pct
    }
}

/// The duty cycles of a chip's cores; those of a chip that was not measured are zero.
pub open spec fn cores_text(chip: ChipView, duties: Seq<Seq<char>>, multi_core: bool) -> Seq<char> {
    joined(
        Seq::new(
            chip.cores.len(),
            |i: int|
                core_text(
                    chip.cores[i].0,
                    if chip.metrics_ok {
                        duties[i]
                    } else {
                        "0"@
                    },
                    multi_core,
                ),
        ),
        "  "@,
    )
}

/// The largest duty cycle of a chip's cores, at least zero.
pub open spec fn busiest(cores: Seq<(i64, Reading)>) -> Reading
    decreases cores.len(),
{
    if cores.len() == 0 {
        whole_reading(0)
    } else {
        busiest(cores.drop_last()).larger(cores.last().1)
    }
}

/// The cells of a chip.
pub open spec fn chip_cells(
    chip: ChipView,
    figures: ChipFigures,
    multi_host: bool,
    multi_core: bool,
) -> Seq<PieceView> {
    let names = seq![
        plain(signed_decimal(chip.chip as int), Tint::Accent),
        plain(chip.pid, Tint::Gray),
    ];
    let duty = cores_text(chip, texts(figures.duties@), multi_core);
    let pct = share_of(chip.total, figures.hbm_pct);
    let shown_pct = if whole_reading(0).is_below(chip.total) {
        figures.pct@
    } else {
        "0"@
    };
    let load = if chip.metrics_ok {
        seq![
            plain(
                bar_text(full_blocks(pct), 8) + " "@ + padded_left(shown_pct, 3) + "%"@,
                load_tint(pct),
            ),
            plain(figures.used@ + "/"@ + figures.total@ + " GiB"@, Tint::Gray),
            plain(duty, load_tint(busiest(chip.cores))),
        ]
    } else {
        seq![
            plain(bar_text(0, 8) + "   0%"@, Tint::Dim),
            plain("—/"@ + figures.total@ + " GiB"@, Tint::Dim),
            plain(duty, Tint::Dim),
        ]
    };
    if multi_host {
        seq![plain(chip.host, Tint::Gray)] + names + load
    } else {
        names + load
    }
}

/// The table of chips.
pub open spec fn chip_panel(
    chips: Seq<ChipView>,
    figures: Seq<ChipFigures>,
    multi_host: bool,
) -> TablePanelView {
    TablePanelView {
        title: " Chips (per-core TC Util) "@,
        header: header_cells(chip_columns(multi_host, multi_core(chips))),
        rows: Seq::new(
            chips.len(),
            |i: int|
                TableRowView {
                    cells: chip_cells(chips[i], figures[i], multi_host, multi_core(chips)),
                    striped: stripe(i),
                },
        ),
        widths: chip_widths(multi_host),
        spacing: 2,
    }
}

/// Whether there are figures for each chip and each of its cores.
pub open spec fn figures_match(chips: Seq<ChipView>, figures: Seq<ChipFigures>) -> bool {
    &&& chips.len() == figures.len()
    &&& forall|i: int|
        0 <= i < chips.len() ==> (#[trigger] figures[i]).duties.len() == chips[i].cores.len()
}

fn any_multi_core(chips: &Vec<ChipRow>) -> (r: bool)
    ensures
        r == multi_core(chip_views(chips@)),
{
    let ghost views = chip_views(chips@);
    let mut i: usize = 0;
    while i < chips.len()
        invariant
            i <= chips.len(),
            views == chip_views(chips@),
            forall|k: int| 0 <= k < i ==> (#[trigger] views[k]).cores.len() <= 1,
        decreases chips.len() - i,
    {
        assert(views[i as int] == chips@[i as int]@);
        if chips[i].cores.len() > 1 {
            return true;
        }
        i = i + 1;
    }
    false
}

fn show_core(core: i64, duty: &str, multi_core: bool) -> (r: String)
    ensures
        r@ == core_text(core, duty@, multi_core),
{
    let mut pct = pad_left(duty, 3);
    pct.append("%");
    if multi_core {
        let mut out = "c".to_string();
        out.append(show_i64(core).as_str());
        out.append(":");
        out.append(pct.as_str());
        out
    } else {
        pct
    }
}

fn show_cores(chip: &ChipRow, duties: &Vec<String>, multi_core: bool) -> (r: String)
    requires
        duties.len() == chip.cores.len(),
    ensures
        r@ == cores_text(chip@, texts(duties@), multi_core),
{
    let mut parts: Vec<String> = Vec::new();
    let mut i: usize = 0;
    while i < chip.cores.len()
        invariant
            i <= chip.cores.len(),
            duties.len() == chip.cores.len(),
            parts.len() == i,
            forall|k: int|
                0 <= k < i ==> (#[trigger] parts@[k])@ == core_text(
                    chip.cores@[k].0,
                    if chip.metrics_ok {
                        duties@[k]@
                    } else {
                        "0"@
                    },
                    multi_core,
                ),
        decreases chip.cores.len() - i,
    {
        let duty = if chip.metrics_ok {
            duties[i].as_str()
        } else {
            "0"
        };
        parts.push(show_core(chip.cores[i].0, duty, multi_core));
        i = i + 1;
    }
    proof {
        let c = chip@;
        let views = texts(duties@);
        assert(texts(parts@) =~= Seq::new(
            c.cores.len(),
            |i: int|
                core_text(
                    c.cores[i].0,
                    if c.metrics_ok {
                        views[i]
                    } else {
                        "0"@
                    },
                    multi_core,
                ),
        ));
    }
    join(&parts, "  ")
}

fn most_busy(cores: &Vec<(i64, Reading)>) -> (r: Reading)
    ensures
        r == busiest(cores@),
{
    let mut top = Reading::from_count(0);
    let mut i: usize = 0;
    while i < cores.len()
        invariant
            i <= cores.len(),
            top == busiest(cores@.take(i as int)),
        decreases cores.len() - i,
    {
        assert(cores@.take(i + 1).drop_last() =~= cores@.take(i as int));
        top = top.max(cores[i].1);
        i = i + 1;
    }
    assert(cores@.take(cores.len() as int) =~= cores@);
    top
}

fn show_chip(chip: &ChipRow, figures: &ChipFigures, multi_host: bool, multi_core: bool) -> (r: Vec<
    Piece,
>)
    requires
        figures.duties.len() == chip.cores.len(),
    ensures
        piece_views(r@) == chip_cells(chip@, *figures, multi_host, multi_core),
{
    let mut cells: Vec<Piece> = Vec::new();
    if multi_host {
        cells.push(piece(chip.host.as_str(), Tint::Gray, false));
    }
    cells.push(piece(show_i64(chip.chip).as_str(), Tint::Accent, false));
    cells.push(piece(chip.pid.as_str(), Tint::Gray, false));
    let duty = show_cores(chip, &figures.duties, multi_core);
    if chip.metrics_ok {
        let pct = hbm_share(chip.total, figures.hbm_pct);
        let shown_pct = if Reading::from_count(0).below(chip.total) {
            figures.pct.as_str()
        } else {
            "0"
        };
        let mut hbm = bar(bar_blocks(pct), 8);
        hbm.append(" ");
        hbm.append(pad_left(shown_pct, 3).as_str());
        hbm.append("%");
        let mut memory = figures.used.clone();
        memory.append("/");
        memory.append(figures.total.as_str());
        memory.append(" GiB");
        cells.push(piece(hbm.as_str(), util_color(pct), false));
        cells.push(piece(memory.as_str(), Tint::Gray, false));
        cells.push(piece(duty.as_str(), util_color(most_busy(&chip.cores)), false));
    } else {
        let mut hbm = bar(0, 8);
        hbm.append("   0%");
        let mut memory = "—/".to_string();
        memory.append(figures.total.as_str());
        memory.append(" GiB");
        cells.push(piece(hbm.as_str(), Tint::Dim, false));
        cells.push(piece(memory.as_str(), Tint::Dim, false));
        cells.push(piece(duty.as_str(), Tint::Dim, false));
    }
    assert(piece_views(cells@) =~= chip_cells(chip@, *figures, multi_host, multi_core));
    cells
}

fn chip_header(multi_host: bool, multi_core: bool) -> (r: Vec<Piece>)
    ensures
        piece_views(r@) == header_cells(chip_columns(multi_host, multi_core)),
{
    let mut names: Vec<&str> = Vec::new();
    if multi_host {
        names.push("HOST");
    }
    names.push("CHIP");
    names.push("PID");
    names.push("HBM");
    names.push("USED/TOTAL");
    if multi_core {
        names.push("TC Util /core");
    } else {
        names.push("TC Util");
    }
    assert(Seq::new(names@.len(), |i: int| names@[i]@) =~= chip_columns(multi_host, multi_core));
    header(&names)
}

fn chip_column_widths(multi_host: bool) -> (r: Vec<Size>)
    ensures
        r@ == chip_widths(multi_host),
{
    let mut widths: Vec<Size> = Vec::new();
    if multi_host {
        widths.push(Size::Length(18));
    }
    widths.push(Size::Length(5));
    widths.push(Size::Length(8));
    widths.push(Size::Length(14));
    widths.push(Size::Length(14));
    widths.push(Size::Min(16));
    assert(widths@ =~= chip_widths(multi_host));
    widths
}

/// The table of chips, from the rows of their cores.
pub fn draw_table(rows: &[DevRow], figures: &[ChipFigures], multi_host: bool) -> (r: TablePanel)
    requires
        figures_match(chips_of(row_views(rows@)), figures@),
    ensures
        r@ == chip_panel(chips_of(row_views(rows@)), figures@, multi_host),
{
    let chips = group_by_chip(rows);
    let ghost views = chip_views(chips@);
    let several = any_multi_core(&chips);
    let mut table: Vec<TableRow> = Vec::new();
    let mut i: usize = 0;
    assert(views.len() == chips.len());
    while i < chips.len()
        invariant
            i <= chips.len(),
            views == chip_views(chips@),
            views.len() == chips.len(),
            figures_match(views, figures@),
            several == multi_core(views),
            table.len() == i,
            forall|k: int|
                0 <= k < i ==> (#[trigger] table@[k])@ == (TableRowView {
                    cells: chip_cells(views[k], figures@[k], multi_host, several),
                    striped: stripe(k),
                }),
        decreases chips.len() - i,
    {
        assert(views[i as int] == chips@[i as int]@);
        assert(figures@[i as int].duties.len() == views[i as int].cores.len());
        let cells = show_chip(&chips[i], &figures[i], multi_host, several);
        table.push(TableRow { cells, striped: i % 2 == 1 });
        i = i + 1;
    }
    proof {
        assert(table_row_views(table@) =~= chip_panel(views, figures@, multi_host).rows);
    }
    TablePanel {
        title: " Chips (per-core TC Util) ".to_string(),
        header: chip_header(multi_host, several),
        rows: table,
        widths: chip_column_widths(multi_host),
        spacing: 2,
    }
}

/// The cells of a process.
pub open spec fn proc_cells(proc_info: ProcView, figures: ProcFigures) -> Seq<PieceView> {
    seq![
        plain(signed_decimal(proc_info.pid as int), Tint::Accent),
        plain(proc_info.user, Tint::Gray),
        plain(figures.cpu@, load_tint(figures.cpu_pct.smaller(whole_reading(100)))),
        plain(mem_text(proc_info.rss_kb as nat), Tint::Plain),
        plain(figures.mem@, Tint::Plain),
        plain(clock_text(proc_info.time_secs as nat), Tint::Plain),
        plain(decimal(proc_info.threads as nat), Tint::Gray),
        plain(proc_info.devices, Tint::Accent),
        plain(at_most(proc_info.cmd, 60), Tint::Gray),
    ]
}

/// The columns of the table of processes.
pub open spec fn proc_columns() -> Seq<Seq<char>> {
    seq![
        "PID"@,
        "USER"@,
        "CPU%"@,
        "RES"@,
        "MEM%"@,
        "TIME+"@,
        "THR"@,
        "DEV"@,
        "COMMAND"@,
    ]
}

/// The widths of these columns.
pub open spec fn proc_widths() -> Seq<Size> {
    seq![
        Size::Length(7),
        Size::Length(10),
        Size::Length(5),
        Size::Length(6),
        Size::Length(5),
        Size::Length(8),
        Size::Length(4),
        Size::Length(6),
        Size::Min(20),
    ]
}

/// The table of processes that hold devices.
pub open spec fn proc_panel(procs: Seq<ProcView>, figures: Seq<ProcFigures>) -> TablePanelView {
    TablePanelView {
        title: if procs.len() == 0 {
            " Processes (none using TPU) "@
        } else {
            " Processes ("@ + decimal(procs.len()) + " using TPU) "@
        },
        header: header_cells(proc_columns()),
        rows: Seq::new(
            procs.len(),
            |i: int| TableRowView { cells: proc_cells(procs[i], figures[i]), striped: stripe(i) },
        ),
        widths: proc_widths(),
        spacing: 1,
    }
}

fn show_proc(info: &ProcInfo, figures: &ProcFigures) -> (r: Vec<Piece>)
    ensures
        piece_views(r@) == proc_cells(info@, *figures),
{
    let load = figures.cpu_pct.min(Reading::from_count(100));
    let mut cells: Vec<Piece> = Vec::new();
    cells.push(piece(show_i64(info.pid as i64).as_str(), Tint::Accent, false));
    cells.push(piece(info.user.as_str(), Tint::Gray, false));
    cells.push(piece(figures.cpu.as_str(), util_color(load), false));
    cells.push(piece(fmt_mem(info.rss_kb).as_str(), Tint::Plain, false));
    cells.push(piece(figures.mem.as_str(), Tint::Plain, false));
    cells.push(piece(fmt_time(info.time_secs).as_str(), Tint::Plain, false));
    cells.push(piece(show(info.threads).as_str(), Tint::Gray, false));
    cells.push(piece(info.devices.as_str(), Tint::Accent, false));
    cells.push(piece(head(info.cmd.as_str(), 60).as_str(), Tint::Gray, false));
    assert(piece_views(cells@) =~= proc_cells(info@, *figures));
    cells
}

fn proc_header() -> (r: Vec<Piece>)
    ensures
        piece_views(r@) == header_cells(proc_columns()),
{
    let mut names: Vec<&str> = Vec::new();
    names.push("PID");
    names.push("USER");
    names.push("CPU%");
    names.push("RES");
    names.push("MEM%");
    names.push("TIME+");
    names.push("THR");
    names.push("DEV");
    names.push("COMMAND");
    assert(Seq::new(names@.len(), |i: int| names@[i]@) =~= proc_columns());
    header(&names)
}

fn proc_column_widths() -> (r: Vec<Size>)
    ensures
        r@ == proc_widths(),
{
    let mut widths: Vec<Size> = Vec::new();
    widths.push(Size::Length(7));
    widths.push(Size::Length(10));
    widths.push(Size::Length(5));
    widths.push(Size::Length(6));
    widths.push(Size::Length(5));
    widths.push(Size::Length(8));
    widths.push(Size::Length(4));
    widths.push(Size::Length(6));
    widths.push(Size::Min(20));
    assert(widths@ =~= proc_widths());
    widths
}

/// The table of processes that hold devices.
pub fn draw_procs(procs: &[ProcInfo], figures: &[ProcFigures]) -> (r: TablePanel)
    requires
        procs.len() == figures.len(),
    ensures
        r@ == proc_panel(infos(procs@), figures@),
{
    let ghost views = infos(procs@);
    let mut table: Vec<TableRow> = Vec::new();
    let mut i: usize = 0;
    while i < procs.len()
        invariant
            i <= procs.len(),
            procs.len() == figures.len(),
            views == infos(procs@),
            table.len() == i,
            forall|k: int|
                0 <= k < i ==> (#[trigger] table@[k])@ == (TableRowView {
                    cells: proc_cells(views[k], figures@[k]),
                    striped: stripe(k),
                }),
        decreases procs.len() - i,
    {
        assert(views[i as int] == procs@[i as int]@);
        table.push(TableRow { cells: show_proc(&procs[i], &figures[i]), striped: i % 2 == 1 });
        i = i + 1;
    }
    assert(table_row_views(table@) =~= proc_panel(views, figures@).rows);
    let title = if procs.len() == 0 {
        " Processes (none using TPU) ".to_string()
    } else {
        let mut out = " Processes (".to_string();
        out.append(show(procs.len() as u64).as_str());
        out.append(" using TPU) ");
        out
    };
    TablePanel {
        title,
        header: proc_header(),
        rows: table,
        widths: proc_column_widths(),
        spacing: 1,
    }
}

/// The last value of a series, zero where it is empty.
pub open spec fn newest_value(series: Seq<u64>) -> u64 {
    if series.len() == 0 {
        0
    } else {
        series.last()
    }
}

/// A series of percentages under its title, which shows the last one.
pub open spec fn spark_panel(title: Seq<char>, series: Seq<u64>, tint: Tint) -> SparkPanelView {
    SparkPanelView {
        title: title + decimal(newest_value(series) as nat) + "% "@,
        data: series,
        tint,
    }
}

fn copied(series: &Vec<u64>) -> (r: Vec<u64>)
    ensures
        r@ == series@,
{
    let mut out: Vec<u64> = Vec::new();
    let mut i: usize = 0;
    while i < series.len()
        invariant
            i <= series.len(),
            out@ == series@.take(i as int),
        decreases series.len() - i,
    {
        out.push(series[i]);
        i = i + 1;
    }
    out
}

fn show_spark(title: &str, series: &Vec<u64>, tint: Tint) -> (r: SparkPanel)
    ensures
        r@ == spark_panel(title@, series@, tint),
{
    let n: usize = series.len();
    let now: u64 = if n == 0 {
        0
    } else {
        series[n - 1]
    };
    let mut full = title.to_string();
    full.append(show(now).as_str());
    full.append("% ");
    SparkPanel { title: full, data: copied(series), tint }
}

/// The load of the last rounds: how busy the cores were, and how full their memory was.
pub fn draw_history(duty_hist: &Vec<u64>, hbm_hist: &Vec<u64>) -> (r: (SparkPanel, SparkPanel))
    ensures
        r.0@ == spark_panel(" TC Util (duty cycle)  "@, duty_hist@, Tint::Green),
        r.1@ == spark_panel(" HBM usage  "@, hbm_hist@, Tint::Accent),
{
    (
        show_spark(" TC Util (duty cycle)  ", duty_hist, Tint::Green),
        show_spark(" HBM usage  ", hbm_hist, Tint::Accent),
    )
}

/// A gauge with a label on it.
pub open spec fn gauge_panel(title: Seq<char>, ratio: Reading, label: Seq<char>) -> GaugePanelView {
    GaugePanelView {
        title,
        ratio,
        tint: ratio_tint(ratio),
        label: bold(label, Tint::White),
    }
}

/// A used part and the whole in gibibytes.
pub open spec fn gib_pair(used: u64, total: u64) -> Seq<char> {
    gib_text(used as nat) + "/"@ + gib_text(total as nat) + " GiB"@
}

/// The line about the traffic.
pub open spec fn io_line(io: IoFigures) -> Seq<PieceView> {
    seq![
        plain("disk "@, Tint::Gray),
        plain("R "@ + io.disk_r@ + " W "@ + io.disk_w@ + " "@, Tint::Green),
        plain("net "@, Tint::Gray),
        plain("↓"@ + io.net_rx@ + " ↑"@ + io.net_tx@, Tint::Accent),
    ]
}

/// The panels about the host.
pub struct HostPanels {
    pub cpu: GaugePanel,
    pub mem: GaugePanel,
    pub disk: GaugePanel,
    pub io: TextPanel,
}

impl HostPanels {
    /// Whether they show the host: its load, memory, disk and traffic.
    pub open spec fn shows(self, host: HostStats, figures: HostFigures) -> bool {
        &&& self.cpu@ == gauge_panel(
            " CPU "@,
            kept(figures.cpu_quotient),
            figures.cpu_text@ + "%"@,
        )
        &&& self.mem@ == gauge_panel(
            " RAM "@,
            kept_of(host.mem_total, figures.mem_quotient),
            gib_pair(host.mem_used, host.mem_total),
        )
        &&& self.disk@ == gauge_panel(
            " "@ + host.disk_mount@ + " "@,
            kept_of(host.disk_total, figures.disk_quotient),
            gib_pair(host.disk_used, host.disk_total),
        )
        &&& self.io@ == (TextPanelView {
            title: " I/O MB/s "@,
            border: Tint::Dim,
            line: io_line(figures.io),
            hint: None,
        })
    }
}

/// Every gauge shows a number from zero to one, and zero where there is nothing to use up,
/// whatever the quotients are, as long as they are numbers.
pub proof fn law_host_gauges_fit(panels: HostPanels, host: HostStats, figures: HostFigures)
    requires
        panels.shows(host, figures),
        !figures.cpu_quotient.is_nan(),
        !figures.mem_quotient.is_nan() || host.mem_total == 0,
        !figures.disk_quotient.is_nan() || host.disk_total == 0,
    ensures
        is_ratio(panels.cpu.ratio) && is_ratio(panels.mem.ratio) && is_ratio(panels.disk.ratio),
        host.mem_total == 0 ==> panels.mem.ratio == whole_reading(0),
        host.disk_total == 0 ==> panels.disk.ratio == whole_reading(0),
{
    lemma_zero();
    lemma_one();
    assert(panels.cpu.ratio == panels.cpu@.ratio);
    assert(panels.mem.ratio == panels.mem@.ratio);
    assert(panels.disk.ratio == panels.disk@.ratio);
}

fn show_gauge(title: &str, ratio: Reading, label: &str) -> (r: GaugePanel)
    ensures
        r@ == gauge_panel(title@, ratio, label@),
{
    GaugePanel {
        title: title.to_string(),
        ratio,
        tint: ratio_color(ratio),
        label: piece(label, Tint::White, true),
    }
}

/// A used part and the whole in gibibytes.
pub fn show_gib_pair(used: u64, total: u64) -> (r: String)
    ensures
        r@ == gib_pair(used, total),
{
    let mut out = fmt_gib(used);
    out.append("/");
    out.append(fmt_gib(total).as_str());
    out.append(" GiB");
    out
}

/// The panels about the host: its load, memory, disk and traffic.
pub fn draw_host(host: &HostStats, figures: &HostFigures) -> (r: HostPanels)
    ensures
        r.shows(*host, *figures),
        r.cpu.ratio == figures.cpu_quotient.within(whole_reading(0), whole_reading(1)),
        r.mem.ratio == if host.mem_total > 0 {
            figures.mem_quotient.within(whole_reading(0), whole_reading(1))
        } else {
            whole_reading(0)
        },
        r.disk.ratio == if host.disk_total > 0 {
            figures.disk_quotient.within(whole_reading(0), whole_reading(1))
        } else {
            whole_reading(0)
        },
{
    let mut load = figures.cpu_text.clone();
    load.append("%");
    let mut mount = " ".to_string();
    mount.append(host.disk_mount.as_str());
    mount.append(" ");
    let mut disk = "R ".to_string();
    disk.append(figures.io.disk_r.as_str());
    disk.append(" W ");
    disk.append(figures.io.disk_w.as_str());
    disk.append(" ");
    let mut net = "↓".to_string();
    net.append(figures.io.net_rx.as_str());
    net.append(" ↑");
    net.append(figures.io.net_tx.as_str());
    let mut line: Vec<Piece> = Vec::new();
    line.push(piece("disk ", Tint::Gray, false));
    line.push(piece(disk.as_str(), Tint::Green, false));
    line.push(piece("net ", Tint::Gray, false));
    line.push(piece(net.as_str(), Tint::Accent, false));
    assert(piece_views(line@) =~= io_line(figures.io));
    HostPanels {
        cpu: show_gauge(" CPU ", ratio(figures.cpu_quotient), load.as_str()),
        mem: show_gauge(
            " RAM ",
            ratio_of(host.mem_total, figures.mem_quotient),
            show_gib_pair(host.mem_used, host.mem_total).as_str(),
        ),
        disk: show_gauge(
            mount.as_str(),
            ratio_of(host.disk_total, figures.disk_quotient),
            show_gib_pair(host.disk_used, host.disk_total).as_str(),
        ),
        io: TextPanel { title: " I/O MB/s ".to_string(), border: Tint::Dim, line, hint: None },
    }
}

/// The heights of the panels: the header, the chips, the processes, the history and the
/// host.
pub open spec fn screen_sizes() -> Seq<Size> {
    seq![Size::Length(3), Size::Min(5), Size::Length(9), Size::Length(6), Size::Length(3)]
}

/// The widths of the two series of the history.
pub open spec fn history_sizes() -> Seq<Size> {
    seq![Size::Percentage(50), Size::Percentage(50)]
}

/// The widths of the panels about the host.
pub open spec fn host_sizes() -> Seq<Size> {
    seq![Size::Percentage(22), Size::Percentage(26), Size::Percentage(26), Size::Percentage(26)]
}

/// All that the live view needs besides what was sampled.
pub struct Figures {
    pub chips: Vec<ChipFigures>,
    pub procs: Vec<ProcFigures>,
    pub host: HostFigures,
}

/// The live view.
pub struct Screen {
    pub header: TextPanel,
    pub chips: TablePanel,
    pub procs: TablePanel,
    pub duty: SparkPanel,
    pub hbm: SparkPanel,
    pub host: HostPanels,
    /// Where the header, the chips, the processes, the history and the host go.
    pub panes: Panes,
    /// Where the two series of the history go.
    pub history_panes: Panes,
    /// Where the panels about the host go.
    pub host_panes: Panes,
}

impl Screen {
    /// Whether every panel shows what was sampled.
    pub open spec fn shows(self, app: App, figures: Figures) -> bool {
        &&& self.header@ == header_panel(app)
        &&& self.chips@ == chip_panel(
            chips_of(row_views(app.rows@)),
            figures.chips@,
            app.multi_host,
        )
        &&& self.procs@ == proc_panel(infos(app.procs@), figures.procs@)
        &&& self.duty@ == spark_panel(" TC Util (duty cycle)  "@, app.duty_hist@, Tint::Green)
        &&& self.hbm@ == spark_panel(" HBM usage  "@, app.hbm_hist@, Tint::Accent)
        &&& self.host.shows(app.host, figures.host)
    }

    /// Whether every panel has its place in `area`.
    pub open spec fn fits(self, area: Area) -> bool {
        &&& self.panes.plan.axis == Axis::Vertical
        &&& self.panes.plan.sizes@ == screen_sizes()
        &&& self.panes.divide(area)
        &&& self.history_panes.plan.axis == Axis::Horizontal
        &&& self.history_panes.plan.sizes@ == history_sizes()
        &&& self.history_panes.divide(self.panes.areas@[3])
        &&& self.host_panes.plan.axis == Axis::Horizontal
        &&& self.host_panes.plan.sizes@ == host_sizes()
        &&& self.host_panes.divide(self.panes.areas@[4])
    }
}

/// Every row of a table has a cell for each column, and every column has a width.
pub proof fn law_rows_fill_columns(
    chip: ChipView,
    chip_figures: ChipFigures,
    multi_host: bool,
    multi_core: bool,
    proc_info: ProcView,
    proc_figures: ProcFigures,
)
    ensures
        chip_cells(chip, chip_figures, multi_host, multi_core).len() == chip_columns(
            multi_host,
            multi_core,
        ).len(),
        chip_widths(multi_host).len() == chip_columns(multi_host, multi_core).len(),
        proc_cells(proc_info, proc_figures).len() == proc_columns().len(),
        proc_widths().len() == proc_columns().len(),
{
}

/// Whether `part` lies within `area`.
pub open spec fn inside(part: Area, area: Area) -> bool {
    &&& area.x <= part.x && part.x + part.width <= area.x + area.width
    &&& area.y <= part.y && part.y + part.height <= area.y + area.height
}

/// No panel reaches beyond the area of the live view.
pub proof fn law_panels_stay_inside(screen: Screen, area: Area, i: int)
    requires
        screen.fits(area),
    ensures
        screen.panes.areas.len() == 5 && screen.history_panes.areas.len() == 2
            && screen.host_panes.areas.len() == 4,
        0 <= i < 5 ==> inside(screen.panes.areas@[i], area),
        0 <= i < 2 ==> inside(screen.history_panes.areas@[i], area),
        0 <= i < 4 ==> inside(screen.host_panes.areas@[i], area),
{
    assert(is_part(screen.panes.areas@[3], area, Axis::Vertical));
    assert(is_part(screen.panes.areas@[4], area, Axis::Vertical));
    if 0 <= i < 2 {
        assert(is_part(screen.history_panes.areas@[i], screen.panes.areas@[3], Axis::Horizontal));
    }
    if 0 <= i < 4 {
        assert(is_part(screen.host_panes.areas@[i], screen.panes.areas@[4], Axis::Horizontal));
    }
    if 0 <= i < 5 {
        assert(is_part(screen.panes.areas@[i], area, Axis::Vertical));
    }
}

/// The lines of the table of chips on a terminal of so many lines: all that the other panels
/// leave, but at least 5, or all there are.
pub open spec fn chip_lines(height: nat) -> nat {
    if height >= 26 {
        (height - 21) as nat
    } else if height >= 5 {
        5
    } else {
        height
    }
}

/// The live view covers all lines of its area: the header, the chips, the processes, the
/// history and the host stand below each other, from the first line to the last. The chips
/// have what the others leave and go before them where lines are short; from 26 lines on
/// the others have 3, 9, 6 and 3, and never more.
pub proof fn law_screen_covers_lines(screen: Screen, area: Area)
    requires
        screen.fits(area),
        area.y + area.height <= u16::MAX,
    ensures
        ({
            let panes = screen.panes.areas@;
            &&& panes[0].y == area.y
            &&& panes[1].y == panes[0].y + panes[0].height
            &&& panes[2].y == panes[1].y + panes[1].height
            &&& panes[3].y == panes[2].y + panes[2].height
            &&& panes[4].y == panes[3].y + panes[3].height
            &&& panes[4].y + panes[4].height == area.y + area.height
            &&& panes[0].height + panes[1].height + panes[2].height + panes[3].height
                + panes[4].height == area.height
            &&& panes[1].height == chip_lines(area.height as nat)
            &&& panes[0].height <= 3 && panes[2].height <= 9 && panes[3].height <= 6
                && panes[4].height <= 3
            &&& area.height >= 26 ==> panes[0].height == 3 && panes[2].height == 9
                && panes[3].height == 6 && panes[4].height == 3
        }),
{
    let sizes = screen_sizes();
    let panes = screen.panes.areas@;
    let axis = Axis::Vertical;
    assert(all_wanted(sizes) == 26 && least_wanted(sizes) == 5) by {
        reveal_with_fuel(all_wanted, 6);
        reveal_with_fuel(least_wanted, 6);
    }
    assert(sizes[1] is Min);
    assert(all_lengths(sizes) && can_grow(sizes));
    assert(in_line(panes, area, axis) && all_due(panes, area, axis, sizes));
    assert(to_the_end(panes, area, axis));
    assert(is_due(extent(panes[0], axis), sizes[0], 26, 5, area.height as nat));
    assert(is_due(extent(panes[1], axis), sizes[1], 26, 5, area.height as nat));
    assert(is_due(extent(panes[2], axis), sizes[2], 26, 5, area.height as nat));
    assert(is_due(extent(panes[3], axis), sizes[3], 26, 5, area.height as nat));
    assert(is_due(extent(panes[4], axis), sizes[4], 26, 5, area.height as nat));
    assert(start(panes[1], axis) == end(panes[0], axis));
    assert(start(panes[2], axis) == end(panes[1], axis));
    assert(start(panes[3], axis) == end(panes[2], axis));
    assert(start(panes[4], axis) == end(panes[3], axis));
}

/// The live view covers the width of its area: the first three panels reach across it, and
/// so do the two series of the history, side by side, and the four panels about the host.
pub proof fn law_screen_covers_width(screen: Screen, area: Area)
    requires
        screen.fits(area),
        area.x + area.width <= u16::MAX,
    ensures
        ({
            let panes = screen.panes.areas@;
            let series = screen.history_panes.areas@;
            let host = screen.host_panes.areas@;
            &&& forall|i: int|
                0 <= i < 5 ==> (#[trigger] panes[i]).x == area.x && panes[i].width == area.width
            &&& series[0].x == area.x
            &&& series[1].x == series[0].x + series[0].width
            &&& series[0].width + series[1].width == area.width
            &&& host[0].x == area.x
            &&& host[1].x == host[0].x + host[0].width
            &&& host[2].x == host[1].x + host[1].width
            &&& host[3].x == host[2].x + host[2].width
            &&& host[0].width + host[1].width + host[2].width + host[3].width == area.width
        }),
{
    let panes = screen.panes.areas@;
    let series = screen.history_panes.areas@;
    let host = screen.host_panes.areas@;
    let axis = Axis::Horizontal;
    assert forall|i: int| 0 <= i < 5 implies (#[trigger] panes[i]).x == area.x && panes[i].width
        == area.width by {
        assert(is_part(panes[i], area, Axis::Vertical));
    }
    assert(panes[3].x == area.x && panes[4].x == area.x);
    reveal_with_fuel(all_wanted, 5);
    assert(percentages_fit(history_sizes()) && all_wanted(history_sizes()) == 100);
    assert(percentages_fit(host_sizes()) && all_wanted(host_sizes()) == 100);
    assert(in_line(series, panes[3], axis) && to_the_end(series, panes[3], axis));
    assert(in_line(host, panes[4], axis) && to_the_end(host, panes[4], axis));
    assert(start(series[1], axis) == end(series[0], axis));
    assert(start(host[1], axis) == end(host[0], axis));
    assert(start(host[2], axis) == end(host[1], axis));
    assert(start(host[3], axis) == end(host[2], axis));
}

/// Whether there are figures for all that the live view shows.
pub open spec fn figures_suffice(app: App, figures: Figures) -> bool {
    &&& figures_match(chips_of(row_views(app.rows@)), figures.chips@)
    &&& app.procs.len() == figures.procs.len()
}

/// Whether there are figures for all that the live view shows.
pub fn complete(app: &App, figures: &Figures) -> (r: bool)
    ensures
        r == figures_suffice(*app, *figures),
{
    let chips = group_by_chip(app.rows.as_slice());
    let ghost views = chip_views(chips@);
    assert(views.len() == chips.len());
    if chips.len() != figures.chips.len() || app.procs.len() != figures.procs.len() {
        return false;
    }
    let mut i: usize = 0;
    while i < chips.len()
        invariant
            i <= chips.len(),
            chips.len() == figures.chips.len(),
            views == chip_views(chips@),
            views == chips_of(row_views(app.rows@)),
            forall|k: int|
                0 <= k < i ==> (#[trigger] figures.chips@[k]).duties.len() == views[k].cores.len(),
        decreases chips.len() - i,
    {
        assert(views[i as int] == chips@[i as int]@);
        if figures.chips[i].duties.len() != chips[i].cores.len() {
            assert(figures.chips@[i as int].duties.len() != views[i as int].cores.len());
            return false;
        }
        i = i + 1;
    }
    true
}

/// The live view of what was sampled, laid out over `area`.
pub fn draw(app: &App, figures: &Figures, area: Area) -> (r: Screen)
    requires
        figures_suffice(*app, *figures),
    ensures
        r.shows(*app, *figures),
        r.fits(area),
{
    let mut heights: Vec<Size> = Vec::new();
    heights.push(Size::Length(3));
    heights.push(Size::Min(5));
    heights.push(Size::Length(9));
    heights.push(Size::Length(6));
    heights.push(Size::Length(3));
    assert(heights@ =~= screen_sizes());
    let panes = lay_out(Plan { axis: Axis::Vertical, sizes: heights }, area);
    let mut halves: Vec<Size> = Vec::new();
    halves.push(Size::Percentage(50));
    halves.push(Size::Percentage(50));
    assert(halves@ =~= history_sizes());
    let history_panes = lay_out(Plan { axis: Axis::Horizontal, sizes: halves }, panes.areas[3]);
    let mut quarters: Vec<Size> = Vec::new();
    quarters.push(Size::Percentage(22));
    quarters.push(Size::Percentage(26));
    quarters.push(Size::Percentage(26));
    quarters.push(Size::Percentage(26));
    assert(quarters@ =~= host_sizes());
    let host_panes = lay_out(Plan { axis: Axis::Horizontal, sizes: quarters }, panes.areas[4]);
    let (duty, hbm) = draw_history(&app.duty_hist, &app.hbm_hist);
    Screen {
        header: draw_header(app),
        chips: draw_table(app.rows.as_slice(), figures.chips.as_slice(), app.multi_host),
        procs: draw_procs(app.procs.as_slice(), figures.procs.as_slice()),
        duty,
        hbm,
        host: draw_host(&app.host, &figures.host),
        panes,
        history_panes,
        host_panes,
    }
}

} // verus!
