//! Laws of the live view.
use vstd::prelude::*;

use crate::format::{
    bar_text, clock_text, full_blocks, gib_text, load_tint, mem_text, ratio_tint, uptime_text, Tint,
};
use crate::host::HostStats;
use crate::laws::reading::{law_special_readings, law_whole_readings_are_ordered};
use crate::laws::text::law_joining_parts;
use crate::layout::{Area, Axis, Size};
use crate::number::{decimal, padded_left, signed_decimal};
use crate::panel::{
    header_cells, piece_views, table_row_views, GaugePanel, Piece, SparkPanel, TablePanel,
    TextPanel,
};
use crate::reading::{lemma_one, lemma_zero, whole_reading, Reading};
use crate::rows::{chips_of, row_views, ChipView, DevRow};
use crate::snapshot::banner_text;
use crate::sysmon::{infos, ProcInfo, ProcView};
use crate::text::{at_most, joined, texts};
use crate::ui::{
    busiest, chip_cells, chip_columns, chip_panel, chip_widths, core_text, cores_text,
    figures_match, figures_suffice, header_line, header_panel, kept, kept_of, multi_core,
    newest_value, proc_cells, proc_panel, share_of, spark_panel, App, ChipFigures, Figures,
    HostFigures, HostPanels, ProcFigures, Screen,
};

verus! {

/// Whether a piece shows `text` in one style.
pub open spec fn is_piece(p: Piece, text: Seq<char>, tint: Tint, bold: bool) -> bool {
    p.text@ == text && p.tint == tint && p.bold == bold
}

/// Whether a reading says that the slice has no fault: a zero of either sign.
pub open spec fn healthy(slice_error: Reading) -> bool {
    slice_error.bits == 0 || slice_error.bits == 0x8000_0000_0000_0000
}

proof fn lemma_pieces(pieces: Seq<Piece>)
    ensures
        piece_views(pieces).len() == pieces.len(),
        forall|k: int|
            0 <= k < pieces.len() ==> #[trigger] piece_views(pieces)[k] == pieces[k]@
                && piece_views(pieces)[k].text == pieces[k].text@ && piece_views(pieces)[k].tint
                == pieces[k].tint && piece_views(pieces)[k].bold == pieces[k].bold,
{
}

/// The header says that the slice is fine, in green, exactly if the reading is a zero of
/// either sign. Every other reading, above zero or not, is called a fault, in red.
pub proof fn law_header_tells_of_faults(panel: TextPanel, app: App)
    requires
        panel@ == header_panel(app),
    ensures
        panel.line.len() == 9,
        healthy(app.slice_error) ==> is_piece(panel.line@[7], "slice: OK"@, Tint::Green, true),
        !healthy(app.slice_error) ==> is_piece(panel.line@[7], "slice: ERROR!"@, Tint::Red, true),
        panel.line@[7].text@ == "slice: OK"@ <==> healthy(app.slice_error),
        whole_reading(0).is_below(app.slice_error) ==> is_piece(
            panel.line@[7],
            "slice: ERROR!"@,
            Tint::Red,
            true,
        ),
{
    reveal_strlit("slice: OK");
    reveal_strlit("slice: ERROR!");
    law_special_readings(app.slice_error);
    lemma_pieces(panel.line@);
    assert(piece_views(panel.line@)[7] == panel.line@[7]@);
    assert("slice: OK"@.len() == 9 && "slice: ERROR!"@.len() == 13);
    lemma_zero();
}

/// The header names the chip, counts chips and cores, says whether any worker reported, and
/// gives the uptime and the host.
pub proof fn law_header_shows_the_machine(panel: TextPanel, app: App)
    requires
        panel@ == header_panel(app),
    ensures
        panel.line.len() == 9,
        is_piece(panel.line@[0], "  TPU "@, Tint::Gray, false),
        is_piece(panel.line@[1], app.chip@, Tint::Accent, true),
        is_piece(
            panel.line@[2],
            "  chips="@ + decimal(app.chips as nat) + " cores="@ + decimal(app.cores as nat),
            Tint::Gray,
            false,
        ),
        is_piece(panel.line@[3], "    "@, Tint::Plain, false),
        app.any_metrics ==> is_piece(panel.line@[4], "● ACTIVE"@, Tint::Green, true),
        !app.any_metrics ==> is_piece(panel.line@[4], "○ IDLE"@, Tint::Dim, true),
        is_piece(
            panel.line@[5],
            "   up "@ + uptime_text(app.uptime_secs.truncated() as nat),
            Tint::Gray,
            false,
        ),
        is_piece(panel.line@[6], "   "@, Tint::Plain, false),
        is_piece(panel.line@[8], "   host "@ + app.host.hostname@, Tint::Dim, false),
        panel.title@ == " ⣿ tpu-monitor "@,
        panel.border == Tint::Accent,
        panel.hint is Some,
        is_piece(panel.hint->0, "[q] quit "@, Tint::Dim, false),
{
    lemma_pieces(panel.line@);
    let views = piece_views(panel.line@);
    assert(views == panel@.line);
    assert(views[0] == panel.line@[0]@ && views[1] == panel.line@[1]@ && views[2]
        == panel.line@[2]@);
    assert(views[3] == panel.line@[3]@ && views[4] == panel.line@[4]@ && views[5]
        == panel.line@[5]@);
    assert(views[6] == panel.line@[6]@ && views[7] == panel.line@[7]@ && views[8]
        == panel.line@[8]@);
    assert(panel@.hint is Some);
}

/// The live view and the snapshot agree on every reading: where one calls the slice healthy
/// so does the other, and two readings that one tells apart the other tells apart too.
pub proof fn law_header_and_banner_agree(
    chip: Seq<char>,
    chips: nat,
    cores: nat,
    any_metrics: bool,
    uptime_secs: Reading,
    hostname: Seq<char>,
    e: Reading,
    f: Reading,
)
    ensures
        ({
            let line = header_line(chip, chips, cores, any_metrics, uptime_secs, e, hostname);
            let other_line = header_line(chip, chips, cores, any_metrics, uptime_secs, f, hostname);
            let text = banner_text(chip, chips, cores, uptime_secs, e, hostname);
            let other_text = banner_text(chip, chips, cores, uptime_secs, f, hostname);
            &&& line == other_line <==> text == other_text
            &&& text == other_text <==> (healthy(e) <==> healthy(f))
        }),
{
    reveal_strlit("slice: OK");
    reveal_strlit("slice: ERROR!");
    reveal_strlit("OK");
    reveal_strlit("ERROR!");
    law_special_readings(e);
    law_special_readings(f);
    let line = header_line(chip, chips, cores, any_metrics, uptime_secs, e, hostname);
    let other_line = header_line(chip, chips, cores, any_metrics, uptime_secs, f, hostname);
    assert(line[7].text.len() == if healthy(e) { 9int } else { 13 });
    assert(other_line[7].text.len() == if healthy(f) { 9int } else { 13 });
    let text = banner_text(chip, chips, cores, uptime_secs, e, hostname);
    let other_text = banner_text(chip, chips, cores, uptime_secs, f, hostname);
    if healthy(e) != healthy(f) {
        assert(text.len() != other_text.len());
    }
}

/// How full memory is counts only where there is any; other readings count as they are.
pub proof fn law_shares(total: Reading, pct: Reading)
    ensures
        !total.is_nan() && 0 < total.bits < 0x8000_0000_0000_0000 ==> share_of(total, pct) == pct,
        total.is_nan() || total.bits == 0 || total.bits >= 0x8000_0000_0000_0000 ==> share_of(
            total,
            pct,
        ).bits == 0,
{
    lemma_zero();
}

/// A quotient from zero to one shows as it is, one below as zero, one above as one; nothing
/// shows as zero whatever the quotient is.
pub proof fn law_ratios_are_kept(total: u64, quotient: Reading)
    ensures
        kept_of(0, quotient).bits == 0,
        total > 0 ==> kept_of(total, quotient) == kept(quotient),
        quotient.is_below(whole_reading(0)) ==> kept(quotient).bits == 0,
        whole_reading(1).is_below(quotient) ==> kept(quotient).bits == 0x3ff0_0000_0000_0000,
        !quotient.is_below(whole_reading(0)) && !whole_reading(1).is_below(quotient) ==> kept(
            quotient,
        ) == quotient,
{
    lemma_zero();
    lemma_one();
}

/// A core's duty cycle is shown in three places or more, with the number of the core exactly
/// if chips have several.
pub proof fn law_core_shows_its_duty(core: i64, duty: Seq<char>)
    ensures
        core_text(core, duty, false) == padded_left(duty, 3) + "%"@,
        core_text(core, duty, true) == "c"@ + signed_decimal(core as int) + ":"@ + core_text(
            core,
            duty,
            false,
        ),
{
}

/// The cores of a chip are shown one after another, each with its own duty cycle; a chip
/// that was not measured shows zeros.
pub proof fn law_cores_are_shown_in_turn(
    chip: ChipView,
    core: (i64, Reading),
    duties: Seq<Seq<char>>,
    duty: Seq<char>,
    several: bool,
)
    requires
        duties.len() == chip.cores.len(),
    ensures
        ({
            let longer = ChipView { cores: chip.cores.push(core), ..chip };
            let next = core_text(
                core.0,
                if chip.metrics_ok {
                    duty
                } else {
                    "0"@
                },
                several,
            );
            &&& chip.cores.len() == 0 ==> cores_text(longer, duties.push(duty), several) == next
            &&& chip.cores.len() > 0 ==> cores_text(longer, duties.push(duty), several)
                == cores_text(chip, duties, several) + "  "@ + next
        }),
{
    let longer = ChipView { cores: chip.cores.push(core), ..chip };
    let next = core_text(
        core.0,
        if chip.metrics_ok {
            duty
        } else {
            "0"@
        },
        several,
    );
    let parts = Seq::new(
        chip.cores.len(),
        |i: int|
            core_text(
                chip.cores[i].0,
                if chip.metrics_ok {
                    duties[i]
                } else {
                    "0"@
                },
                several,
            ),
    );
    let all = duties.push(duty);
    let longer_parts = Seq::new(
        longer.cores.len(),
        |i: int|
            core_text(
                longer.cores[i].0,
                if longer.metrics_ok {
                    all[i]
                } else {
                    "0"@
                },
                several,
            ),
    );
    let one = seq![next];
    assert(longer_parts =~= parts + one);
    assert(joined(longer_parts, "  "@) == cores_text(longer, all, several));
    law_joining_parts(parts, one, "  "@);
    law_joining_parts(one, parts, "  "@);
    law_joining_parts(longer_parts, parts, "  "@);
}

/// No core of a chip is busier than its busiest, which is zero or the duty cycle of one.
pub proof fn law_busiest_core(cores: Seq<(i64, Reading)>)
    ensures
        forall|i: int| 0 <= i < cores.len() ==> !busiest(cores).is_below((#[trigger] cores[i]).1),
        busiest(cores).bits == 0 || exists|i: int|
            0 <= i < cores.len() && (#[trigger] cores[i]).1 == busiest(cores),
        !busiest(cores).is_nan(),
    decreases cores.len(),
{
    lemma_zero();
    if cores.len() > 0 {
        let rest = cores.drop_last();
        law_busiest_core(rest);
        assert forall|i: int| 0 <= i < cores.len() implies !busiest(cores).is_below(
            (#[trigger] cores[i]).1,
        ) by {
            if i < rest.len() {
                assert(rest[i] == cores[i]);
            }
        }
        if busiest(cores) == busiest(rest) {
            if busiest(rest).bits != 0 {
                let i = choose|i: int| 0 <= i < rest.len() && (#[trigger] rest[i]).1 == busiest(rest);
                assert(cores[i] == rest[i]);
            }
        } else {
            assert(cores[cores.len() - 1].1 == busiest(cores));
        }
    }
}

/// Cores are numbered exactly if some chip has more than one.
pub proof fn law_cores_are_numbered(chips: Seq<ChipView>, i: int)
    ensures
        0 <= i < chips.len() && chips[i].cores.len() >= 2 ==> multi_core(chips),
        (forall|k: int| 0 <= k < chips.len() ==> (#[trigger] chips[k]).cores.len() < 2) ==> !multi_core(
            chips,
        ),
{
}

/// Whether the cells of a chip show it: the host if there are several, the chip, its process,
/// its memory and its cores. One that was not measured is dimmed and idle.
pub open spec fn show_chip_in(
    cells: Seq<Piece>,
    chip: ChipView,
    figures: ChipFigures,
    multi_host: bool,
    several: bool,
) -> bool {
    let at: int = if multi_host {
        1
    } else {
        0
    };
    let any_memory = !chip.total.is_nan() && 0 < chip.total.bits < 0x8000_0000_0000_0000;
    let zero = Reading { bits: 0 };
    &&& cells.len() == at + 5
    &&& multi_host ==> is_piece(cells[0], chip.host, Tint::Gray, false)
    &&& is_piece(cells[at], signed_decimal(chip.chip as int), Tint::Accent, false)
    &&& is_piece(cells[at + 1], chip.pid, Tint::Gray, false)
    &&& chip.metrics_ok && any_memory ==> is_piece(
        cells[at + 2],
        bar_text(full_blocks(figures.hbm_pct), 8) + " "@ + padded_left(figures.pct@, 3) + "%"@,
        load_tint(figures.hbm_pct),
        false,
    )
    &&& chip.metrics_ok && !any_memory ==> is_piece(
        cells[at + 2],
        bar_text(full_blocks(zero), 8) + " "@ + padded_left("0"@, 3) + "%"@,
        Tint::Green,
        false,
    )
    &&& chip.metrics_ok ==> is_piece(
        cells[at + 3],
        figures.used@ + "/"@ + figures.total@ + " GiB"@,
        Tint::Gray,
        false,
    )
    &&& cells[at + 4].text@ == cores_text(chip, texts(figures.duties@), several)
    &&& chip.metrics_ok ==> cells[at + 4].tint == load_tint(busiest(chip.cores))
    &&& !cells[at + 4].bold
    &&& !chip.metrics_ok ==> is_piece(cells[at + 2], "░░░░░░░░"@ + "   0%"@, Tint::Dim, false)
        && is_piece(cells[at + 3], "—/"@ + figures.total@ + " GiB"@, Tint::Dim, false) && cells[at
        + 4].tint == Tint::Dim
}

proof fn lemma_chip_shown(
    cells: Seq<Piece>,
    chip: ChipView,
    figures: ChipFigures,
    multi_host: bool,
    several: bool,
)
    requires
        piece_views(cells) == chip_cells(chip, figures, multi_host, several),
    ensures
        show_chip_in(cells, chip, figures, multi_host, several),
{
    let at: int = if multi_host {
        1
    } else {
        0
    };
    let views = piece_views(cells);
    lemma_zero();
    lemma_pieces(cells);
    law_whole_readings_are_ordered(0, 40);
    law_shares(chip.total, figures.hbm_pct);
    assert(views[0] == cells[0]@ && views[at] == cells[at]@ && views[at + 1] == cells[at + 1]@);
    assert(views[at + 2] == cells[at + 2]@ && views[at + 3] == cells[at + 3]@ && views[at + 4]
        == cells[at + 4]@);
    reveal_strlit("░░░░░░░░");
    assert(bar_text(0, 8) =~= "░░░░░░░░"@);
}

/// The table of chips has a row for each chip, in their order, and each row shows its own
/// chip with its own figures, with a background at every second one.
pub proof fn law_table_shows_every_chip(
    panel: TablePanel,
    rows: Seq<DevRow>,
    figures: Seq<ChipFigures>,
    multi_host: bool,
    i: int,
)
    requires
        figures_match(chips_of(row_views(rows)), figures),
        panel@ == chip_panel(chips_of(row_views(rows)), figures, multi_host),
    ensures
        panel.title@ == " Chips (per-core TC Util) "@,
        panel.spacing == 2,
        panel.rows.len() == chips_of(row_views(rows)).len(),
        0 <= i < panel.rows.len() ==> show_chip_in(
            panel.rows@[i].cells@,
            chips_of(row_views(rows))[i],
            figures[i],
            multi_host,
            multi_core(chips_of(row_views(rows))),
        ),
        0 <= i < panel.rows.len() ==> (panel.rows@[i].striped <==> i % 2 == 1),
        panel.widths@ == chip_widths(multi_host),
        piece_views(panel.header@) == header_cells(
            chip_columns(multi_host, multi_core(chips_of(row_views(rows)))),
        ),
{
    let chips = chips_of(row_views(rows));
    assert(panel@.rows.len() == panel.rows.len());
    if 0 <= i < panel.rows.len() {
        assert(table_row_views(panel.rows@)[i] == panel.rows@[i]@);
        assert(panel.rows@[i]@ == panel@.rows[i]);
        lemma_chip_shown(
            panel.rows@[i].cells@,
            chips[i],
            figures[i],
            multi_host,
            multi_core(chips),
        );
    }
}

/// The columns of the table of chips and their widths; the host has one, before the others,
/// exactly if there are several.
pub proof fn law_columns_of_chips(several: bool)
    ensures
        chip_columns(false, several) =~= seq![
            "CHIP"@,
            "PID"@,
            "HBM"@,
            "USED/TOTAL"@,
            if several {
                "TC Util /core"@
            } else {
                "TC Util"@
            },
        ],
        chip_columns(true, several) =~= seq!["HOST"@] + chip_columns(false, several),
        chip_widths(false) =~= seq![
            Size::Length(5),
            Size::Length(8),
            Size::Length(14),
            Size::Length(14),
            Size::Min(16),
        ],
        chip_widths(true) =~= seq![Size::Length(18)] + chip_widths(false),
{
}

/// Every header cell shows the name of its column, in bold.
pub proof fn law_header_cells(cells: Seq<Piece>, names: Seq<Seq<char>>, i: int)
    requires
        piece_views(cells) == header_cells(names),
    ensures
        cells.len() == names.len(),
        0 <= i < cells.len() ==> is_piece(cells[i], names[i], Tint::Gray, true),
{
    lemma_pieces(cells);
    if 0 <= i < cells.len() {
        assert(piece_views(cells)[i] == cells[i]@);
    }
}

/// Whether the cells of a process show it, with its own figures. A share of a processor
/// above a hundred percent is coloured like a hundred.
pub open spec fn show_process_in(cells: Seq<Piece>, info: ProcInfo, figures: ProcFigures) -> bool {
    &&& cells.len() == 9
    &&& is_piece(cells[0], signed_decimal(info.pid as int), Tint::Accent, false)
    &&& is_piece(cells[1], info.user@, Tint::Gray, false)
    &&& cells[2].text@ == figures.cpu@ && !cells[2].bold
    &&& figures.cpu_pct.is_below(whole_reading(40)) ==> cells[2].tint == Tint::Green
    &&& !figures.cpu_pct.is_nan() && !figures.cpu_pct.is_below(whole_reading(40))
        && figures.cpu_pct.is_below(whole_reading(75)) ==> cells[2].tint == Tint::Yellow
    &&& figures.cpu_pct.is_nan() || !figures.cpu_pct.is_below(whole_reading(75)) ==> cells[2].tint
        == Tint::Red
    &&& is_piece(cells[3], mem_text(info.rss_kb as nat), Tint::Plain, false)
    &&& is_piece(cells[4], figures.mem@, Tint::Plain, false)
    &&& is_piece(cells[5], clock_text(info.time_secs as nat), Tint::Plain, false)
    &&& is_piece(cells[6], decimal(info.threads as nat), Tint::Gray, false)
    &&& is_piece(cells[7], info.devices@, Tint::Accent, false)
    &&& is_piece(cells[8], at_most(info.cmd@, 60), Tint::Gray, false)
}

proof fn lemma_process_shown(cells: Seq<Piece>, info: ProcInfo, figures: ProcFigures)
    requires
        piece_views(cells) == proc_cells(info@, figures),
    ensures
        show_process_in(cells, info, figures),
{
    let views = piece_views(cells);
    lemma_pieces(cells);
    law_whole_readings_are_ordered(40, 75);
    law_whole_readings_are_ordered(40, 100);
    law_whole_readings_are_ordered(75, 100);
    assert(views[0] == cells[0]@ && views[1] == cells[1]@ && views[2] == cells[2]@);
    assert(views[3] == cells[3]@ && views[4] == cells[4]@ && views[5] == cells[5]@);
    assert(views[6] == cells[6]@ && views[7] == cells[7]@ && views[8] == cells[8]@);
}

/// The table of processes has a row for each process, in their order, and each row shows its
/// own process with its own figures, with a background at every second one. Its title counts
/// them.
pub proof fn law_table_shows_every_process(
    panel: TablePanel,
    procs: Seq<ProcInfo>,
    figures: Seq<ProcFigures>,
    i: int,
)
    requires
        procs.len() == figures.len(),
        panel@ == proc_panel(infos(procs), figures),
    ensures
        procs.len() == 0 ==> panel.title@ == " Processes (none using TPU) "@,
        procs.len() > 0 ==> panel.title@ == " Processes ("@ + decimal(procs.len()) + " using TPU) "@,
        panel.spacing == 1,
        panel.rows.len() == procs.len(),
        0 <= i < procs.len() ==> show_process_in(panel.rows@[i].cells@, procs[i], figures[i]),
        0 <= i < procs.len() ==> (panel.rows@[i].striped <==> i % 2 == 1),
        panel.widths@ =~= seq![
            Size::Length(7),
            Size::Length(10),
            Size::Length(5),
            Size::Length(6),
            Size::Length(5),
            Size::Length(8),
            Size::Length(4),
            Size::Length(6),
            Size::Min(20),
        ],
        piece_views(panel.header@) == header_cells(
            seq!["PID"@, "USER"@, "CPU%"@, "RES"@, "MEM%"@, "TIME+"@, "THR"@, "DEV"@, "COMMAND"@],
        ),
{
    assert(panel@.rows.len() == panel.rows.len());
    assert(infos(procs).len() == procs.len());
    if 0 <= i < procs.len() {
        assert(table_row_views(panel.rows@)[i] == panel.rows@[i]@);
        assert(infos(procs)[i] == procs[i]@);
        assert(panel.rows@[i]@ == panel@.rows[i]);
        lemma_process_shown(panel.rows@[i].cells@, procs[i], figures[i]);
    }
}

/// Other figures of one chip or process change its row and no other.
pub proof fn law_table_rows_stand_apart(
    chips: Seq<ChipView>,
    chip_figures: Seq<ChipFigures>,
    other_chip: ChipFigures,
    multi_host: bool,
    procs: Seq<ProcView>,
    proc_figures: Seq<ProcFigures>,
    other_proc: ProcFigures,
    i: int,
    j: int,
)
    requires
        i != j,
    ensures
        0 <= i < chips.len() && chips.len() == chip_figures.len() && 0 <= j < chips.len()
            ==> chip_panel(chips, chip_figures.update(j, other_chip), multi_host).rows[i]
            == chip_panel(chips, chip_figures, multi_host).rows[i],
        0 <= i < procs.len() && procs.len() == proc_figures.len() && 0 <= j < procs.len()
            ==> proc_panel(procs, proc_figures.update(j, other_proc)).rows[i] == proc_panel(
            procs,
            proc_figures,
        ).rows[i],
{
}

/// A series is shown whole, and its title ends with its last value, or zero where it is
/// empty.
pub proof fn law_series_show_their_last_value(
    panel: SparkPanel,
    title: Seq<char>,
    series: Seq<u64>,
    tint: Tint,
)
    requires
        panel@ == spark_panel(title, series, tint),
    ensures
        panel.data@ == series,
        panel.tint == tint,
        series.len() > 0 ==> panel.title@ == title + decimal(series[series.len() - 1] as nat)
            + "% "@,
        series.len() == 0 ==> panel.title@ == title + decimal(0) + "% "@,
        newest_value(series) == if series.len() > 0 {
            series[series.len() - 1]
        } else {
            0
        },
{
}

/// Whether a gauge shows a ratio and a label under its title.
pub open spec fn is_gauge(g: GaugePanel, title: Seq<char>, ratio: Reading, label: Seq<char>) -> bool {
    &&& g.title@ == title && g.ratio == ratio && g.tint == ratio_tint(ratio)
    &&& is_piece(g.label, label, Tint::White, true)
}

/// Whether a gauge shows how full something is, in gibibytes.
pub open spec fn is_full_gauge(
    g: GaugePanel,
    title: Seq<char>,
    used: u64,
    total: u64,
    quotient: Reading,
) -> bool {
    let label = gib_text(used as nat) + "/"@ + gib_text(total as nat) + " GiB"@;
    &&& total == 0 ==> is_gauge(g, title, Reading { bits: 0 }, label)
    &&& total > 0 ==> is_gauge(g, title, kept(quotient), label)
}

/// The panels about the host show each what they are for: the load of its processors, its
/// memory, the disk under the name of its place, and the traffic, reads before writes and
/// what came in before what went out.
pub proof fn law_panels_show_the_host(panels: HostPanels, host: HostStats, figures: HostFigures)
    requires
        panels.shows(host, figures),
    ensures
        is_gauge(panels.cpu, " CPU "@, kept(figures.cpu_quotient), figures.cpu_text@ + "%"@),
        is_full_gauge(panels.mem, " RAM "@, host.mem_used, host.mem_total, figures.mem_quotient),
        is_full_gauge(
            panels.disk,
            " "@ + host.disk_mount@ + " "@,
            host.disk_used,
            host.disk_total,
            figures.disk_quotient,
        ),
        panels.io.title@ == " I/O MB/s "@,
        panels.io.border == Tint::Dim,
        panels.io.hint is None,
        panels.io.line.len() == 4,
        is_piece(panels.io.line@[0], "disk "@, Tint::Gray, false),
        is_piece(
            panels.io.line@[1],
            "R "@ + figures.io.disk_r@ + " W "@ + figures.io.disk_w@ + " "@,
            Tint::Green,
            false,
        ),
        is_piece(panels.io.line@[2], "net "@, Tint::Gray, false),
        is_piece(
            panels.io.line@[3],
            "↓"@ + figures.io.net_rx@ + " ↑"@ + figures.io.net_tx@,
            Tint::Accent,
            false,
        ),
{
    lemma_zero();
    lemma_pieces(panels.io.line@);
    let views = piece_views(panels.io.line@);
    assert(views == panels.io@.line);
    assert(views[0] == panels.io.line@[0]@ && views[1] == panels.io.line@[1]@);
    assert(views[2] == panels.io.line@[2]@ && views[3] == panels.io.line@[3]@);
    assert(panels.io@.hint is None);
    assert(panels.cpu@.label == panels.cpu.label@);
    assert(panels.mem@.label == panels.mem.label@);
    assert(panels.disk@.label == panels.disk.label@);
}

/// Every panel of the live view shows its own part of what was sampled, and each has the
/// place that is meant for it: five below each other, two series side by side in the fourth,
/// and the host's panels in the fifth, the load narrower than the others.
pub proof fn law_screen_shows_every_part(screen: Screen, app: App, figures: Figures, area: Area)
    requires
        screen.shows(app, figures),
        screen.fits(area),
    ensures
        screen.header@ == header_panel(app),
        screen.chips@ == chip_panel(
            chips_of(row_views(app.rows@)),
            figures.chips@,
            app.multi_host,
        ),
        screen.procs@ == proc_panel(infos(app.procs@), figures.procs@),
        screen.duty.data@ == app.duty_hist@ && screen.duty.tint == Tint::Green,
        screen.duty.title@ == " TC Util (duty cycle)  "@ + decimal(
            newest_value(app.duty_hist@) as nat,
        ) + "% "@,
        screen.hbm.data@ == app.hbm_hist@ && screen.hbm.tint == Tint::Accent,
        screen.hbm.title@ == " HBM usage  "@ + decimal(newest_value(app.hbm_hist@) as nat) + "% "@,
        screen.host.shows(app.host, figures.host),
        screen.panes.plan.axis == Axis::Vertical,
        screen.panes.plan.sizes@ =~= seq![
            Size::Length(3),
            Size::Min(5),
            Size::Length(9),
            Size::Length(6),
            Size::Length(3),
        ],
        screen.panes.divide(area),
        screen.history_panes.plan.axis == Axis::Horizontal,
        screen.history_panes.plan.sizes@ =~= seq![Size::Percentage(50), Size::Percentage(50)],
        screen.history_panes.divide(screen.panes.areas@[3]),
        screen.host_panes.plan.axis == Axis::Horizontal,
        screen.host_panes.plan.sizes@ =~= seq![
            Size::Percentage(22),
            Size::Percentage(26),
            Size::Percentage(26),
            Size::Percentage(26),
        ],
        screen.host_panes.divide(screen.panes.areas@[4]),
{
    assert(screen.duty@.data == screen.duty.data@ && screen.hbm@.data == screen.hbm.data@);
}

/// The live view can be drawn exactly if there are figures for each chip, each of its cores
/// and each process.
pub proof fn law_figures_suffice(app: App, figures: Figures)
    ensures
        ({
            let chips = chips_of(row_views(app.rows@));
            figures_suffice(app, figures) <==> chips.len() == figures.chips.len() && app.procs.len()
                == figures.procs.len() && (forall|i: int|
                0 <= i < chips.len() ==> chips[i].cores.len() == (
                #[trigger] figures.chips@[i]).duties.len())
        }),
{
}

} // verus!
