//! Laws of the printed snapshot.
use vstd::prelude::*;

use crate::collect::Collected;
use crate::device::DeviceInfo;
use crate::format::{gib_text, mem_text, minutes_text, short_uptime_text};
use crate::host::HostStats;
use crate::laws::number::law_padding;
use crate::laws::reading::law_special_readings;
use crate::number::{decimal, padded_left, padded_right, signed_decimal};
use crate::reading::Reading;
use crate::rows::{row_views, DevRow, DevView};
use crate::snapshot::{
    all_core_cells, banner_text, cell_texts, columns_text, core_cells, core_columns, host_text,
    opening_texts, proc_texts, table_text, CoreFigures,
};
use crate::sysmon::{infos, ProcInfo, ProcView};
use crate::text::{at_most, texts};
use crate::ui::{IoFigures, ProcFigures};

verus! {

/// Row by row the table of cores shows the core of that row and the figures of that row: the
/// host if there are several, the core, its process, its memory and its duty cycle.
pub proof fn law_cells_show_their_figures(
    cells: Seq<Vec<String>>,
    rows: Seq<DevRow>,
    figures: Seq<CoreFigures>,
    multi_host: bool,
    i: int,
)
    requires
        rows.len() == figures.len(),
        cell_texts(cells) == all_core_cells(row_views(rows), figures, multi_host),
        0 <= i < rows.len(),
    ensures
        cells.len() == rows.len(),
        ({
            let row = cells[i]@;
            let at: int = if multi_host {
                1
            } else {
                0
            };
            &&& row.len() == at + 4
            &&& multi_host ==> row[0]@ == rows[i].host@
            &&& row[at]@ == signed_decimal(rows[i].dev as int)
            &&& row[at + 1]@ == rows[i].pid@
            &&& rows[i].metrics_ok ==> row[at + 2]@ == figures[i].used@ + "/"@ + figures[i].total@
                + " GiB"@ && row[at + 3]@ == figures[i].duty@
            &&& !rows[i].metrics_ok ==> row[at + 2]@ == "—/"@ + figures[i].total@ + " GiB"@
                && row[at + 3]@ == "0"@
        }),
{
    let all = all_core_cells(row_views(rows), figures, multi_host);
    assert(cell_texts(cells).len() == cells.len());
    assert(cell_texts(cells)[i] == texts(cells[i]@));
    assert(row_views(rows)[i] == rows[i]@);
    let row = cells[i]@;
    assert(texts(row).len() == row.len());
    assert(all[i] == core_cells(rows[i]@, figures[i], multi_host));
    assert forall|k: int| 0 <= k < row.len() implies #[trigger] texts(row)[k] == row[k]@ by {}
    let at: int = if multi_host {
        1
    } else {
        0
    };
    assert(texts(row)[0] == row[0]@);
    assert(texts(row)[at] == row[at]@);
    assert(texts(row)[at + 1] == row[at + 1]@);
    assert(texts(row)[at + 2] == row[at + 2]@);
    assert(texts(row)[at + 3] == row[at + 3]@);
}

/// Other figures of one core change that core's row and no other.
pub proof fn law_rows_stand_apart(
    rows: Seq<DevView>,
    figures: Seq<CoreFigures>,
    multi_host: bool,
    other: CoreFigures,
    row: DevView,
    i: int,
    j: int,
)
    requires
        rows.len() == figures.len(),
        0 <= i < rows.len(),
        0 <= j < rows.len(),
    ensures
        ({
            let cells = all_core_cells(rows, figures, multi_host);
            let with_figures = all_core_cells(rows, figures.update(j, other), multi_host);
            let with_row = all_core_cells(rows.update(j, row), figures, multi_host);
            &&& i != j ==> with_figures[i] == cells[i] && with_row[i] == cells[i]
            &&& rows[j].metrics_ok && (other.duty@ != figures[j].duty@) ==> with_figures[j]
                != cells[j]
        }),
{
    let at: int = if multi_host {
        1
    } else {
        0
    };
    let cells = all_core_cells(rows, figures, multi_host);
    let with_figures = all_core_cells(rows, figures.update(j, other), multi_host);
    if rows[j].metrics_ok {
        assert(cells[j][at + 3] == figures[j].duty@);
        assert(with_figures[j][at + 3] == other.duty@);
    }
}

/// The table of cores names its columns, and the host only if there are several.
pub proof fn law_columns_of_cores()
    ensures
        core_columns(false) =~= seq!["Core"@, "PID"@, "HBM used/total (GiB)"@, "TC Util%"@],
        core_columns(true) =~= seq![
            "Host"@,
            "Core"@,
            "PID"@,
            "HBM used/total (GiB)"@,
            "TC Util%"@,
        ],
{
}

/// The banner names the chip, counts chips and cores, and gives the uptime and the host. It
/// calls the slice healthy exactly if the reading is a zero of either sign.
pub proof fn law_banner(
    chip: Seq<char>,
    chips: nat,
    cores: nat,
    uptime_secs: Reading,
    slice_error: Reading,
    hostname: Seq<char>,
)
    ensures
        ({
            let text = banner_text(chip, chips, cores, uptime_secs, slice_error, hostname);
            let before = "TPU "@ + chip + "   chips="@ + decimal(chips) + " cores="@ + decimal(cores)
                + "   up "@ + short_uptime_text(uptime_secs.truncated() as nat);
            let healthy = slice_error.bits == 0 || slice_error.bits == 0x8000_0000_0000_0000;
            &&& healthy ==> text =~= before + "   slice: "@ + "OK"@ + "   host="@ + hostname
            &&& !healthy ==> text =~= before + "   slice: "@ + "ERROR!"@ + "   host="@ + hostname
        }),
{
    law_special_readings(slice_error);
}

/// The snapshot opens with the banner about this machine and the table of all cores; a
/// notice follows exactly if no worker reported.
pub proof fn law_opening_lines(
    lines: Seq<String>,
    info: DeviceInfo,
    found: Collected,
    figures: Seq<CoreFigures>,
    multi_host: bool,
    hostname: Seq<char>,
)
    requires
        texts(lines) == opening_texts(info, found, figures, multi_host, hostname),
    ensures
        lines.len() == if found.any_metrics {
            2int
        } else {
            3
        },
        info.chip is Some ==> lines[0]@ == banner_text(
            info.chip->0.name@,
            info.chips as nat,
            info.cores as nat,
            found.uptime_secs,
            found.slice_error,
            hostname,
        ),
        info.chip is None ==> lines[0]@ == banner_text(
            "unknown"@,
            info.chips as nat,
            info.cores as nat,
            found.uptime_secs,
            found.slice_error,
            hostname,
        ),
        lines[1]@ == table_text(
            core_columns(multi_host),
            all_core_cells(row_views(found.rows@), figures, multi_host),
        ),
        !found.any_metrics ==> lines[2]@
            == "\x1b[33m(runtime metrics unavailable: no TPU workload / port 8431 down)\x1b[0m"@,
{
    assert(texts(lines).len() == lines.len());
    assert(texts(lines)[0] == lines[0]@);
    assert(texts(lines)[1] == lines[1]@);
    if !found.any_metrics {
        assert(texts(lines)[2] == lines[2]@);
    }
}

/// The line about the host gives its load, then its memory, its disk and the traffic, each
/// used part before the whole, reads before writes, and what came in before what went out.
pub proof fn law_host_line(host: HostStats, cpu: Seq<char>, io: IoFigures)
    ensures
        host_text(host, cpu, io) =~= "Host: CPU "@ + cpu + "%   RAM "@ + gib_text(
            host.mem_used as nat,
        ) + "/"@ + gib_text(host.mem_total as nat) + " GiB"@ + "   "@ + host.disk_mount@ + " "@
            + gib_text(host.disk_used as nat) + "/"@ + gib_text(host.disk_total as nat) + " GiB"@
            + "   | disk R "@ + io.disk_r@ + " W "@ + io.disk_w@ + " MB/s  net ↓"@ + io.net_rx@
            + " ↑"@ + io.net_tx@ + " MB/s"@,
{
}

/// Whether `line` has `text` from position `from` to `to`, at the left of that place.
pub open spec fn stands_left(line: Seq<char>, text: Seq<char>, from: int, to: int) -> bool {
    &&& line.subrange(from, from + text.len()) =~= text
    &&& forall|k: int| from + text.len() <= k < to ==> #[trigger] line[k] == ' '
}

/// Whether `line` has `text` from position `from` to `to`, at the right of that place.
pub open spec fn stands_right(line: Seq<char>, text: Seq<char>, from: int, to: int) -> bool {
    &&& line.subrange(to - text.len(), to as int) =~= text
    &&& forall|k: int| from <= k < to - text.len() ==> #[trigger] line[k] == ' '
}

proof fn lemma_left(line: Seq<char>, a: Seq<char>, text: Seq<char>, b: Seq<char>, width: nat)
    requires
        text.len() <= width,
        line == a + padded_right(text, width) + b,
    ensures
        stands_left(line, text, a.len() as int, (a.len() + width) as int),
{
    let p = padded_right(text, width);
    law_padding(text, width, 0);
    assert forall|k: int| a.len() + text.len() <= k < a.len() + width implies #[trigger] line[k]
        == ' ' by {
        law_padding(text, width, k - a.len());
        assert(line[k] == p[k - a.len()]);
    }
    assert forall|k: int| 0 <= k < text.len() implies #[trigger] line[a.len() + k] == text[k] by {
        law_padding(text, width, k);
        assert(line[a.len() + k] == p[k]);
    }
    assert(line.subrange(a.len() as int, (a.len() + text.len()) as int) =~= text);
}

proof fn lemma_right(line: Seq<char>, a: Seq<char>, text: Seq<char>, b: Seq<char>, width: nat)
    requires
        text.len() <= width,
        line == a + padded_left(text, width) + b,
    ensures
        stands_right(line, text, a.len() as int, (a.len() + width) as int),
{
    let p = padded_left(text, width);
    let gap = width - text.len();
    law_padding(text, width, 0);
    assert forall|k: int| a.len() <= k < a.len() + gap implies #[trigger] line[k] == ' ' by {
        law_padding(text, width, k - a.len());
        assert(line[k] == p[k - a.len()]);
    }
    assert forall|k: int| 0 <= k < text.len() implies #[trigger] line[a.len() + gap + k] == text[k] by {
        law_padding(text, width, k);
        assert(line[a.len() + gap + k] == p[gap + k]);
    }
    assert(line.subrange(a.len() + gap, (a.len() + width) as int) =~= text);
}

/// Texts that fit their columns stand under each other, whatever they are: names at the left
/// of their column, figures at the right, and the command behind all others, as long as it
/// is.
pub proof fn law_columns_line_up(
    pid: Seq<char>,
    user: Seq<char>,
    cpu: Seq<char>,
    res: Seq<char>,
    mem: Seq<char>,
    time: Seq<char>,
    threads: Seq<char>,
    devices: Seq<char>,
    command: Option<Seq<char>>,
)
    requires
        pid.len() <= 8,
        user.len() <= 10,
        cpu.len() <= 6,
        res.len() <= 8,
        mem.len() <= 6,
        time.len() <= 9,
        threads.len() <= 5,
        devices.len() <= 6,
    ensures
        ({
            let line = columns_text(pid, user, cpu, res, mem, time, threads, devices, command);
            &&& stands_left(line, pid, 0, 8)
            &&& stands_left(line, user, 8, 18)
            &&& stands_right(line, cpu, 18, 24)
            &&& stands_right(line, res, 24, 32)
            &&& stands_right(line, mem, 32, 38)
            &&& stands_right(line, time, 38, 47)
            &&& stands_right(line, threads, 47, 52)
            &&& line.subrange(52, 54) == "  "@
            &&& stands_left(line, devices, 54, 60)
            &&& command is None ==> line.len() == 60
            &&& command matches Some(c) ==> line.subrange(60, line.len() as int) == " "@ + c
        }),
{
    reveal_strlit("  ");
    let none = Seq::<char>::empty();
    let end = match command {
        Some(c) => " "@ + c,
        None => none,
    };
    let line = columns_text(pid, user, cpu, res, mem, time, threads, devices, command);
    let p0 = padded_right(pid, 8);
    let p1 = padded_right(user, 10);
    let p2 = padded_left(cpu, 6);
    let p3 = padded_left(res, 8);
    let p4 = padded_left(mem, 6);
    let p5 = padded_left(time, 9);
    let p6 = padded_left(threads, 5);
    let p7 = padded_right(devices, 6);
    law_padding(pid, 8, 0);
    law_padding(user, 10, 0);
    law_padding(cpu, 6, 0);
    law_padding(res, 8, 0);
    law_padding(mem, 6, 0);
    law_padding(time, 9, 0);
    law_padding(threads, 5, 0);
    law_padding(devices, 6, 0);
    let b7 = end;
    let b6 = "  "@ + p7 + b7;
    let b5 = p6 + b6;
    let b4 = p5 + b5;
    let b3 = p4 + b4;
    let b2 = p3 + b3;
    let b1 = p2 + b2;
    let b0 = p1 + b1;
    let a1 = p0;
    let a2 = a1 + p1;
    let a3 = a2 + p2;
    let a4 = a3 + p3;
    let a5 = a4 + p4;
    let a6 = a5 + p5;
    let a7 = a6 + p6;
    let a8 = a7 + "  "@;
    assert(line =~= a8 + p7 + b7);
    assert(line =~= a7 + ("  "@ + p7 + b7));
    assert(line =~= a6 + p6 + b6);
    assert(line =~= a5 + p5 + b5);
    assert(line =~= a4 + p4 + b4);
    assert(line =~= a3 + p3 + b3);
    assert(line =~= a2 + p2 + b2);
    assert(line =~= a1 + p1 + b1);
    assert(line =~= none + p0 + b0);
    lemma_left(line, none, pid, b0, 8);
    lemma_left(line, a1, user, b1, 10);
    lemma_right(line, a2, cpu, b2, 6);
    lemma_right(line, a3, res, b3, 8);
    lemma_right(line, a4, mem, b4, 6);
    lemma_right(line, a5, time, b5, 9);
    lemma_right(line, a6, threads, b6, 5);
    lemma_left(line, a8, devices, b7, 6);
    assert(line.subrange(52, 54) =~= "  "@);
    assert(line.subrange(60, line.len() as int) =~= end);
}

/// One line for each process under a heading, each with its own process and its own figures,
/// or one line that there is none.
pub proof fn law_lines_show_their_process(
    lines: Seq<String>,
    procs: Seq<ProcInfo>,
    figures: Seq<ProcFigures>,
    commands: bool,
    i: int,
)
    requires
        procs.len() == figures.len(),
        texts(lines) == proc_texts(infos(procs), figures, commands),
    ensures
        procs.len() == 0 ==> lines.len() == 1 && lines[0]@ == "Processes: (none using TPU)"@,
        procs.len() > 0 ==> lines.len() == procs.len() + 1 && lines[0]@ == columns_text(
            "PID"@,
            "USER"@,
            "CPU%"@,
            "RES"@,
            "MEM%"@,
            "TIME+"@,
            "THR"@,
            "DEV"@,
            if commands {
                Some("COMMAND"@)
            } else {
                None
            },
        ),
        0 <= i < procs.len() ==> lines[i + 1]@ == columns_text(
            signed_decimal(procs[i].pid as int),
            procs[i].user@,
            figures[i].cpu@,
            mem_text(procs[i].rss_kb as nat),
            figures[i].mem@,
            minutes_text(procs[i].time_secs as nat),
            decimal(procs[i].threads as nat),
            procs[i].devices@,
            if commands {
                Some(at_most(procs[i].cmd@, 70))
            } else {
                None
            },
        ),
{
    assert(texts(lines).len() == lines.len());
    assert(infos(procs).len() == procs.len());
    assert(texts(lines)[0] == lines[0]@);
    if 0 <= i < procs.len() {
        assert(texts(lines)[i + 1] == lines[i + 1]@);
        assert(infos(procs)[i] == procs[i]@);
    }
}

/// Another process or other figures in one place change the line of that place alone.
pub proof fn law_lines_stand_apart(
    procs: Seq<ProcView>,
    figures: Seq<ProcFigures>,
    commands: bool,
    process: ProcView,
    other: ProcFigures,
    i: int,
    j: int,
)
    requires
        procs.len() == figures.len(),
        0 <= i < procs.len(),
        0 <= j < procs.len(),
        i != j,
    ensures
        proc_texts(procs.update(j, process), figures.update(j, other), commands)[i + 1]
            == proc_texts(procs, figures, commands)[i + 1],
        proc_texts(procs.update(j, process), figures.update(j, other), commands)[0]
            == proc_texts(procs, figures, commands)[0],
{
}

} // verus!
