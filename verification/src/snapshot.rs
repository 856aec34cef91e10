//! The printed snapshot.
use vstd::prelude::*;

use crate::collect::{chip_label, Collected};
use crate::device::DeviceInfo;
use crate::format::{
    fmt_mem, fmt_minutes, fmt_short_uptime, mem_text, minutes_text, short_uptime_text,
};
use crate::host::HostStats;
use crate::number::{
    decimal, pad_left, pad_right, padded_left, padded_right, show, show_i64, signed_decimal,
};
use crate::reading::Reading;
use crate::rows::{row_views, DevRow, DevView};
use crate::sysmon::{infos, ProcInfo, ProcView};
use crate::text::{at_most, head, texts};
use crate::ui::{gib_pair, show_gib_pair, IoFigures, ProcFigures};

verus! {

/// The figures of a core.
pub struct CoreFigures {
    /// Its memory in gibibytes, to the nearest tenth and whole number.
    pub used: String,
    pub total: String,
    /// Its duty cycle in percent, to the nearest tenth.
    pub duty: String,
}

/// The line about the chips, the runtime and the host.
pub open spec fn banner_text(
    chip: Seq<char>,
    chips: nat,
    cores: nat,
    uptime_secs: Reading,
    slice_error: Reading,
    hostname: Seq<char>,
) -> Seq<char> {
    "TPU "@ + chip + "   chips="@ + decimal(chips) + " cores="@ + decimal(cores) + "   up "@
        + short_uptime_text(uptime_secs.truncated() as nat) + "   slice: "@ + (
    if slice_error.is_zero() {
        "OK"@
    } else {
        "ERROR!"@
    }) + "   host="@ + hostname
}

/// The line about the chips, the runtime and the host.
pub fn banner(
    chip: &str,
    chips: usize,
    cores: usize,
    uptime_secs: Reading,
    slice_error: Reading,
    hostname: &str,
) -> (r: String)
    ensures
        r@ == banner_text(
            chip@,
            chips as nat,
            cores as nat,
            uptime_secs,
            slice_error,
            hostname@,
        ),
{
    let mut out = "TPU ".to_string();
    out.append(chip);
    out.append("   chips=");
    out.append(show(chips as u64).as_str());
    out.append(" cores=");
    out.append(show(cores as u64).as_str());
    out.append("   up ");
    out.append(fmt_short_uptime(uptime_secs).as_str());
    out.append("   slice: ");
    if slice_error.zero() {
        out.append("OK");
    } else {
        out.append("ERROR!");
    }
    out.append("   host=");
    out.append(hostname);
    out
}

/// A table as text: a row for the header and one for each row of cells, in boxes.
pub uninterp spec fn table_text(header: Seq<Seq<char>>, rows: Seq<Seq<Seq<char>>>) -> Seq<char>;

/// The contents of a list of rows of cells.
pub open spec fn cell_texts(rows: Seq<Vec<String>>) -> Seq<Seq<Seq<char>>> {
    rows.map_values(|row: Vec<String>| texts(row@))
}

/// A `comfy_table::Table` in the style `UTF8_FULL`, with a header and rows of cells, as
/// text. Its columns take the width of their contents, whatever terminal there is, so the
/// text depends on the cells alone. What the boxes look like is not said here.
#[verifier::external_body]
fn boxed(header: &Vec<String>, rows: &Vec<Vec<String>>) -> (r: String)
    ensures
        r@ == table_text(texts(header@), cell_texts(rows@)),
{
    let mut table = comfy_table::Table::new();
    table.load_preset(comfy_table::presets::UTF8_FULL);
    table.set_header(header.clone());
    table.add_rows(rows.clone());
    table.to_string()
}

/// The columns of the table of cores. The host is named only if there are several.
pub open spec fn core_columns(multi_host: bool) -> Seq<Seq<char>> {
    let columns = seq!["Core"@, "PID"@, "HBM used/total (GiB)"@, "TC Util%"@];
    if multi_host {
        seq!["Host"@] + columns
    } else {
        columns
    }
}

/// The cells of a core. One that was not measured shows its memory and is idle.
pub open spec fn core_cells(row: DevView, figures: CoreFigures, multi_host: bool) -> Seq<
    Seq<char>,
> {
    let names = seq![signed_decimal(row.dev as int), row.pid];
    let load = if row.metrics_ok {
        seq![figures.used@ + "/"@ + figures.total@ + " GiB"@, figures.duty@]
    } else {
        seq!["—/"@ + figures.total@ + " GiB"@, "0"@]
    };
    if multi_host {
        seq![row.host] + names + load
    } else {
        names + load
    }
}

/// The cells of all cores.
pub open spec fn all_core_cells(
    rows: Seq<DevView>,
    figures: Seq<CoreFigures>,
    multi_host: bool,
) -> Seq<Seq<Seq<char>>> {
    Seq::new(rows.len(), |i: int| core_cells(rows[i], figures[i], multi_host))
}

/// Every core has a cell for each column.
pub proof fn law_cells_fill_columns(row: DevView, figures: CoreFigures, multi_host: bool)
    ensures
        core_cells(row, figures, multi_host).len() == core_columns(multi_host).len(),
{
}

fn column_names(multi_host: bool) -> (r: Vec<String>)
    ensures
        texts(r@) == core_columns(multi_host),
{
    let mut names: Vec<String> = Vec::new();
    if multi_host {
        names.push("Host".to_string());
    }
    names.push("Core".to_string());
    names.push("PID".to_string());
    names.push("HBM used/total (GiB)".to_string());
    names.push("TC Util%".to_string());
    assert(texts(names@) =~= core_columns(multi_host));
    names
}

fn show_core_row(row: &DevRow, figures: &CoreFigures, multi_host: bool) -> (r: Vec<String>)
    ensures
        texts(r@) == core_cells(row@, *figures, multi_host),
{
    let mut cells: Vec<String> = Vec::new();
    if multi_host {
        cells.push(row.host.clone());
    }
    cells.push(show_i64(row.dev));
    cells.push(row.pid.clone());
    if row.metrics_ok {
        let mut memory = figures.used.clone();
        memory.append("/");
        memory.append(figures.total.as_str());
        memory.append(" GiB");
        cells.push(memory);
        cells.push(figures.duty.clone());
    } else {
        let mut memory = "—/".to_string();
        memory.append(figures.total.as_str());
        memory.append(" GiB");
        cells.push(memory);
        cells.push("0".to_string());
    }
    assert(texts(cells@) =~= core_cells(row@, *figures, multi_host));
    cells
}

/// The cells of the table of cores, row by row.
pub fn core_table_cells(rows: &[DevRow], figures: &[CoreFigures], multi_host: bool) -> (r: Vec<
    Vec<String>,
>)
    requires
        rows.len() == figures.len(),
    ensures
        cell_texts(r@) == all_core_cells(row_views(rows@), figures@, multi_host),
{
    let ghost views = row_views(rows@);
    let mut out: Vec<Vec<String>> = Vec::new();
    let mut i: usize = 0;
    while i < rows.len()
        invariant
            i <= rows.len(),
            rows.len() == figures.len(),
            views == row_views(rows@),
            out.len() == i,
            forall|k: int|
                0 <= k < i ==> texts((#[trigger] out@[k])@) == core_cells(
                    views[k],
                    figures@[k],
                    multi_host,
                ),
        decreases rows.len() - i,
    {
        assert(views[i as int] == rows@[i as int]@);
        out.push(show_core_row(&rows[i], &figures[i], multi_host));
        i = i + 1;
    }
    assert(cell_texts(out@) =~= all_core_cells(views, figures@, multi_host));
    out
}

/// The table of cores as text.
pub fn core_table(rows: &[DevRow], figures: &[CoreFigures], multi_host: bool) -> (r: String)
    requires
        rows.len() == figures.len(),
    ensures
        r@ == table_text(
            core_columns(multi_host),
            all_core_cells(row_views(rows@), figures@, multi_host),
        ),
{
    boxed(&column_names(multi_host), &core_table_cells(rows, figures, multi_host))
}

/// The notice that no worker reported, in the terminal's yellow.
pub const NO_METRICS: &'static str = "\x1b[33m(runtime metrics unavailable: no TPU workload / port 8431 down)\x1b[0m";

/// The first lines of the snapshot: about the machine, its cores, and the notice where no
/// worker reported.
pub open spec fn opening_texts(
    info: DeviceInfo,
    found: Collected,
    figures: Seq<CoreFigures>,
    multi_host: bool,
    hostname: Seq<char>,
) -> Seq<Seq<char>> {
    let lines = seq![
        banner_text(
            match info.chip {
                Some(c) => c.name@,
                None => "unknown"@,
            },
            info.chips as nat,
            info.cores as nat,
            found.uptime_secs,
            found.slice_error,
            hostname,
        ),
        table_text(
            core_columns(multi_host),
            all_core_cells(row_views(found.rows@), figures, multi_host),
        ),
    ];
    if found.any_metrics {
        lines
    } else {
        lines.push(NO_METRICS@)
    }
}

/// The first lines of the snapshot: about the machine, its cores, and the notice where no
/// worker reported.
pub fn opening(
    info: &DeviceInfo,
    found: &Collected,
    figures: &[CoreFigures],
    multi_host: bool,
    hostname: &str,
) -> (r: Vec<String>)
    requires
        found.rows.len() == figures.len(),
    ensures
        texts(r@) == opening_texts(*info, *found, figures@, multi_host, hostname@),
{
    let (chip, chips, cores) = chip_label(info);
    let mut lines: Vec<String> = Vec::new();
    lines.push(
        banner(chip.as_str(), chips, cores, found.uptime_secs, found.slice_error, hostname),
    );
    lines.push(core_table(found.rows.as_slice(), figures, multi_host));
    if !found.any_metrics {
        lines.push(NO_METRICS.to_string());
    }
    assert(texts(lines@) =~= opening_texts(*info, *found, figures@, multi_host, hostname@));
    lines
}

/// The line about the host's load, memory, disk and traffic.
pub open spec fn host_text(host: HostStats, cpu: Seq<char>, io: IoFigures) -> Seq<char> {
    "Host: CPU "@ + cpu + "%   RAM "@ + gib_pair(host.mem_used, host.mem_total) + "   "@
        + host.disk_mount@ + " "@ + gib_pair(host.disk_used, host.disk_total) + "   | disk R "@
        + io.disk_r@ + " W "@ + io.disk_w@ + " MB/s  net ↓"@ + io.net_rx@ + " ↑"@ + io.net_tx@
        + " MB/s"@
}

/// The line about the host's load, memory, disk and traffic. `cpu` is the load in
/// percent, to the nearest whole number.
pub fn host_line(host: &HostStats, cpu: &str, io: &IoFigures) -> (r: String)
    ensures
        r@ == host_text(*host, cpu@, *io),
{
    let mut out = "Host: CPU ".to_string();
    out.append(cpu);
    out.append("%   RAM ");
    out.append(show_gib_pair(host.mem_used, host.mem_total).as_str());
    out.append("   ");
    out.append(host.disk_mount.as_str());
    out.append(" ");
    out.append(show_gib_pair(host.disk_used, host.disk_total).as_str());
    out.append("   | disk R ");
    out.append(io.disk_r.as_str());
    out.append(" W ");
    out.append(io.disk_w.as_str());
    out.append(" MB/s  net ↓");
    out.append(io.net_rx.as_str());
    out.append(" ↑");
    out.append(io.net_tx.as_str());
    out.append(" MB/s");
    out
}

/// A line of the list of processes, in columns; the command stands last, if at all.
pub open spec fn columns_text(
    pid: Seq<char>,
    user: Seq<char>,
    cpu: Seq<char>,
    res: Seq<char>,
    mem: Seq<char>,
    time: Seq<char>,
    threads: Seq<char>,
    devices: Seq<char>,
    command: Option<Seq<char>>,
) -> Seq<char> {
    let figures = padded_right(pid, 8) + padded_right(user, 10) + padded_left(cpu, 6)
        + padded_left(res, 8) + padded_left(mem, 6) + padded_left(time, 9) + padded_left(threads, 5)
        + "  "@ + padded_right(devices, 6);
    match command {
        Some(c) => figures + " "@ + c,
        None => figures,
    }
}

/// The line about a process, with its command where that is asked for.
pub open spec fn proc_text(info: ProcView, figures: ProcFigures, commands: bool) -> Seq<char> {
    columns_text(
        signed_decimal(info.pid as int),
        info.user,
        figures.cpu@,
        mem_text(info.rss_kb as nat),
        figures.mem@,
        minutes_text(info.time_secs as nat),
        decimal(info.threads as nat),
        info.devices,
        if commands {
            Some(at_most(info.cmd, 70))
        } else {
            None
        },
    )
}

/// The lines about the processes that hold devices, with their commands where that is
/// asked for.
pub open spec fn proc_texts(
    procs: Seq<ProcView>,
    figures: Seq<ProcFigures>,
    commands: bool,
) -> Seq<Seq<char>> {
    if procs.len() == 0 {
        seq!["Processes: (none using TPU)"@]
    } else {
        seq![
            columns_text(
                "PID"@,
                "USER"@,
                "CPU%"@,
                "RES"@,
                "MEM%"@,
                "TIME+"@,
                "THR"@,
                "DEV"@,
                if commands {
                    Some("COMMAND"@)
                } else {
                    None
                },
            ),
        ] + Seq::new(procs.len(), |i: int| proc_text(procs[i], figures[i], commands))
    }
}

/// Commands are shown exactly on request: without it a line says the same of processes that
/// differ in nothing else, and with it the command follows.
pub proof fn law_commands_are_shown_on_request(
    info: ProcView,
    figures: ProcFigures,
    other_cmd: Seq<char>,
)
    ensures
        proc_text(info, figures, false) == proc_text(
            ProcView { cmd: other_cmd, ..info },
            figures,
            false,
        ),
        proc_text(info, figures, true) == proc_text(info, figures, false) + " "@ + at_most(
            info.cmd,
            70,
        ),
{
}

fn columns(
    pid: &str,
    user: &str,
    cpu: &str,
    res: &str,
    mem: &str,
    time: &str,
    threads: &str,
    devices: &str,
    command: Option<&str>,
) -> (r: String)
    ensures
        r@ == columns_text(
            pid@,
            user@,
            cpu@,
            res@,
            mem@,
            time@,
            threads@,
            devices@,
            match command {
                Some(c) => Some(c@),
                None => None,
            },
        ),
{
    let mut out = pad_right(pid, 8);
    out.append(pad_right(user, 10).as_str());
    out.append(pad_left(cpu, 6).as_str());
    out.append(pad_left(res, 8).as_str());
    out.append(pad_left(mem, 6).as_str());
    out.append(pad_left(time, 9).as_str());
    out.append(pad_left(threads, 5).as_str());
    out.append("  ");
    out.append(pad_right(devices, 6).as_str());
    if let Some(c) = command {
        out.append(" ");
        out.append(c);
    }
    out
}

fn show_proc_line(info: &ProcInfo, figures: &ProcFigures, commands: bool) -> (r: String)
    ensures
        r@ == proc_text(info@, *figures, commands),
{
    let cmd = head(info.cmd.as_str(), 70);
    columns(
        show_i64(info.pid as i64).as_str(),
        info.user.as_str(),
        figures.cpu.as_str(),
        fmt_mem(info.rss_kb).as_str(),
        figures.mem.as_str(),
        fmt_minutes(info.time_secs).as_str(),
        show(info.threads).as_str(),
        info.devices.as_str(),
        if commands {
            Some(cmd.as_str())
        } else {
            None
        },
    )
}

/// The lines about the processes that hold devices, with their commands where that is
/// asked for.
pub fn proc_lines(procs: &[ProcInfo], figures: &[ProcFigures], commands: bool) -> (r: Vec<String>)
    requires
        procs.len() == figures.len(),
    ensures
        texts(r@) == proc_texts(infos(procs@), figures@, commands),
{
    let ghost views = infos(procs@);
    let mut out: Vec<String> = Vec::new();
    if procs.len() == 0 {
        out.push("Processes: (none using TPU)".to_string());
        assert(texts(out@) =~= proc_texts(views, figures@, commands));
        return out;
    }
    let heading = if commands {
        Some("COMMAND")
    } else {
        None
    };
    out.push(columns("PID", "USER", "CPU%", "RES", "MEM%", "TIME+", "THR", "DEV", heading));
    let ghost first = out@[0]@;
    let mut i: usize = 0;
    while i < procs.len()
        invariant
            i <= procs.len(),
            procs.len() == figures.len(),
            views == infos(procs@),
            out.len() == i + 1,
            out@[0]@ == first,
            forall|k: int|
                0 <= k < i ==> #[trigger] proc_text(views[k], figures@[k], commands) == out@[k
                    + 1]@,
        decreases procs.len() - i,
    {
        assert(views[i as int] == procs@[i as int]@);
        out.push(show_proc_line(&procs[i], &figures[i], commands));
        i = i + 1;
    }
    proof {
        let wanted = proc_texts(views, figures@, commands);
        assert forall|j: int| 0 <= j < wanted.len() implies #[trigger] texts(out@)[j] == wanted[j] by {
            if j > 0 {
                assert(proc_text(views[j - 1], figures@[j - 1], commands) == out@[j]@);
            }
        }
        assert(texts(out@) =~= wanted);
    }
    out
}

/// The last lines of the snapshot: about the host and the processes that hold devices, with
/// their commands where that is asked for.
pub fn closing(
    host: &HostStats,
    cpu: &str,
    io: &IoFigures,
    procs: &[ProcInfo],
    figures: &[ProcFigures],
    commands: bool,
) -> (r: Vec<String>)
    requires
        procs.len() == figures.len(),
    ensures
        texts(r@) == seq![host_text(*host, cpu@, *io)] + proc_texts(
            infos(procs@),
            figures@,
            commands,
        ),
{
    let mut lines: Vec<String> = Vec::new();
    lines.push(host_line(host, cpu, io));
    let mut rest = proc_lines(procs, figures, commands);
    let ghost listed = texts(rest@);
    lines.append(&mut rest);
    assert(texts(lines@) =~= seq![host_text(*host, cpu@, *io)] + listed);
    lines
}

} // verus!
