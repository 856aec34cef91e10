use tpu_monitor::collect::Collected;
use tpu_monitor::device::{ChipType, DeviceInfo};
use tpu_monitor::format::Tint;
use tpu_monitor::host::HostStats;
use tpu_monitor::layout::{lay_out, Area, Axis, Plan, Size};
use tpu_monitor::panel::Piece;
use tpu_monitor::reading::Reading;
use tpu_monitor::rows::DevRow;
use tpu_monitor::snapshot::{closing, core_table, core_table_cells, opening, CoreFigures, NO_METRICS};
use tpu_monitor::sysmon::{IoStats, ProcInfo};
use tpu_monitor::ui::{
    complete, draw, draw_host, draw_procs, draw_table, hbm_share, ratio_of, App, ChipFigures, Figures,
    HostFigures, IoFigures, ProcFigures,
};

const GIB: u64 = 1 << 30;

fn reading(x: f64) -> Reading {
    Reading::from_bits(x.to_bits())
}

fn row(host: &str, dev: i64, chip: i64, duty: f64, ok: bool) -> DevRow {
    DevRow {
        host: host.to_string(),
        dev,
        chip,
        pid: "77".to_string(),
        used: reading(1.0),
        total: reading(2.0),
        duty: reading(duty),
        metrics_ok: ok,
    }
}

fn chip_figures(duties: &[&str]) -> ChipFigures {
    ChipFigures {
        hbm_pct: reading(50.0),
        pct: "50".to_string(),
        used: "96.0".to_string(),
        total: "192".to_string(),
        duties: duties.iter().map(|d| d.to_string()).collect(),
    }
}

fn process(pid: i32, rss_kb: u64, time_secs: u64, cmd: &str) -> ProcInfo {
    ProcInfo {
        pid,
        user: "ann".to_string(),
        cpu_ticks: 1,
        rss_kb,
        mem_share: None,
        time_secs,
        threads: 12,
        devices: "0-3".to_string(),
        cmd: cmd.to_string(),
    }
}

fn proc_figures(cpu_pct: f64) -> ProcFigures {
    ProcFigures { cpu_pct: reading(cpu_pct), cpu: "151".to_string(), mem: "2.5".to_string() }
}

fn io_figures() -> IoFigures {
    IoFigures {
        disk_r: "1".to_string(),
        disk_w: "2".to_string(),
        net_rx: "3".to_string(),
        net_tx: "4".to_string(),
    }
}

fn host() -> HostStats {
    HostStats {
        cpu_pct: reading(12.0),
        mem_used: 3 * GIB,
        mem_total: 8 * GIB,
        disk_used: 70 * GIB,
        disk_total: 100 * GIB,
        disk_mount: "/data".to_string(),
        hostname: "tpu-vm".to_string(),
    }
}

fn texts(pieces: &[Piece]) -> Vec<&str> {
    pieces.iter().map(|p| p.text.as_str()).collect()
}

fn tints(pieces: &[Piece]) -> Vec<Tint> {
    pieces.iter().map(|p| p.tint).collect()
}

fn app(rows: Vec<DevRow>, procs: Vec<ProcInfo>) -> App {
    App {
        chip: "7x".to_string(),
        chips: 2,
        cores: 4,
        multi_host: false,
        rows,
        host: host(),
        duty_hist: vec![5, 42],
        hbm_hist: vec![],
        any_metrics: true,
        procs,
        io: IoStats { disk_dev: String::new(), disk_r: 0, disk_w: 0, net_rx: 0, net_tx: 0, elapsed_ns: 0 },
        uptime_secs: reading(3700.0),
        slice_error: reading(0.0),
    }
}

fn figures(chips: Vec<ChipFigures>, procs: Vec<ProcFigures>) -> Figures {
    Figures {
        chips,
        procs,
        host: HostFigures {
            cpu_quotient: reading(0.125),
            mem_quotient: reading(0.5),
            disk_quotient: reading(0.75),
            cpu_text: "12".to_string(),
            io: io_figures(),
        },
    }
}

#[test]
fn measured_chips_show_their_load() {
    let rows = [row("a", 0, 0, 5.0, true), row("a", 1, 0, 80.0, true), row("a", 2, 1, 1.0, true)];
    let panel = draw_table(&rows, &[chip_figures(&["5", "80"]), chip_figures(&["1"])], false);
    assert_eq!(panel.title, " Chips (per-core TC Util) ");
    assert_eq!(texts(&panel.header), ["CHIP", "PID", "HBM", "USED/TOTAL", "TC Util /core"]);
    assert!(panel.header.iter().all(|p| p.bold && p.tint == Tint::Gray));
    assert_eq!(panel.rows.len(), 2);
    assert_eq!(
        texts(&panel.rows[0].cells),
        ["0", "77", "████░░░░  50%", "96.0/192 GiB", "c0:  5%  c1: 80%"]
    );
    assert_eq!(
        tints(&panel.rows[0].cells),
        [Tint::Accent, Tint::Gray, Tint::Yellow, Tint::Gray, Tint::Red]
    );
    assert_eq!(texts(&panel.rows[1].cells)[4], "c2:  1%");
    assert!(!panel.rows[0].striped && panel.rows[1].striped);
    assert_eq!(panel.widths, [Size::Length(5), Size::Length(8), Size::Length(14), Size::Length(14), Size::Min(16)]);
    assert_eq!(panel.spacing, 2);
}

#[test]
fn idle_chips_show_zeros() {
    let rows = [row("a", 0, 0, 5.0, false), row("b", 0, 0, 5.0, true)];
    let panel = draw_table(&rows, &[chip_figures(&["5"]), chip_figures(&["5"])], true);
    assert_eq!(texts(&panel.header), ["HOST", "CHIP", "PID", "HBM", "USED/TOTAL", "TC Util"]);
    assert_eq!(
        texts(&panel.rows[0].cells),
        ["a", "0", "77", "░░░░░░░░   0%", "—/192 GiB", "  0%"]
    );
    assert_eq!(
        tints(&panel.rows[0].cells),
        [Tint::Gray, Tint::Accent, Tint::Gray, Tint::Dim, Tint::Dim, Tint::Dim]
    );
    assert_eq!(texts(&panel.rows[1].cells)[5], "  5%");
    assert_eq!(panel.widths[0], Size::Length(18));
    for r in &panel.rows {
        assert_eq!(r.cells.len(), panel.header.len());
        assert_eq!(panel.widths.len(), panel.header.len());
    }
}

#[test]
fn processes_are_listed() {
    let long = "x".repeat(100);
    let procs = [process(10, 2048, 65, &long), process(-1, 3 << 20, 3661, "b")];
    let panel = draw_procs(&procs, &[proc_figures(151.0), proc_figures(3.0)]);
    assert_eq!(panel.title, " Processes (2 using TPU) ");
    assert_eq!(
        texts(&panel.rows[0].cells),
        ["10", "ann", "151", "2M", "2.5", "1:05", "12", "0-3", &"x".repeat(60)]
    );
    assert_eq!(panel.rows[0].cells[2].tint, Tint::Red);
    assert_eq!(panel.rows[1].cells[2].tint, Tint::Green);
    assert_eq!(texts(&panel.rows[1].cells)[..6], ["-1", "ann", "151", "3.0G", "2.5", "1:01:01"]);
    assert!(panel.rows[1].striped);
    assert_eq!(panel.header.len(), panel.widths.len());
    assert_eq!(draw_procs(&[], &[]).title, " Processes (none using TPU) ");
}

#[test]
fn the_screen_is_laid_out() {
    let a = app(vec![row("a", 0, 0, 5.0, true)], vec![process(10, 1, 1, "c")]);
    let f = figures(vec![chip_figures(&["5"])], vec![proc_figures(1.0)]);
    assert!(complete(&a, &f));
    let area = Area { x: 0, y: 0, width: 100, height: 40 };
    let screen = draw(&a, &f, area);
    let spans: Vec<(u16, u16)> = screen.panes.areas.iter().map(|p| (p.y, p.height)).collect();
    assert_eq!(spans, [(0, 3), (3, 19), (22, 9), (31, 6), (37, 3)]);
    assert!(screen.panes.areas.iter().all(|p| p.x == 0 && p.width == 100));
    let halves: Vec<(u16, u16)> = screen.history_panes.areas.iter().map(|p| (p.x, p.width)).collect();
    assert_eq!(halves, [(0, 50), (50, 50)]);
    assert!(screen.history_panes.areas.iter().all(|p| p.y == 31 && p.height == 6));
    let parts: Vec<(u16, u16)> = screen.host_panes.areas.iter().map(|p| (p.x, p.width)).collect();
    assert_eq!(parts, [(0, 22), (22, 26), (48, 26), (74, 26)]);

    assert_eq!(
        texts(&screen.header.line),
        [
            "  TPU ", "7x", "  chips=2 cores=4", "    ", "● ACTIVE", "   up 1h1m", "   ", "slice: OK",
            "   host tpu-vm",
        ]
    );
    assert_eq!(screen.header.title, " ⣿ tpu-monitor ");
    assert_eq!(screen.header.hint.unwrap().text, "[q] quit ");
    assert_eq!(screen.duty.title, " TC Util (duty cycle)  42% ");
    assert_eq!(screen.duty.data, [5, 42]);
    assert_eq!(screen.hbm.title, " HBM usage  0% ");
    assert_eq!(screen.host.cpu.label.text, "12%");
    assert_eq!(screen.host.cpu.tint, Tint::Green);
    assert_eq!(screen.host.mem.label.text, "3/8 GiB");
    assert_eq!(screen.host.mem.tint, Tint::Yellow);
    assert_eq!(screen.host.mem.ratio, reading(0.5));
    assert_eq!(screen.host.disk.title, " /data ");
    assert_eq!(screen.host.disk.label.text, "70/100 GiB");
    assert_eq!(screen.host.disk.tint, Tint::Red);
    assert_eq!(texts(&screen.host.io.line), ["disk ", "R 1 W 2 ", "net ", "↓3 ↑4"]);
}

#[test]
fn gauges_stay_between_empty_and_full() {
    let mut f = figures(vec![], vec![]).host;
    f.cpu_quotient = reading(1.5);
    f.cpu_text = "150".to_string();
    f.mem_quotient = reading(-0.5);
    f.disk_quotient = reading(7.0);
    let panels = draw_host(&host(), &f);
    assert_eq!(panels.cpu.ratio, reading(1.0));
    assert_eq!(panels.cpu.label.text, "150%");
    assert_eq!(panels.cpu.tint, Tint::Red);
    assert_eq!(panels.mem.ratio, reading(0.0));
    assert_eq!(panels.mem.tint, Tint::Green);
    assert_eq!(panels.disk.ratio, reading(1.0));
    let mut bare = host();
    bare.mem_total = 0;
    bare.disk_total = 0;
    f.mem_quotient = reading(f64::NAN);
    f.disk_quotient = reading(f64::INFINITY);
    let panels = draw_host(&bare, &f);
    assert_eq!(panels.mem.ratio, reading(0.0));
    assert_eq!(panels.disk.ratio, reading(0.0));
}

#[test]
fn chips_without_memory_show_empty_bars() {
    let mut lone = row("a", 0, 0, 5.0, true);
    lone.total = reading(0.0);
    let mut shown = chip_figures(&["5"]);
    shown.hbm_pct = reading(f64::NAN);
    shown.pct = "NaN".to_string();
    let panel = draw_table(&[lone], &[shown], false);
    assert_eq!(panel.rows[0].cells[2].text, "░░░░░░░░   0%");
    assert_eq!(panel.rows[0].cells[2].tint, Tint::Green);
}

#[test]
fn faults_and_silence_stand_out() {
    let mut a = app(vec![], vec![]);
    a.any_metrics = false;
    a.slice_error = reading(f64::NAN);
    let f = figures(vec![], vec![]);
    let screen = draw(&a, &f, Area { x: 1, y: 2, width: 30, height: 10 });
    assert_eq!(screen.header.line[4].text, "○ IDLE");
    assert_eq!(screen.header.line[4].tint, Tint::Dim);
    assert_eq!(screen.header.line[7].text, "slice: ERROR!");
    assert_eq!(screen.header.line[7].tint, Tint::Red);
    for p in screen.panes.areas.iter().chain(&screen.history_panes.areas).chain(&screen.host_panes.areas) {
        assert!(p.x >= 1 && p.x + p.width <= 31);
        assert!(p.y >= 2 && p.y + p.height <= 12);
    }
}

#[test]
fn missing_figures_are_told() {
    let a = app(vec![row("a", 0, 0, 5.0, true), row("a", 1, 0, 5.0, true)], vec![]);
    assert!(complete(&a, &figures(vec![chip_figures(&["1", "2"])], vec![])));
    assert!(!complete(&a, &figures(vec![chip_figures(&["1"])], vec![])));
    assert!(!complete(&a, &figures(vec![], vec![])));
    assert!(!complete(&a, &figures(vec![chip_figures(&["1", "2"])], vec![proc_figures(1.0)])));
}

#[test]
fn areas_are_divided_within_their_bounds() {
    for (w, h) in [(0, 0), (1, 1), (80, 24), (65535, 3)] {
        let area = Area { x: 0, y: 0, width: w, height: h };
        let sizes = vec![Size::Percentage(22), Size::Min(5), Size::Length(40)];
        let panes = lay_out(Plan { axis: Axis::Horizontal, sizes }, area);
        assert_eq!(panes.areas.len(), 3);
        for p in panes.areas {
            assert!(p.x as u32 + p.width as u32 <= w as u32);
            assert_eq!((p.y, p.height), (0, h));
        }
    }
    let far = Area { x: 65000, y: 65530, width: 1000, height: 100 };
    let panes = lay_out(Plan { axis: Axis::Vertical, sizes: vec![Size::Length(3), Size::Min(2)] }, far);
    assert!(panes.areas.iter().all(|p| p.x == 65000 && p.width == 1000 && p.y >= 65530));
    assert!(lay_out(Plan { axis: Axis::Vertical, sizes: vec![] }, far).areas.is_empty());
}

#[test]
fn sizes_that_fit_are_granted() {
    let sizes = vec![Size::Length(3), Size::Min(5), Size::Length(9), Size::Length(6), Size::Length(3)];
    for height in [26, 27, 60, 200] {
        let area = Area { x: 4, y: 7, width: 50, height };
        let parts = lay_out(Plan { axis: Axis::Vertical, sizes: sizes.clone() }, area).areas;
        let heights: Vec<u16> = parts.iter().map(|p| p.height).collect();
        assert_eq!(heights, [3, height - 21, 9, 6, 3]);
        assert_eq!(parts[0].y, 7);
        assert!(parts.windows(2).all(|p| p[1].y == p[0].y + p[0].height));
    }
    for width in [0, 7, 83, 200] {
        let area = Area { x: 4, y: 7, width, height: 3 };
        let shares = vec![Size::Percentage(22), Size::Percentage(26), Size::Percentage(26), Size::Percentage(26)];
        let parts = lay_out(Plan { axis: Axis::Horizontal, sizes: shares.clone() }, area).areas;
        assert_eq!(parts[0].x, 4);
        assert!(parts.windows(2).all(|p| p[1].x == p[0].x + p[0].width));
        for (part, share) in parts.iter().zip(shares) {
            if let Size::Percentage(n) = share {
                let off = 100 * part.width as i32 - width as i32 * n as i32;
                assert!(-100 <= off && off <= 100);
            }
        }
    }
}

#[test]
fn the_screen_covers_any_terminal() {
    let a = app(vec![row("a", 0, 0, 5.0, true)], vec![]);
    let f = figures(vec![chip_figures(&["5"])], vec![]);
    for height in 0..40 {
        let screen = draw(&a, &f, Area { x: 2, y: 1, width: 80, height });
        let panes = &screen.panes.areas;
        assert_eq!(panes[0].y, 1);
        assert!(panes.windows(2).all(|p| p[1].y == p[0].y + p[0].height));
        assert_eq!(panes.iter().map(|p| p.height).sum::<u16>(), height);
        let chips = if height >= 26 { height - 21 } else { height.min(5) };
        assert_eq!(panes[1].height, chips);
        for (pane, most) in [(0, 3), (2, 9), (3, 6), (4, 3)] {
            assert!(panes[pane].height <= most);
        }
    }
}

#[test]
fn the_screen_covers_a_common_terminal() {
    let a = app(vec![row("a", 0, 0, 5.0, true)], vec![]);
    let f = figures(vec![chip_figures(&["5"])], vec![]);
    let screen = draw(&a, &f, Area { x: 0, y: 0, width: 80, height: 24 });
    let panes = &screen.panes.areas;
    assert_eq!(panes[0].y, 0);
    assert!(panes.windows(2).all(|p| p[1].y == p[0].y + p[0].height));
    assert_eq!(panes.iter().map(|p| p.height).sum::<u16>(), 24);
    assert_eq!(panes[1].height, 5);
    for parts in [&screen.history_panes.areas, &screen.host_panes.areas] {
        assert_eq!(parts[0].x, 0);
        assert!(parts.windows(2).all(|p| p[1].x == p[0].x + p[0].width));
        assert_eq!(parts.iter().map(|p| p.width).sum::<u16>(), 80);
    }
}

#[test]
fn short_space_goes_to_the_least_numbers_first() {
    let sizes = vec![Size::Length(10), Size::Min(4), Size::Length(10), Size::Min(6)];
    for width in [0, 3, 9, 10, 11, 20, 29, 30, 31, 90] {
        let area = Area { x: 5, y: 0, width, height: 1 };
        let parts = lay_out(Plan { axis: Axis::Horizontal, sizes: sizes.clone() }, area).areas;
        assert_eq!(parts[0].x, 5);
        assert!(parts.windows(2).all(|p| p[1].x == p[0].x + p[0].width));
        assert_eq!(parts.iter().map(|p| p.width).sum::<u16>(), width);
        if width >= 30 {
            assert_eq!((parts[0].width, parts[2].width), (10, 10));
            assert!(parts[1].width >= 4 && parts[3].width >= 6);
        } else if width >= 10 {
            assert!(parts[0].width <= 10 && parts[2].width <= 10);
            assert_eq!((parts[1].width, parts[3].width), (4, 6));
        } else {
            assert_eq!((parts[0].width, parts[2].width), (0, 0));
            assert!(parts[1].width <= 4 && parts[3].width <= 6);
        }
    }
}

#[test]
fn shares_of_nothing_are_zero() {
    assert_eq!(hbm_share(reading(0.0), reading(70.0)), reading(0.0));
    assert_eq!(hbm_share(reading(-1.0), reading(70.0)), reading(0.0));
    assert_eq!(hbm_share(reading(f64::NAN), reading(70.0)), reading(0.0));
    assert_eq!(hbm_share(reading(2.0), reading(70.0)), reading(70.0));
    assert_eq!(ratio_of(0, reading(0.5)), reading(0.0));
    assert_eq!(ratio_of(1, reading(0.5)), reading(0.5));
    assert_eq!(ratio_of(1, reading(1.5)), reading(1.0));
    assert_eq!(ratio_of(1, reading(-0.5)), reading(0.0));
}

fn core_figures() -> CoreFigures {
    CoreFigures { used: "1.5".to_string(), total: "32".to_string(), duty: "12.5".to_string() }
}

#[test]
fn cores_are_listed_in_a_table() {
    let rows = [row("a", 0, 0, 12.5, true), row("b", 1, 0, 0.0, false)];
    assert_eq!(
        core_table_cells(&rows, &[core_figures(), core_figures()], true),
        [vec!["a", "0", "77", "1.5/32 GiB", "12.5"], vec!["b", "1", "77", "—/32 GiB", "0"]]
    );
    let text = core_table(&rows[..1], &[core_figures()], false);
    let wanted = [
        "┌──────┬─────┬──────────────────────┬──────────┐",
        "│ Core ┆ PID ┆ HBM used/total (GiB) ┆ TC Util% │",
        "╞══════╪═════╪══════════════════════╪══════════╡",
        "│ 0    ┆ 77  ┆ 1.5/32 GiB           ┆ 12.5     │",
        "└──────┴─────┴──────────────────────┴──────────┘",
    ];
    assert_eq!(text, wanted.join("\n"));
}

fn found(any_metrics: bool) -> Collected {
    Collected {
        rows: vec![row("a", 0, 0, 12.5, true)],
        any_metrics,
        uptime_secs: reading(7300.0),
        slice_error: reading(if any_metrics { 0.0 } else { 1.0 }),
    }
}

#[test]
fn the_snapshot_opens_with_the_machine() {
    let chip = ChipType { name: "v6e", hbm_gib: 32, devices_per_chip: 1 };
    let info = DeviceInfo { chip: Some(chip), chips: 8, cores: 8 };
    let lines = opening(&info, &found(true), &[core_figures()], false, "tpu-vm");
    assert_eq!(lines.len(), 2);
    assert_eq!(lines[0], "TPU v6e   chips=8 cores=8   up 2h1m   slice: OK   host=tpu-vm");
    assert!(lines[1].contains("1.5/32 GiB"));
    let none = DeviceInfo { chip: None, chips: 0, cores: 0 };
    let lines = opening(&none, &found(false), &[core_figures()], true, "?");
    assert_eq!(lines[0], "TPU unknown   chips=0 cores=0   up 2h1m   slice: ERROR!   host=?");
    assert!(lines[1].contains("Host"));
    assert_eq!(lines[2], NO_METRICS);
    assert_eq!(
        NO_METRICS,
        "\x1b[33m(runtime metrics unavailable: no TPU workload / port 8431 down)\x1b[0m"
    );
}

#[test]
fn the_snapshot_closes_with_host_and_processes() {
    let lines = closing(&host(), "12", &io_figures(), &[], &[], true);
    assert_eq!(
        lines,
        [
            "Host: CPU 12%   RAM 3/8 GiB   /data 70/100 GiB   | disk R 1 W 2 MB/s  net ↓3 ↑4 MB/s",
            "Processes: (none using TPU)",
        ]
    );
    let long = "y".repeat(100);
    let procs = [process(4242, 1 << 20, 65, &long)];
    let short = closing(&host(), "12", &io_figures(), &procs, &[proc_figures(1.0)], false);
    assert_eq!(
        short[1],
        format!(
            "{:<8}{:<10}{:>6}{:>8}{:>6}{:>9}{:>5}  {:<6}",
            "PID", "USER", "CPU%", "RES", "MEM%", "TIME+", "THR", "DEV"
        )
    );
    assert!(short.iter().all(|line| !line.contains("COMMAND") && !line.contains('y')));
    assert_eq!(
        short[2],
        format!(
            "{:<8}{:<10}{:>6}{:>8}{:>6}{:>9}{:>5}  {:<6}",
            4242, "ann", "151", "1.0G", "2.5", "1:05", 12, "0-3"
        )
    );
    let lines = closing(&host(), "12", &io_figures(), &procs, &[proc_figures(1.0)], true);
    assert_eq!(
        lines[1],
        format!(
            "{:<8}{:<10}{:>6}{:>8}{:>6}{:>9}{:>5}  {:<6} COMMAND",
            "PID", "USER", "CPU%", "RES", "MEM%", "TIME+", "THR", "DEV"
        )
    );
    assert_eq!(
        lines[2],
        format!(
            "{:<8}{:<10}{:>6}{:>8}{:>6}{:>9}{:>5}  {:<6} {}",
            4242, "ann", "151", "1.0G", "2.5", "1:05", 12, "0-3", "y".repeat(70)
        )
    );
}
