//! What the live view keeps from one round to the next, and the keys that end it.
use std::collections::VecDeque;

use vstd::prelude::*;

use crate::collect::{chip_label, Collected};
use crate::device::DeviceInfo;
use crate::host::HostStats;
use crate::reading::Reading;
use crate::sysmon::{IoStats, ProcInfo};
use crate::ui::App;

verus! {

/// How many rounds the history goes back.
pub const HIST_LEN: usize = 240;

/// The load of the last rounds, in whole percent.
pub struct History {
    duty: VecDeque<u64>,
    hbm: VecDeque<u64>,
}

/// The contents of a `History`, the oldest round first.
#[verifier::ext_equal]
pub struct HistoryView {
    /// How busy the cores were.
    pub duty: Seq<u64>,
    /// How full their memory was.
    pub hbm: Seq<u64>,
}

impl View for History {
    type V = HistoryView;

    closed spec fn view(&self) -> HistoryView {
        HistoryView { duty: self.duty@, hbm: self.hbm@ }
    }
}

/// The last `n` items of `s`, or all of them.
pub open spec fn latest(s: Seq<u64>, n: nat) -> Seq<u64> {
    if s.len() <= n {
        s
    } else {
        s.skip(s.len() - n)
    }
}

/// An average in whole percent, zero where nothing was measured.
pub open spec fn whole_percent(average: Option<Reading>) -> u64 {
    match average {
        Some(v) => v.truncated(),
        None => 0,
    }
}

impl HistoryView {
    /// Whether both series cover the same rounds, and no more than are kept.
    pub open spec fn well_formed(self) -> bool {
        self.duty.len() == self.hbm.len() && self.duty.len() <= HIST_LEN
    }

    /// The history after one more round.
    pub open spec fn with_round(self, duty: u64, hbm: u64) -> HistoryView {
        HistoryView {
            duty: latest(self.duty.push(duty), HIST_LEN as nat),
            hbm: latest(self.hbm.push(hbm), HIST_LEN as nat),
        }
    }
}

/// The history after all the given rounds, of which each has a duty cycle and a memory
/// use.
pub open spec fn after_rounds(rounds: Seq<(u64, u64)>) -> HistoryView
    decreases rounds.len(),
{
    if rounds.len() == 0 {
        HistoryView { duty: Seq::empty(), hbm: Seq::empty() }
    } else {
        after_rounds(rounds.drop_last()).with_round(rounds.last().0, rounds.last().1)
    }
}

/// However many rounds there were, the history holds the latest ones and no others.
pub proof fn law_history_holds_latest_rounds(rounds: Seq<(u64, u64)>)
    ensures
        after_rounds(rounds).well_formed(),
        after_rounds(rounds).duty == latest(
            Seq::new(rounds.len(), |i: int| rounds[i].0),
            HIST_LEN as nat,
        ),
        after_rounds(rounds).hbm == latest(
            Seq::new(rounds.len(), |i: int| rounds[i].1),
            HIST_LEN as nat,
        ),
    decreases rounds.len(),
{
    let duty = Seq::new(rounds.len(), |i: int| rounds[i].0);
    let hbm = Seq::new(rounds.len(), |i: int| rounds[i].1);
    if rounds.len() == 0 {
        assert(duty =~= Seq::empty() && hbm =~= Seq::empty());
    } else {
        law_history_holds_latest_rounds(rounds.drop_last());
        assert(after_rounds(rounds).duty =~= latest(duty, HIST_LEN as nat));
        assert(after_rounds(rounds).hbm =~= latest(hbm, HIST_LEN as nat));
    }
}

fn listed(series: &VecDeque<u64>) -> (r: Vec<u64>)
    ensures
        r@ == series@,
{
    let mut out: Vec<u64> = Vec::new();
    let mut i: usize = 0;
    while i < series.len()
        invariant
            i <= series.len(),
            out@ == series@.take(i as int),
        decreases series.len() - i,
    {
        out.push(series[i]);
        i = i + 1;
    }
    out
}

fn percent(average: Option<Reading>) -> (r: u64)
    ensures
        r == whole_percent(average),
{
    match average {
        Some(v) => v.trunc(),
        None => 0,
    }
}

impl History {
    /// A history of no rounds.
    pub fn new() -> (r: History)
        ensures
            r@ == after_rounds(Seq::empty()),
            r@.well_formed(),
    {
        History { duty: VecDeque::with_capacity(HIST_LEN), hbm: VecDeque::with_capacity(HIST_LEN) }
    }

    /// Takes in one more round: the average duty cycle and memory use over the cores that
    /// were measured, in percent, missing where none was. The oldest round makes room.
    pub fn record(&mut self, duty: Option<Reading>, hbm: Option<Reading>)
        requires
            old(self)@.well_formed(),
        ensures
            final(self)@ == old(self)@.with_round(whole_percent(duty), whole_percent(hbm)),
            final(self)@.well_formed(),
    {
        if self.duty.len() == HIST_LEN {
            self.duty.pop_front();
            self.hbm.pop_front();
        }
        self.duty.push_back(percent(duty));
        self.hbm.push_back(percent(hbm));
        assert(self@ =~= old(self)@.with_round(whole_percent(duty), whole_percent(hbm)));
    }

    /// How busy the cores were, the oldest round first.
    pub fn duty_values(&self) -> (r: Vec<u64>)
        ensures
            r@ == self@.duty,
    {
        listed(&self.duty)
    }

    /// How full the memory was, the oldest round first.
    pub fn hbm_values(&self) -> (r: Vec<u64>)
        ensures
            r@ == self@.hbm,
    {
        listed(&self.hbm)
    }
}

/// The live view from round to round.
pub struct Session {
    chip: String,
    chips: usize,
    cores: usize,
    multi_host: bool,
    history: History,
}

/// The contents of a `Session`.
pub struct SessionView {
    /// The name of this machine's chips.
    pub chip: Seq<char>,
    pub chips: usize,
    pub cores: usize,
    /// Whether several hosts are looked at.
    pub multi_host: bool,
    pub history: HistoryView,
}

impl View for Session {
    type V = SessionView;

    closed spec fn view(&self) -> SessionView {
        SessionView {
            chip: self.chip@,
            chips: self.chips,
            cores: self.cores,
            multi_host: self.multi_host,
            history: self.history@,
        }
    }
}

impl Session {
    /// A session that has seen no round yet, on the machine that `info` describes and with
    /// so many hosts.
    pub fn new(info: &DeviceInfo, hosts: usize) -> (r: Session)
        ensures
            r@ == (SessionView {
                chip: match info.chip {
                    Some(c) => c.name@,
                    None => "unknown"@,
                },
                chips: info.chips,
                cores: info.cores,
                multi_host: hosts > 1,
                history: after_rounds(Seq::empty()),
            }),
            r@.history.well_formed(),
    {
        let (chip, chips, cores) = chip_label(info);
        Session { chip, chips, cores, multi_host: hosts > 1, history: History::new() }
    }

    /// Takes in one more round and gives what is to be shown. `duty` and `hbm` are the
    /// averages over the cores that were measured, in percent, missing where none was.
    pub fn round(
        &mut self,
        found: Collected,
        duty: Option<Reading>,
        hbm: Option<Reading>,
        host: HostStats,
        procs: Vec<ProcInfo>,
        io: IoStats,
    ) -> (r: App)
        requires
            old(self)@.history.well_formed(),
        ensures
            final(self)@ == (SessionView {
                history: old(self)@.history.with_round(whole_percent(duty), whole_percent(hbm)),
                ..old(self)@
            }),
            final(self)@.history.well_formed(),
            r.chip@ == final(self)@.chip,
            r.chips == final(self)@.chips,
            r.cores == final(self)@.cores,
            r.multi_host == final(self)@.multi_host,
            r.duty_hist@ == final(self)@.history.duty,
            r.hbm_hist@ == final(self)@.history.hbm,
            r.rows == found.rows,
            r.any_metrics == found.any_metrics,
            r.uptime_secs == found.uptime_secs,
            r.slice_error == found.slice_error,
            r.host == host,
            r.procs == procs,
            r.io == io,
    {
        self.history.record(duty, hbm);
        App {
            chip: self.chip.clone(),
            chips: self.chips,
            cores: self.cores,
            multi_host: self.multi_host,
            rows: found.rows,
            host,
            duty_hist: self.history.duty_values(),
            hbm_hist: self.history.hbm_values(),
            any_metrics: found.any_metrics,
            procs,
            io,
            uptime_secs: found.uptime_secs,
            slice_error: found.slice_error,
        }
    }
}

/// A key.
#[derive(Clone, Copy, PartialEq, Eq, Structural, Debug)]
pub enum Key {
    Char(char),
    Esc,
    /// Any other key.
    Other,
}

/// Whether a key ends the live view: `q`, escape, or `c` with the control key held.
pub fn quits(key: Key, control: bool) -> (r: bool)
    ensures
        r == (key == Key::Char('q') || key == Key::Esc || (key == Key::Char('c') && control)),
{
    match key {
        Key::Char(c) => c == 'q' || (c == 'c' && control),
        Key::Esc => true,
        Key::Other => false,
    }
}

} // verus!
