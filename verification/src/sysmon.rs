//! The processes that hold TPU devices, and the traffic of the disk and the network
//! between two samples.
use std::collections::{BTreeMap, HashMap};

use vstd::prelude::*;

use crate::device::{command_text, decoded_text, well_formed};
use crate::number::{decimal, show};
use crate::procfs::{
    disk_counters, disk_device_for, file_lines, labelled_number, labelled_user, mem_total_kb,
    mounted_device, net_fits, net_sums, net_totals, read_command, read_disk, read_stat, read_status,
    read_users, shown_command, stat_threads, stat_times, user_names, users_of,
};
use crate::ranges::{compress, ids_text};
use crate::reading::{quotient, whole_quotient};
use crate::text::lines_of;

verus! {

/// Ticks of the system's process clock in a second.
pub const CLK_TCK: u64 = 100;

/// A process that holds TPU devices.
pub struct ProcInfo {
    pub pid: i32,
    pub user: String,
    /// CPU time since the last sample, in ticks.
    pub cpu_ticks: u64,
    /// Resident memory in kibibytes.
    pub rss_kb: u64,
    /// Resident memory and the machine's memory, where that is known.
    pub mem_share: Option<(u64, u64)>,
    /// CPU time since its start, in seconds.
    pub time_secs: u64,
    pub threads: u64,
    /// The devices that it holds.
    pub devices: String,
    pub cmd: String,
}

/// The contents of a `ProcInfo`.
pub struct ProcView {
    pub pid: i32,
    pub user: Seq<char>,
    pub cpu_ticks: u64,
    pub rss_kb: u64,
    pub mem_share: Option<(u64, u64)>,
    pub time_secs: u64,
    pub threads: u64,
    pub devices: Seq<char>,
    pub cmd: Seq<char>,
}

impl View for ProcInfo {
    type V = ProcView;

    open spec fn view(&self) -> ProcView {
        ProcView {
            pid: self.pid,
            user: self.user@,
            cpu_ticks: self.cpu_ticks,
            rss_kb: self.rss_kb,
            mem_share: self.mem_share,
            time_secs: self.time_secs,
            threads: self.threads,
            devices: self.devices@,
            cmd: self.cmd@,
        }
    }
}

/// The traffic since the last sample; zero where there is nothing to compare with.
pub struct IoStats {
    /// The block device looked at.
    pub disk_dev: String,
    /// Sectors read.
    pub disk_r: u64,
    /// Sectors written.
    pub disk_w: u64,
    /// Bytes received.
    pub net_rx: u64,
    /// Bytes sent.
    pub net_tx: u64,
    /// The time since the last sample, in nanoseconds.
    pub elapsed_ns: u64,
}

/// The raw contents of a process's files; one that could not be read is missing.
pub struct ProcFiles {
    pub pid: i32,
    pub stat: Option<String>,
    pub status: Option<String>,
    pub cmdline: Option<Vec<u8>>,
}

/// What is kept from one sample to the next.
pub struct SysMon {
    users: HashMap<u32, String>,
    mem_total_kb: u64,
    disk_dev: String,
    prev_cpu: HashMap<i32, u64>,
    prev_ns: Option<u64>,
    prev_disk: Option<(u64, u64)>,
    prev_net: Option<(u64, u64)>,
}

/// The contents of a `SysMon`.
pub struct SysMonView {
    /// The names of the users by number.
    pub users: Map<u32, Seq<char>>,
    /// The machine's memory in kibibytes, zero where it is not known.
    pub mem_total_kb: u64,
    /// The block device looked at, empty where there is none.
    pub disk_dev: Seq<char>,
    /// The CPU time of each process at the last sample, in ticks.
    pub prev_cpu: Map<i32, u64>,
    /// The time of the last sample, in nanoseconds.
    pub prev_ns: Option<u64>,
    /// Sectors read and written at the last sample that could read them.
    pub prev_disk: Option<(u64, u64)>,
    /// Bytes received and sent at the last sample that could read them.
    pub prev_net: Option<(u64, u64)>,
}

impl View for SysMon {
    type V = SysMonView;

    closed spec fn view(&self) -> SysMonView {
        SysMonView {
            users: user_names(self.users@),
            mem_total_kb: self.mem_total_kb,
            disk_dev: self.disk_dev@,
            prev_cpu: self.prev_cpu@,
            prev_ns: self.prev_ns,
            prev_disk: self.prev_disk,
            prev_net: self.prev_net,
        }
    }
}

/// `a - b`, or zero where `b` is larger.
pub open spec fn grown(a: u64, b: u64) -> u64 {
    if a >= b {
        (a - b) as u64
    } else {
        0
    }
}

/// The lines of a file; one that is missing has none.
pub open spec fn lines_in(file: Option<String>) -> Seq<Seq<char>> {
    match file {
        Some(t) => lines_of(t@),
        None => Seq::empty(),
    }
}

/// Whether a process's CPU time can be counted in 64 bits.
pub open spec fn ticks_fit(files: ProcFiles) -> bool {
    match files.stat {
        Some(stat) => match stat_times(stat@) {
            Some(times) => times.0 + times.1 <= u64::MAX,
            None => true,
        },
        None => true,
    }
}

/// Whether all sums over the files can be counted in 64 bits.
pub open spec fn sums_fit(files: Seq<ProcFiles>, net: Option<&str>) -> bool {
    &&& forall|i: int| 0 <= i < files.len() ==> ticks_fit(#[trigger] files[i])
    &&& net_fits(file_lines(net))
}

/// The files of a process, the first ones given.
pub open spec fn files_of(files: Seq<ProcFiles>, pid: i32) -> Option<ProcFiles>
    decreases files.len(),
{
    if files.len() == 0 {
        None
    } else if files.first().pid == pid {
        Some(files.first())
    } else {
        files_of(files.drop_first(), pid)
    }
}

/// Whether a command line that is well-formed UTF-8 is shown as it is decoded.
pub open spec fn shown_decoded(files: ProcFiles) -> bool {
    match files.cmdline {
        Some(raw) => well_formed(raw@) ==> command_text(raw@) == decoded_text(raw@),
        None => true,
    }
}

/// The devices that a process holds.
pub open spec fn devices_of(owners: Map<i64, i32>, pid: i32) -> Set<i64> {
    Set::new(|dev: i64| owners.contains_key(dev) && owners[dev] == pid)
}

impl SysMonView {
    /// The name of a user, or the number where no name is known.
    pub open spec fn user_name(self, uid: u32) -> Seq<char> {
        if self.users.contains_key(uid) {
            self.users[uid]
        } else {
            decimal(uid as nat)
        }
    }

    /// The time since the last sample, zero at the first.
    pub open spec fn elapsed(self, now_ns: u64) -> u64 {
        match self.prev_ns {
            Some(then) => grown(now_ns, then),
            None => 0,
        }
    }

    /// How a process is described, and its CPU time in ticks; nothing where its status
    /// line is missing or not one. `elapsed_ns` is the time since the last sample.
    pub open spec fn described(
        self,
        files: ProcFiles,
        elapsed_ns: u64,
        devices: Seq<char>,
    ) -> Option<(ProcView, u64)> {
        match files.stat {
            Some(stat) => match stat_times(stat@) {
                Some(times) => {
                    let total = (times.0 + times.1) as u64;
                    let rss_kb = labelled_number(lines_in(files.status), "VmRSS:"@);
                    let uid = labelled_user(lines_in(files.status), "Uid:"@);
                    Some(
                        (
                            ProcView {
                                pid: files.pid,
                                user: self.user_name(uid),
                                cpu_ticks: if self.prev_cpu.contains_key(files.pid) && elapsed_ns
                                    > 0 {
                                    grown(total, self.prev_cpu[files.pid])
                                } else {
                                    0
                                },
                                rss_kb,
                                mem_share: if self.mem_total_kb > 0 {
                                    Some((rss_kb, self.mem_total_kb))
                                } else {
                                    None
                                },
                                time_secs: whole_quotient(total as nat, CLK_TCK as nat) as u64,
                                threads: stat_threads(stat@),
                                devices,
                                cmd: shown_command(
                                    match files.cmdline {
                                        Some(raw) => Some(raw@),
                                        None => None,
                                    },
                                    stat@,
                                ),
                            },
                            total,
                        ),
                    )
                },
                None => None,
            },
            None => None,
        }
    }

    /// How the process `pid` is described if it holds a device; nothing where it holds
    /// none or its status line cannot be read.
    pub open spec fn seen(
        self,
        now_ns: u64,
        owners: Map<i64, i32>,
        files: Seq<ProcFiles>,
        pid: i32,
    ) -> Option<(ProcView, u64)> {
        if owners.values().contains(pid) && files_of(files, pid) is Some {
            self.described(
                files_of(files, pid)->0,
                self.elapsed(now_ns),
                ids_text(devices_of(owners, pid)),
            )
        } else {
            None
        }
    }
}

/// Traffic between two counters, zero where one is missing or no time has passed.
pub open spec fn traffic(
    now: Option<(u64, u64)>,
    then: Option<(u64, u64)>,
    elapsed_ns: u64,
) -> (u64, u64) {
    match (now, then) {
        (Some(a), Some(b)) => if elapsed_ns > 0 {
            (grown(a.0, b.0), grown(a.1, b.1))
        } else {
            (0, 0)
        },
        _ => (0, 0),
    }
}

/// The later of two counters that may be missing.
pub open spec fn newest(now: Option<(u64, u64)>, then: Option<(u64, u64)>) -> Option<(u64, u64)> {
    match now {
        Some(a) => Some(a),
        None => then,
    }
}

/// The sectors read and written, where the device is known and listed.
pub open spec fn disk_now(disk: Option<&str>, device: Seq<char>) -> Option<(u64, u64)> {
    if device.len() == 0 {
        None
    } else {
        disk_counters(file_lines(disk), device)
    }
}

/// The bytes received and sent, where the file could be read.
pub open spec fn net_now(net: Option<&str>) -> Option<(u64, u64)> {
    match net {
        Some(t) => Some(
            (net_totals(lines_of(t@)).0 as u64, net_totals(lines_of(t@)).1 as u64),
        ),
        None => None,
    }
}

impl SysMonView {
    /// What is kept after a sample: the CPU time of each process seen, the time, and the
    /// newest counters.
    pub open spec fn after(
        self,
        now_ns: u64,
        owners: Map<i64, i32>,
        files: Seq<ProcFiles>,
        disk: Option<&str>,
        net: Option<&str>,
    ) -> SysMonView {
        SysMonView {
            users: self.users,
            mem_total_kb: self.mem_total_kb,
            disk_dev: self.disk_dev,
            prev_cpu: Map::new(
                |pid: i32| self.seen(now_ns, owners, files, pid) is Some,
                |pid: i32| (self.seen(now_ns, owners, files, pid)->0).1,
            ),
            prev_ns: Some(now_ns),
            prev_disk: newest(disk_now(disk, self.disk_dev), self.prev_disk),
            prev_net: newest(net_now(net), self.prev_net),
        }
    }
}

/// A first sample measures nothing: no process has used the CPU since the last one, and
/// there has been no traffic.
pub proof fn law_first_sample_measures_nothing(
    state: SysMonView,
    now_ns: u64,
    owners: Map<i64, i32>,
    files: Seq<ProcFiles>,
    pid: i32,
    now: Option<(u64, u64)>,
    then: Option<(u64, u64)>,
)
    requires
        state.prev_ns is None,
    ensures
        state.seen(now_ns, owners, files, pid) is Some ==> (state.seen(
            now_ns,
            owners,
            files,
            pid,
        )->0).0.cpu_ticks == 0,
        traffic(now, then, state.elapsed(now_ns)) == (0u64, 0u64),
{
}

/// The second of two samples measures what each process used between them: the growth of
/// its CPU time since the first, nothing where the first did not see it.
pub proof fn law_second_sample_measures_cpu_growth(
    state: SysMonView,
    first_ns: u64,
    first_owners: Map<i64, i32>,
    first_files: Seq<ProcFiles>,
    disk: Option<&str>,
    net: Option<&str>,
    now_ns: u64,
    owners: Map<i64, i32>,
    files: Seq<ProcFiles>,
    pid: i32,
)
    requires
        first_ns < now_ns,
        state.after(first_ns, first_owners, first_files, disk, net).seen(
            now_ns,
            owners,
            files,
            pid,
        ) is Some,
    ensures
        ({
            let between = state.after(first_ns, first_owners, first_files, disk, net);
            let earlier = state.seen(first_ns, first_owners, first_files, pid);
            let later = between.seen(now_ns, owners, files, pid)->0;
            later.0.cpu_ticks == match earlier {
                Some(e) => grown(later.1, e.1),
                None => 0,
            }
        }),
{
    let between = state.after(first_ns, first_owners, first_files, disk, net);
    let earlier = state.seen(first_ns, first_owners, first_files, pid);
    let later = between.seen(now_ns, owners, files, pid)->0;
    lemma_files_are_its_own(files, pid);
    assert(later.0.pid == pid);
    assert(between.prev_cpu.contains_key(pid) == (earlier is Some));
}

/// The second of two samples measures the traffic between them: the growth of each
/// counter that both could read, over the time between the two.
pub proof fn law_second_sample_measures_traffic_growth(
    state: SysMonView,
    first_ns: u64,
    owners: Map<i64, i32>,
    files: Seq<ProcFiles>,
    first_disk: Option<&str>,
    first_net: Option<&str>,
    now_ns: u64,
    disk: Option<&str>,
    net: Option<&str>,
)
    requires
        first_ns < now_ns,
    ensures
        ({
            let between = state.after(first_ns, owners, files, first_disk, first_net);
            let device = state.disk_dev;
            let elapsed = between.elapsed(now_ns);
            &&& between.disk_dev == device
            &&& elapsed == now_ns - first_ns
            &&& match (disk_now(disk, device), disk_now(first_disk, device)) {
                (Some(a), Some(b)) => traffic(Some(a), between.prev_disk, elapsed) == (
                    grown(a.0, b.0),
                    grown(a.1, b.1),
                ),
                _ => true,
            }
            &&& match (net_now(net), net_now(first_net)) {
                (Some(a), Some(b)) => traffic(Some(a), between.prev_net, elapsed) == (
                    grown(a.0, b.0),
                    grown(a.1, b.1),
                ),
                _ => true,
            }
        }),
{
}

/// A sample that could not read a counter keeps the one before, so that the next one
/// measures from there.
pub proof fn law_unread_counters_are_kept(
    state: SysMonView,
    now_ns: u64,
    owners: Map<i64, i32>,
    files: Seq<ProcFiles>,
)
    ensures
        state.after(now_ns, owners, files, None, None).prev_disk == state.prev_disk,
        state.after(now_ns, owners, files, None, None).prev_net == state.prev_net,
{
}

proof fn lemma_files_are_its_own(files: Seq<ProcFiles>, pid: i32)
    ensures
        files_of(files, pid) is Some ==> (files_of(files, pid)->0).pid == pid,
    decreases files.len(),
{
    if files.len() > 0 {
        lemma_files_are_its_own(files.drop_first(), pid);
    }
}

/// The contents of a list of processes.
pub open spec fn infos(procs: Seq<ProcInfo>) -> Seq<ProcView> {
    procs.map_values(|p: ProcInfo| p@)
}

/// Whether the list shows each process that is seen, once, the busiest first.
pub open spec fn lists(
    procs: Seq<ProcView>,
    before: SysMonView,
    now_ns: u64,
    owners: Map<i64, i32>,
    files: Seq<ProcFiles>,
) -> bool {
    &&& forall|i: int, j: int|
        0 <= i < j < procs.len() ==> (#[trigger] procs[i]).cpu_ticks >= (
        #[trigger] procs[j]).cpu_ticks
    &&& forall|i: int, j: int|
        0 <= i < j < procs.len() ==> (#[trigger] procs[i]).pid != (#[trigger] procs[j]).pid
    &&& forall|i: int|
        0 <= i < procs.len() ==> {
            let seen = before.seen(now_ns, owners, files, (#[trigger] procs[i]).pid);
            seen is Some && (seen->0).0 == procs[i]
        }
    &&& forall|pid: i32| (#[trigger] before.seen(now_ns, owners, files, pid)) is Some ==> exists|
        i: int,
    | 0 <= i < procs.len() && (#[trigger] procs[i]).pid == pid
}

/// The devices and their owners, one after another.
fn pairs(owners: &BTreeMap<i64, i32>) -> (r: Vec<(i64, i32)>)
    ensures
        forall|i: int|
            0 <= i < r.len() ==> owners@.contains_key((#[trigger] r@[i]).0) && owners@[r@[i].0]
                == r@[i].1,
        forall|dev: i64| #[trigger]
            owners@.contains_key(dev) ==> r@.contains((dev, owners@[dev])),
{
    let mut out: Vec<(i64, i32)> = Vec::new();
    for kv in it: owners.iter()
        invariant
            out.len() == it.index(),
            it.index() <= it.seq().len(),
            forall|i: int|
                0 <= i < out.len() ==> (#[trigger] out@[i]).0 == *it.seq()[i].0 && out@[i].1
                    == *it.seq()[i].1,
            forall|i: int|
                0 <= i < it.seq().len() ==> owners@.contains_key(*(#[trigger] it.seq()[i]).0)
                    && owners@[*it.seq()[i].0] == *it.seq()[i].1,
            forall|dev: i64| #[trigger]
                owners@.contains_key(dev) ==> out@.contains((dev, owners@[dev])) || exists|i: int|
                    out.len() <= i < it.seq().len() && *(#[trigger] it.seq()[i]).0 == dev,
    {
        let (dev, pid) = kv;
        let ghost before = out@;
        out.push((*dev, *pid));
        proof {
            assert forall|d: i64| #[trigger] owners@.contains_key(d) implies out@.contains(
                (d, owners@[d]),
            ) || exists|i: int|
                out.len() <= i < it.seq().len() && *(#[trigger] it.seq()[i]).0 == d by {
                if before.contains((d, owners@[d])) {
                    let k = choose|k: int| 0 <= k < before.len() && before[k] == (d, owners@[d]);
                    assert(out@[k] == (d, owners@[d]));
                } else {
                    let i = choose|i: int|
                        before.len() <= i < it.seq().len() && *(#[trigger] it.seq()[i]).0 == d;
                    if i == before.len() {
                        assert(out@[i] == (d, owners@[d]));
                    }
                }
            }
        }
    }
    out
}

/// The processes that hold a device, each once.
pub fn holders(owners: &BTreeMap<i64, i32>) -> (r: Vec<i32>)
    ensures
        forall|pid: i32| #[trigger] r@.contains(pid) <==> owners@.values().contains(pid),
        r@.no_duplicates(),
{
    let list = pairs(owners);
    let mut out: Vec<i32> = Vec::new();
    let mut i: usize = 0;
    while i < list.len()
        invariant
            i <= list.len(),
            forall|k: int|
                0 <= k < out.len() ==> exists|j: int|
                    0 <= j < i && (#[trigger] list@[j]).1 == #[trigger] out@[k],
            forall|j: int| 0 <= j < i ==> out@.contains((#[trigger] list@[j]).1),
            out@.no_duplicates(),
        decreases list.len() - i,
    {
        let pid: i32 = list[i].1;
        let mut at: usize = 0;
        while at < out.len() && out[at] != pid
            invariant
                at <= out.len(),
                forall|k: int| 0 <= k < at ==> out@[k] != pid,
            decreases out.len() - at,
        {
            at = at + 1;
        }
        let ghost before = out@;
        if at == out.len() {
            out.push(pid);
        }
        proof {
            assert(out@[at as int] == pid);
            assert forall|j: int| 0 <= j < i + 1 implies out@.contains((#[trigger] list@[j]).1) by {
                if j < i {
                    let k = choose|k: int| 0 <= k < before.len() && before[k] == list@[j].1;
                    assert(out@[k] == list@[j].1);
                }
            }
            assert forall|k: int| 0 <= k < out.len() implies exists|j: int|
                0 <= j < i + 1 && (#[trigger] list@[j]).1 == #[trigger] out@[k] by {
                if k < before.len() {
                    assert(out@[k] == before[k]);
                    let j = choose|j: int| 0 <= j < i && (#[trigger] list@[j]).1 == before[k];
                    assert(list@[j].1 == out@[k]);
                } else {
                    assert(list@[i as int].1 == out@[k]);
                }
            }
        }
        i = i + 1;
    }
    assert forall|pid: i32| #[trigger] out@.contains(pid) <==> owners@.values().contains(pid) by {
        if out@.contains(pid) {
            let k = choose|k: int| 0 <= k < out.len() && out@[k] == pid;
            let j = choose|j: int| 0 <= j < list.len() && (#[trigger] list@[j]).1 == out@[k];
            assert(owners@.contains_key(list@[j].0));
        }
        if owners@.values().contains(pid) {
            let dev = choose|dev: i64| owners@.contains_key(dev) && owners@[dev] == pid;
            assert(list@.contains((dev, owners@[dev])));
            let j = choose|j: int| 0 <= j < list.len() && list@[j] == (dev, owners@[dev]);
            assert(out@.contains(list@[j].1));
        }
    }
    out
}

/// The numbers of the devices that a process holds.
fn held_devices(owners: &BTreeMap<i64, i32>, pid: i32) -> (r: Vec<i64>)
    ensures
        r@.to_set() == devices_of(owners@, pid),
{
    let list = pairs(owners);
    let mut out: Vec<i64> = Vec::new();
    let mut i: usize = 0;
    while i < list.len()
        invariant
            i <= list.len(),
            forall|k: int|
                0 <= k < out.len() ==> exists|j: int|
                    0 <= j < i && #[trigger] list@[j] == (#[trigger] out@[k], pid),
            forall|j: int|
                0 <= j < i && (#[trigger] list@[j]).1 == pid ==> out@.contains(list@[j].0),
        decreases list.len() - i,
    {
        let ghost before = out@;
        if list[i].1 == pid {
            out.push(list[i].0);
            assert(out@[before.len() as int] == list@[i as int].0);
        }
        proof {
            assert forall|j: int| 0 <= j < i + 1 && (#[trigger] list@[j]).1 == pid implies out@.contains(
                list@[j].0,
            ) by {
                if j < i {
                    let k = choose|k: int| 0 <= k < before.len() && before[k] == list@[j].0;
                    assert(out@[k] == list@[j].0);
                }
            }
            assert forall|k: int| 0 <= k < out.len() implies exists|j: int|
                0 <= j < i + 1 && #[trigger] list@[j] == (#[trigger] out@[k], pid) by {
                if k < before.len() {
                    assert(out@[k] == before[k]);
                    let j = choose|j: int| 0 <= j < i && #[trigger] list@[j] == (before[k], pid);
                    assert(list@[j] == (out@[k], pid));
                } else {
                    assert(list@[i as int] == (out@[k], pid));
                }
            }
        }
        i = i + 1;
    }
    assert forall|dev: i64| #[trigger] out@.to_set().contains(dev) <==> devices_of(
        owners@,
        pid,
    ).contains(dev) by {
        if out@.contains(dev) {
            let k = choose|k: int| 0 <= k < out.len() && out@[k] == dev;
            let j = choose|j: int| 0 <= j < list.len() && #[trigger] list@[j] == (out@[k], pid);
            assert(owners@.contains_key(list@[j].0));
        }
        if devices_of(owners@, pid).contains(dev) {
            assert(list@.contains((dev, owners@[dev])));
            let j = choose|j: int| 0 <= j < list.len() && list@[j] == (dev, owners@[dev]);
            assert(out@.contains(list@[j].0));
        }
    }
    assert(out@.to_set() =~= devices_of(owners@, pid));
    out
}

/// Where a process's files stand in the list.
fn find_files(files: &Vec<ProcFiles>, pid: i32) -> (r: Option<usize>)
    ensures
        match r {
            Some(i) => i < files.len() && files_of(files@, pid) == Some(files@[i as int]),
            None => files_of(files@, pid) is None,
        },
        match r {
            Some(i) => files@[i as int].pid == pid,
            None => true,
        },
{
    let mut i: usize = 0;
    assert(files@.skip(0) =~= files@);
    while i < files.len()
        invariant
            i <= files.len(),
            files_of(files@, pid) == files_of(files@.skip(i as int), pid),
        decreases files.len() - i,
    {
        assert(files@.skip(i as int).first() == files@[i as int]);
        assert(files@.skip(i as int).drop_first() =~= files@.skip(i + 1));
        if files[i].pid == pid {
            return Some(i);
        }
        i = i + 1;
    }
    None
}

fn as_text(file: &Option<String>) -> (r: Option<&str>)
    ensures
        file_lines(r) == lines_in(*file),
        r is Some <==> *file is Some,
        r is Some ==> (r->0)@ == (*file)->0@,
{
    match file {
        Some(t) => Some(t.as_str()),
        None => None,
    }
}

/// Whether all sums over the files can be counted in 64 bits.
pub fn countable(files: &Vec<ProcFiles>, net: Option<&str>) -> (r: bool)
    ensures
        r == sums_fit(files@, net),
{
    let mut i: usize = 0;
    while i < files.len()
        invariant
            i <= files.len(),
            forall|j: int| 0 <= j < i ==> ticks_fit(#[trigger] files@[j]),
        decreases files.len() - i,
    {
        if let Some(stat) = &files[i].stat {
            if let Some((user, system, threads)) = read_stat(stat.as_str()) {
                if user.checked_add(system).is_none() {
                    assert(!ticks_fit(files@[i as int]));
                    return false;
                }
            }
        }
        assert(ticks_fit(files@[i as int]));
        i = i + 1;
    }
    match net {
        Some(text) => net_sums(text).is_some(),
        None => true,
    }
}

/// Puts a process into its place in a list with the busiest first, after those as busy.
fn place(procs: &mut Vec<ProcInfo>, info: ProcInfo)
    requires
        forall|i: int, j: int|
            0 <= i < j < old(procs)@.len() ==> (#[trigger] old(procs)@[i]).cpu_ticks >= (
            #[trigger] old(procs)@[j]).cpu_ticks,
    ensures
        forall|i: int, j: int|
            0 <= i < j < final(procs)@.len() ==> (#[trigger] final(procs)@[i]).cpu_ticks >= (
            #[trigger] final(procs)@[j]).cpu_ticks,
        exists|k: int|
            0 <= k <= old(procs)@.len() && final(procs)@ == #[trigger] old(procs)@.insert(k, info),
{
    let mut at: usize = 0;
    while at < procs.len() && procs[at].cpu_ticks >= info.cpu_ticks
        invariant
            at <= procs.len(),
            forall|k: int| 0 <= k < at ==> (#[trigger] procs@[k]).cpu_ticks >= info.cpu_ticks,
        decreases procs.len() - at,
    {
        at = at + 1;
    }
    procs.insert(at, info);
    assert(procs@ == old(procs)@.insert(at as int, info));
}

fn difference(a: u64, b: u64) -> (r: u64)
    ensures
        r == grown(a, b),
{
    if a >= b {
        a - b
    } else {
        0
    }
}

fn measure_traffic(
    now: Option<(u64, u64)>,
    then: Option<(u64, u64)>,
    elapsed_ns: u64,
) -> (r: (u64, u64))
    ensures
        r == traffic(now, then, elapsed_ns),
{
    match (now, then) {
        (Some(a), Some(b)) => if elapsed_ns > 0 {
            (difference(a.0, b.0), difference(a.1, b.1))
        } else {
            (0, 0)
        },
        _ => (0, 0),
    }
}

impl SysMon {
    /// A monitor that has seen nothing yet, from the user list, the memory figures and
    /// the mounts; a file that could not be read counts as empty. The disk looked at is
    /// the one mounted at `mount`.
    pub fn new(
        mount: &str,
        passwd: Option<&str>,
        meminfo: Option<&str>,
        mounts: Option<&str>,
    ) -> (r: Self)
        ensures
            r@ == (SysMonView {
                users: users_of(file_lines(passwd)),
                mem_total_kb: labelled_number(file_lines(meminfo), "MemTotal:"@),
                disk_dev: mounted_device(file_lines(mounts), mount@),
                prev_cpu: Map::empty(),
                prev_ns: None,
                prev_disk: None,
                prev_net: None,
            }),
    {
        SysMon {
            users: read_users(passwd),
            mem_total_kb: mem_total_kb(meminfo),
            disk_dev: disk_device_for(mounts, mount),
            prev_cpu: HashMap::new(),
            prev_ns: None,
            prev_disk: None,
            prev_net: None,
        }
    }

    fn name_of(&self, uid: u32) -> (r: String)
        ensures
            r@ == self@.user_name(uid),
    {
        broadcast use vstd::std_specs::hash::group_hash_axioms;

        match self.users.get(&uid) {
            Some(name) => name.clone(),
            None => show(uid as u64),
        }
    }

    fn ticks_since(&self, pid: i32, total: u64, elapsed_ns: u64) -> (r: u64)
        ensures
            r == if self@.prev_cpu.contains_key(pid) && elapsed_ns > 0 {
                grown(total, self@.prev_cpu[pid])
            } else {
                0
            },
    {
        broadcast use vstd::std_specs::hash::group_hash_axioms;

        match self.prev_cpu.get(&pid) {
            Some(prev) => if elapsed_ns > 0 {
                difference(total, *prev)
            } else {
                0
            },
            None => 0,
        }
    }

    /// Describes a process from its files, with its CPU time in ticks; nothing where its
    /// status line is missing or not one.
    pub fn read_proc(&self, files: &ProcFiles, elapsed_ns: u64, devices: &str) -> (r: Option<
        (ProcInfo, u64),
    >)
        requires
            ticks_fit(*files),
        ensures
            match r {
                Some((info, total)) => self@.described(*files, elapsed_ns, devices@) == Some(
                    (info@, total),
                ),
                None => self@.described(*files, elapsed_ns, devices@) is None,
            },
            r is Some ==> shown_decoded(*files),
    {
        let stat = match &files.stat {
            Some(t) => t,
            None => {
                return None;
            },
        };
        let (utime, stime, threads) = match read_stat(stat.as_str()) {
            Some(v) => v,
            None => {
                return None;
            },
        };
        let total: u64 = utime + stime;
        let (rss_kb, uid) = read_status(as_text(&files.status));
        let cmd = match &files.cmdline {
            Some(raw) => read_command(Some(raw), stat.as_str()),
            None => read_command(None, stat.as_str()),
        };
        let info = ProcInfo {
            pid: files.pid,
            user: self.name_of(uid),
            cpu_ticks: self.ticks_since(files.pid, total, elapsed_ns),
            rss_kb,
            mem_share: if self.mem_total_kb > 0 {
                Some((rss_kb, self.mem_total_kb))
            } else {
                None
            },
            time_secs: quotient(total, CLK_TCK),
            threads,
            devices: devices.to_string(),
            cmd,
        };
        Some((info, total))
    }

    /// Describes each process that holds a device and whose files are given, the busiest
    /// first, with the CPU time of each.
    fn describe_all(
        &self,
        now_ns: u64,
        elapsed_ns: u64,
        owners: &BTreeMap<i64, i32>,
        files: &Vec<ProcFiles>,
    ) -> (r: (Vec<ProcInfo>, HashMap<i32, u64>))
        requires
            elapsed_ns == self@.elapsed(now_ns),
            forall|k: int| 0 <= k < files.len() ==> ticks_fit(#[trigger] files@[k]),
        ensures
            lists(infos(r.0@), self@, now_ns, owners@, files@),
            forall|i: int|
                0 <= i < r.0.len() ==> shown_decoded(
                    files_of(files@, (#[trigger] r.0@[i]).pid)->0,
                ),
            forall|pid: i32| #[trigger]
                r.1@.contains_key(pid) <==> self@.seen(now_ns, owners@, files@, pid) is Some,
            forall|pid: i32| #[trigger]
                r.1@.contains_key(pid) ==> r.1@[pid] == (self@.seen(
                    now_ns,
                    owners@,
                    files@,
                    pid,
                )->0).1,
    {
        broadcast use vstd::std_specs::hash::group_hash_axioms;

        let ghost before = self@;
        let pids = holders(owners);
        let mut procs: Vec<ProcInfo> = Vec::new();
        let mut totals: HashMap<i32, u64> = HashMap::new();
        let mut i: usize = 0;
        while i < pids.len()
            invariant
                i <= pids.len(),
                self@ == before,
                elapsed_ns == before.elapsed(now_ns),
                forall|k: int| 0 <= k < files.len() ==> ticks_fit(#[trigger] files@[k]),
                pids@.no_duplicates(),
                forall|pid: i32| #[trigger] pids@.contains(pid) <==> owners@.values().contains(pid),
                forall|a: int, b: int|
                    0 <= a < b < procs.len() ==> (#[trigger] procs@[a]).cpu_ticks >= (
                    #[trigger] procs@[b]).cpu_ticks,
                forall|a: int, b: int|
                    0 <= a < b < procs.len() ==> (#[trigger] procs@[a]).pid != (
                    #[trigger] procs@[b]).pid,
                forall|a: int|
                    0 <= a < procs.len() ==> {
                        let seen = before.seen(now_ns, owners@, files@, (#[trigger] procs@[a]).pid);
                        seen is Some && (seen->0).0 == procs@[a]@ && pids@.take(
                            i as int,
                        ).contains(procs@[a].pid)
                    },
                forall|a: int|
                    0 <= a < procs.len() ==> shown_decoded(
                        files_of(files@, (#[trigger] procs@[a]).pid)->0,
                    ),
                forall|pid: i32|
                    pids@.take(i as int).contains(pid) && (#[trigger] before.seen(
                        now_ns,
                        owners@,
                        files@,
                        pid,
                    )) is Some ==> exists|a: int|
                        0 <= a < procs.len() && (#[trigger] procs@[a]).pid == pid,
                forall|pid: i32| #[trigger]
                    totals@.contains_key(pid) <==> pids@.take(i as int).contains(pid)
                        && before.seen(now_ns, owners@, files@, pid) is Some,
                forall|pid: i32| #[trigger]
                    totals@.contains_key(pid) ==> totals@[pid] == (before.seen(
                        now_ns,
                        owners@,
                        files@,
                        pid,
                    )->0).1,
            decreases pids.len() - i,
        {
            broadcast use vstd::std_specs::hash::group_hash_axioms;

            let pid: i32 = pids[i];
            let ghost done = pids@.take(i as int);
            let ghost now_done = pids@.take(i + 1);
            let ghost listed = procs@;
            proof {
                assert(now_done =~= done.push(pid));
                assert(pids@.contains(pid));
                assert forall|q: i32| #[trigger] now_done.contains(q) <==> done.contains(q) || q
                    == pid by {
                    if now_done.contains(q) {
                        let k = choose|k: int| 0 <= k < now_done.len() && now_done[k] == q;
                        if k < i {
                            assert(done[k] == q);
                        }
                    }
                    if done.contains(q) {
                        let k = choose|k: int| 0 <= k < done.len() && done[k] == q;
                        assert(now_done[k] == q);
                    }
                    if q == pid {
                        assert(now_done[i as int] == q);
                    }
                }
                assert(!done.contains(pid)) by {
                    if done.contains(pid) {
                        let k = choose|k: int| 0 <= k < done.len() && done[k] == pid;
                        assert(pids@[k] == pids@[i as int]);
                    }
                }
            }
            if let Some(at) = find_files(files, pid) {
                let devices = compress(&held_devices(owners, pid));
                assert(ticks_fit(files@[at as int]));
                if let Some((info, total)) = self.read_proc(&files[at], elapsed_ns, devices.as_str()) {
                    totals.insert(pid, total);
                    let ghost shown = info;
                    place(&mut procs, info);
                    proof {
                        let k = choose|k: int|
                            0 <= k <= listed.len() && procs@ == #[trigger] listed.insert(k, shown);
                        assert forall|a: int| 0 <= a < listed.len() implies exists|b: int|
                            0 <= b < procs.len() && #[trigger] procs@[b] == #[trigger] listed[a] by {
                            assert(procs@[if a < k {
                                a
                            } else {
                                a + 1
                            }] == listed[a]);
                        }
                        assert(procs@[k] == shown);
                        assert forall|q: i32|
                            now_done.contains(q) && (#[trigger] before.seen(
                                now_ns,
                                owners@,
                                files@,
                                q,
                            )) is Some implies exists|a: int|
                            0 <= a < procs.len() && (#[trigger] procs@[a]).pid == q by {
                            if q != pid {
                                let a = choose|a: int|
                                    0 <= a < listed.len() && (#[trigger] listed[a]).pid == q;
                                let b = choose|b: int|
                                    0 <= b < procs.len() && #[trigger] procs@[b] == listed[a];
                                assert(procs@[b].pid == q);
                            }
                        }
                    }
                }
            }
            i = i + 1;
        }
        assert(pids@.take(pids.len() as int) =~= pids@);
        proof {
            let shown = infos(procs@);
            assert forall|a: int| 0 <= a < shown.len() implies #[trigger] shown[a] == procs@[a]@ by {}
            assert forall|pid: i32| (#[trigger] before.seen(now_ns, owners@, files@, pid)) is Some implies exists|
                a: int,
            | 0 <= a < shown.len() && (#[trigger] shown[a]).pid == pid by {
                let a = choose|a: int| 0 <= a < procs.len() && (#[trigger] procs@[a]).pid == pid;
                assert(shown[a].pid == pid);
            }
        }
        (procs, totals)
    }

    /// Describes each process that holds a device and whose files are given, the busiest
    /// first, and measures the traffic since the last sample. `owners` gives the process
    /// that holds each device, `now_ns` the time, which does not run backwards.
    pub fn sample(
        &mut self,
        now_ns: u64,
        owners: &BTreeMap<i64, i32>,
        files: &Vec<ProcFiles>,
        disk: Option<&str>,
        net: Option<&str>,
    ) -> (r: (Vec<ProcInfo>, IoStats))
        requires
            sums_fit(files@, net),
        ensures
            lists(infos(r.0@), old(self)@, now_ns, owners@, files@),
            forall|i: int|
                0 <= i < r.0.len() ==> shown_decoded(
                    files_of(files@, (#[trigger] r.0@[i]).pid)->0,
                ),
            r.1.disk_dev@ == old(self)@.disk_dev,
            r.1.elapsed_ns == old(self)@.elapsed(now_ns),
            (r.1.disk_r, r.1.disk_w) == traffic(
                disk_now(disk, old(self)@.disk_dev),
                old(self)@.prev_disk,
                r.1.elapsed_ns,
            ),
            (r.1.net_rx, r.1.net_tx) == traffic(
                net_now(net),
                old(self)@.prev_net,
                r.1.elapsed_ns,
            ),
            final(self)@ == old(self)@.after(now_ns, owners@, files@, disk, net),
    {
        broadcast use vstd::std_specs::hash::group_hash_axioms;

        let ghost before = self@;
        let elapsed_ns: u64 = match self.prev_ns {
            Some(then) => difference(now_ns, then),
            None => 0,
        };
        let (procs, totals) = self.describe_all(now_ns, elapsed_ns, owners, files);
        let disk_counts = read_disk(disk, self.disk_dev.as_str());
        let net_counts = match net {
            Some(text) => net_sums(text),
            None => None,
        };
        let (disk_r, disk_w) = measure_traffic(disk_counts, self.prev_disk, elapsed_ns);
        let (net_rx, net_tx) = measure_traffic(net_counts, self.prev_net, elapsed_ns);
        let io = IoStats { disk_dev: self.disk_dev.clone(), disk_r, disk_w, net_rx, net_tx, elapsed_ns };
        self.prev_cpu = totals;
        if disk_counts.is_some() {
            self.prev_disk = disk_counts;
        }
        if net_counts.is_some() {
            self.prev_net = net_counts;
        }
        self.prev_ns = Some(now_ns);
        assert(self@.prev_cpu =~= before.after(now_ns, owners@, files@, disk, net).prev_cpu);
        (procs, io)
    }
}

} // verus!
