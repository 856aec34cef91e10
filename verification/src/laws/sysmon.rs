//! Laws of the processes that hold devices and of the traffic between samples.
use vstd::prelude::*;

use crate::device::{command_text, decoded_text, well_formed};
use crate::number::decimal;
use crate::procfs::{
    disk_counters, file_lines, labelled_number, labelled_user, net_fits, net_totals, shown_command,
    stat_threads, stat_times,
};
use crate::ranges::ids_text;
use crate::reading::law_small_quotients_are_exact;
use crate::sysmon::{
    devices_of, disk_now, files_of, grown, infos, lists, net_now, shown_decoded, sums_fit,
    ticks_fit, traffic, ProcFiles, ProcInfo, SysMonView,
};
use crate::text::lines_of;

verus! {

/// Growth makes up what a counter has more than before; one that fell back did not grow.
pub proof fn law_growth(a: u64, b: u64)
    ensures
        a >= b ==> grown(a, b) + b == a,
        a <= b ==> grown(a, b) == 0,
{
}

/// A process's files are the first ones given for it; those of others have no influence.
pub proof fn law_files_of_a_process(
    before: Seq<ProcFiles>,
    files: ProcFiles,
    after: Seq<ProcFiles>,
    pid: i32,
)
    requires
        forall|k: int| 0 <= k < before.len() ==> (#[trigger] before[k]).pid != pid,
    ensures
        files.pid == pid ==> files_of(before + seq![files] + after, pid) == Some(files),
        files_of(before + after, pid) == files_of(after, pid),
        files_of(before, pid) is None,
    decreases before.len(),
{
    let all = before + seq![files] + after;
    if before.len() > 0 {
        let rest = before.drop_first();
        assert(before[0].pid != pid);
        assert forall|k: int| 0 <= k < rest.len() implies (#[trigger] rest[k]).pid != pid by {
            assert(rest[k] == before[k + 1]);
        }
        law_files_of_a_process(rest, files, after, pid);
        assert(all.drop_first() =~= rest + seq![files] + after);
        assert((before + after).drop_first() =~= rest + after);
        assert(all.first() == before[0] && (before + after).first() == before[0]);
    } else {
        assert(all.first() == files);
        assert(before + after =~= after);
    }
}

/// A process holds the devices that it owns and no others.
pub proof fn law_devices_of_a_process(owners: Map<i64, i32>, pid: i32, dev: i64)
    ensures
        devices_of(owners, pid).contains(dev) <==> owners.dom().contains(dev) && owners[dev] == pid,
{
}

/// A user is shown by the name that is known of exactly that number, or by the number.
pub proof fn law_users_are_named(state: SysMonView, uid: u32, name: Seq<char>)
    ensures
        state.users.dom().contains(uid) && state.users[uid] == name ==> state.user_name(uid) == name,
        !state.users.dom().contains(uid) ==> state.user_name(uid) == decimal(uid as nat),
{
}

/// The time since the last sample, nothing at the first.
pub proof fn law_time_since_the_last_sample(state: SysMonView, now_ns: u64, then: u64)
    ensures
        state.prev_ns == Some(then) && then <= now_ns ==> state.elapsed(now_ns) + then == now_ns,
        state.prev_ns == Some(then) && then > now_ns ==> state.elapsed(now_ns) == 0,
        state.prev_ns is None ==> state.elapsed(now_ns) == 0,
{
}

/// A process is described exactly if its times can be read, by what its own files say: its
/// CPU time is the sum of both times, in seconds a hundredth of that, and what it used since
/// the last sample is what that grew by.
pub proof fn law_process_is_described(
    state: SysMonView,
    files: ProcFiles,
    elapsed_ns: u64,
    devices: Seq<char>,
    stat: String,
    user_time: u64,
    system_time: u64,
)
    requires
        user_time + system_time <= u64::MAX,
    ensures
        files.stat is None ==> state.described(files, elapsed_ns, devices) is None,
        files.stat == Some(stat) && stat_times(stat@) is None ==> state.described(
            files,
            elapsed_ns,
            devices,
        ) is None,
        files.stat == Some(stat) && stat_times(stat@) == Some((user_time, system_time)) ==> {
            let shown = state.described(files, elapsed_ns, devices);
            let total = user_time + system_time;
            let lines = match files.status {
                Some(t) => lines_of(t@),
                None => Seq::<Seq<char>>::empty(),
            };
            let info = (shown->0).0;
            &&& shown is Some
            &&& (shown->0).1 == total
            &&& info.pid == files.pid
            &&& info.user == state.user_name(labelled_user(lines, "Uid:"@))
            &&& !state.prev_cpu.dom().contains(files.pid) || elapsed_ns == 0 ==> info.cpu_ticks == 0
            &&& state.prev_cpu.dom().contains(files.pid) && elapsed_ns > 0
                && state.prev_cpu[files.pid] <= total ==> info.cpu_ticks
                + state.prev_cpu[files.pid] == total
            &&& state.prev_cpu.dom().contains(files.pid) && state.prev_cpu[files.pid] > total
                ==> info.cpu_ticks == 0
            &&& info.rss_kb == labelled_number(lines, "VmRSS:"@)
            &&& state.mem_total_kb == 0 ==> info.mem_share is None
            &&& state.mem_total_kb > 0 ==> info.mem_share == Some(
                (info.rss_kb, state.mem_total_kb),
            )
            &&& total <= 0x10_0000_0000_0000 ==> info.time_secs == total / 100
            &&& info.threads == stat_threads(stat@)
            &&& info.devices == devices
            &&& files.cmdline is None ==> info.cmd == shown_command(None, stat@)
            &&& files.cmdline matches Some(raw) ==> info.cmd == shown_command(Some(raw@), stat@)
        },
{
    let total = user_time + system_time;
    if total <= 0x10_0000_0000_0000 {
        law_small_quotients_are_exact(total as u64, 100);
    }
}

/// A process is seen exactly if it holds a device and can be described, and is then described
/// by its own files, with all the devices that it holds.
pub proof fn law_holders_are_seen(
    state: SysMonView,
    now_ns: u64,
    owners: Map<i64, i32>,
    files: Seq<ProcFiles>,
    pid: i32,
    dev: i64,
)
    ensures
        owners.dom().contains(dev) && owners[dev] == pid && files_of(files, pid) is Some
            ==> state.seen(now_ns, owners, files, pid) == state.described(
            files_of(files, pid)->0,
            state.elapsed(now_ns),
            ids_text(devices_of(owners, pid)),
        ),
        files_of(files, pid) is None ==> state.seen(now_ns, owners, files, pid) is None,
        (forall|d: i64| #[trigger] owners.dom().contains(d) ==> owners[d] != pid) ==> state.seen(
            now_ns,
            owners,
            files,
            pid,
        ) is None,
{
    if owners.dom().contains(dev) && owners[dev] == pid {
        assert(owners.values().contains(pid));
    }
}

/// Traffic is what a counter grew by between two samples, each counter for itself; there is
/// none where one sample could not read it or no time has passed.
pub proof fn law_traffic(now: (u64, u64), then: (u64, u64), elapsed_ns: u64)
    ensures
        elapsed_ns > 0 && then.0 <= now.0 ==> traffic(Some(now), Some(then), elapsed_ns).0 + then.0
            == now.0,
        elapsed_ns > 0 && then.1 <= now.1 ==> traffic(Some(now), Some(then), elapsed_ns).1 + then.1
            == now.1,
        then.0 > now.0 ==> traffic(Some(now), Some(then), elapsed_ns).0 == 0,
        then.1 > now.1 ==> traffic(Some(now), Some(then), elapsed_ns).1 == 0,
        traffic(Some(now), Some(then), 0) == (0u64, 0u64),
        traffic(None, Some(then), elapsed_ns) == (0u64, 0u64),
        traffic(Some(now), None, elapsed_ns) == (0u64, 0u64),
        traffic(None, None, elapsed_ns) == (0u64, 0u64),
{
}

/// The disk's counters are those of the device looked at, and unknown where there is no such
/// device; the network's are the sums over its interfaces.
pub proof fn law_counters(text: &str, device: Seq<char>)
    ensures
        device.len() == 0 ==> disk_now(Some(text), device) is None,
        device.len() > 0 ==> disk_now(Some(text), device) == disk_counters(
            lines_of(text@),
            device,
        ),
        disk_now(None, device) is None,
        net_now(None) is None,
        net_fits(lines_of(text@)) ==> net_now(Some(text)) is Some && (net_now(Some(text))->0).0
            == net_totals(lines_of(text@)).0 && (net_now(Some(text))->0).1 == net_totals(
            lines_of(text@),
        ).1,
        net_fits(lines_of(text@)) <==> net_totals(lines_of(text@)).0 <= u64::MAX && net_totals(
            lines_of(text@),
        ).1 <= u64::MAX,
{
    assert(file_lines(None).len() == 0);
}

/// All can be counted exactly if each process's two times fit in 64 bits together, and so do
/// the sums over the network's interfaces.
pub proof fn law_sums_fit(files: Seq<ProcFiles>, net: &str, i: int, stat: String)
    ensures
        ticks_fit((ProcFiles { pid: 0, stat: None, status: None, cmdline: None })),
        0 <= i < files.len() && files[i].stat == Some(stat) && stat_times(stat@) is None
            ==> ticks_fit(files[i]),
        0 <= i < files.len() && files[i].stat == Some(stat) && stat_times(stat@) is Some ==> (
        ticks_fit(files[i]) <==> (stat_times(stat@)->0).0 + (stat_times(stat@)->0).1 <= u64::MAX),
        0 <= i < files.len() && files[i].stat is None ==> ticks_fit(files[i]),
        sums_fit(files, Some(net)) <==> net_fits(lines_of(net@)) && forall|k: int|
            0 <= k < files.len() ==> ticks_fit(#[trigger] files[k]),
        sums_fit(files, None) <==> forall|k: int|
            0 <= k < files.len() ==> ticks_fit(#[trigger] files[k]),
{
    assert(file_lines(None).len() == 0);
}

/// A sample keeps the CPU time of each process that it saw and of no other, its own time and
/// the counters that it could read, and nothing else changes.
pub proof fn law_samples_are_kept(
    state: SysMonView,
    now_ns: u64,
    owners: Map<i64, i32>,
    files: Seq<ProcFiles>,
    disk: Option<&str>,
    net: Option<&str>,
    pid: i32,
)
    ensures
        ({
            let after = state.after(now_ns, owners, files, disk, net);
            let seen = state.seen(now_ns, owners, files, pid);
            &&& after.users == state.users && after.mem_total_kb == state.mem_total_kb
                && after.disk_dev == state.disk_dev
            &&& after.prev_ns == Some(now_ns)
            &&& after.prev_cpu.dom().contains(pid) <==> seen is Some
            &&& seen is Some ==> after.prev_cpu[pid] == (seen->0).1
            &&& disk_now(disk, state.disk_dev) is Some ==> after.prev_disk == disk_now(
                disk,
                state.disk_dev,
            )
            &&& disk_now(disk, state.disk_dev) is None ==> after.prev_disk == state.prev_disk
            &&& net_now(net) is Some ==> after.prev_net == net_now(net)
            &&& net_now(net) is None ==> after.prev_net == state.prev_net
        }),
{
}

/// The list shows every process that is seen, as it is described, once, and no other; no
/// process stands before one that used the CPU more since the last sample.
pub proof fn law_list_of_processes(
    procs: Seq<ProcInfo>,
    before: SysMonView,
    now_ns: u64,
    owners: Map<i64, i32>,
    files: Seq<ProcFiles>,
    pid: i32,
    i: int,
    j: int,
)
    requires
        lists(infos(procs), before, now_ns, owners, files),
    ensures
        0 <= i < j < procs.len() ==> procs[i].cpu_ticks >= procs[j].cpu_ticks,
        0 <= i < j < procs.len() ==> procs[i].pid != procs[j].pid,
        0 <= i < procs.len() ==> before.seen(now_ns, owners, files, procs[i].pid) is Some && (
        before.seen(now_ns, owners, files, procs[i].pid)->0).0 == procs[i]@,
        before.seen(now_ns, owners, files, pid) is Some <==> exists|k: int|
            0 <= k < procs.len() && (#[trigger] procs[k]).pid == pid,
{
    let views = infos(procs);
    assert(views.len() == procs.len());
    assert forall|k: int| 0 <= k < procs.len() implies #[trigger] views[k] == procs[k]@ by {}
    if 0 <= i < j < procs.len() {
        assert(views[i] == procs[i]@ && views[j] == procs[j]@);
    }
    if 0 <= i < procs.len() {
        assert(views[i] == procs[i]@);
    }
    if before.seen(now_ns, owners, files, pid) is Some {
        let k = choose|k: int| 0 <= k < views.len() && (#[trigger] views[k]).pid == pid;
        assert(procs[k].pid == pid);
    }
    if exists|k: int| 0 <= k < procs.len() && (#[trigger] procs[k]).pid == pid {
        let k = choose|k: int| 0 <= k < procs.len() && (#[trigger] procs[k]).pid == pid;
        assert(views[k].pid == pid);
    }
}

/// What a description says is what its view says, part by part.
pub proof fn law_descriptions_keep_their_parts(info: ProcInfo)
    ensures
        info@.pid == info.pid && info@.user == info.user@ && info@.cpu_ticks == info.cpu_ticks,
        info@.rss_kb == info.rss_kb && info@.mem_share == info.mem_share && info@.time_secs
            == info.time_secs,
        info@.threads == info.threads && info@.devices == info.devices@ && info@.cmd == info.cmd@,
{
}

/// A command line of well-formed text is shown as that text.
pub proof fn law_commands_are_decoded(files: ProcFiles, raw: Vec<u8>)
    requires
        files.cmdline == Some(raw),
        well_formed(raw@),
    ensures
        shown_decoded(files) <==> command_text(raw@) == decoded_text(raw@),
{
}

} // verus!
