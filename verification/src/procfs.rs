//! What the system's text files say: users, memory, mounts, disks, networks, processes.
use std::collections::HashMap;

use vstd::prelude::*;

use crate::device::{cmdline, command_text, decoded_text, well_formed};
use crate::number::{parsed_u32, parsed_u64, read_u32, read_u64};
use crate::text::{
    begins, chars_of, cut, cut_at, lines, lines_of, only, part, same, split, texts, trim,
    trimmed, words, words_of,
};

verus! {

/// The contents of a string that may be missing.
pub open spec fn opt_text(s: Option<String>) -> Option<Seq<char>> {
    match s {
        Some(t) => Some(t@),
        None => None,
    }
}

/// The contents of a file that could not be read count as none.
pub open spec fn file_lines(text: Option<&str>) -> Seq<Seq<char>> {
    match text {
        Some(t) => lines_of(t@),
        None => Seq::empty(),
    }
}

/// The names of the users by number, from the lines of the user list; a later line wins.
pub open spec fn users_of(lines: Seq<Seq<char>>) -> Map<u32, Seq<char>>
    decreases lines.len(),
{
    if lines.len() == 0 {
        Map::empty()
    } else {
        let before = users_of(lines.drop_last());
        let fields = cut_at(lines.last(), ':');
        if fields.len() >= 3 && parsed_u32(fields[2]) is Some {
            before.insert(parsed_u32(fields[2])->0, fields[0])
        } else {
            before
        }
    }
}

/// The second word of the first line that begins with `label`.
pub open spec fn labelled(lines: Seq<Seq<char>>, label: Seq<char>) -> Option<Seq<char>>
    decreases lines.len(),
{
    if lines.len() == 0 {
        None
    } else if label.is_prefix_of(lines.first()) {
        let fields = words_of(lines.first());
        if fields.len() >= 2 {
            Some(fields[1])
        } else {
            None
        }
    } else {
        labelled(lines.drop_first(), label)
    }
}

/// The number after `label`, zero where there is none.
pub open spec fn labelled_number(lines: Seq<Seq<char>>, label: Seq<char>) -> u64 {
    match labelled(lines, label) {
        Some(word) => match parsed_u64(word) {
            Some(v) => v,
            None => 0,
        },
        None => 0,
    }
}

/// The user number after `label`, zero where there is none.
pub open spec fn labelled_user(lines: Seq<Seq<char>>, label: Seq<char>) -> u32 {
    match labelled(lines, label) {
        Some(word) => match parsed_u32(word) {
            Some(v) => v,
            None => 0,
        },
        None => 0,
    }
}

/// The block device of the first mount at `mount`, without its directory; empty where
/// nothing is mounted there.
pub open spec fn mounted_device(lines: Seq<Seq<char>>, mount: Seq<char>) -> Seq<char>
    decreases lines.len(),
{
    if lines.len() == 0 {
        Seq::empty()
    } else {
        let fields = words_of(lines.first());
        if fields.len() >= 2 && fields[1] == mount {
            cut_at(fields[0], '/').last()
        } else {
            mounted_device(lines.drop_first(), mount)
        }
    }
}

/// The sectors read and written, from the first line about `device`.
pub open spec fn disk_counters(lines: Seq<Seq<char>>, device: Seq<char>) -> Option<(u64, u64)>
    decreases lines.len(),
{
    if lines.len() == 0 {
        None
    } else {
        let fields = words_of(lines.first());
        if fields.len() >= 10 && fields[2] == device {
            match (parsed_u64(fields[5]), parsed_u64(fields[9])) {
                (Some(r), Some(w)) => Some((r, w)),
                _ => None,
            }
        } else {
            disk_counters(lines.drop_first(), device)
        }
    }
}

/// A number, zero where `s` spells none.
pub open spec fn number_or_zero(s: Seq<char>) -> u64 {
    match parsed_u64(s) {
        Some(v) => v,
        None => 0,
    }
}

/// The bytes received and sent that a line about an interface counts; nothing for the
/// loopback interface and for other lines.
pub open spec fn interface_counters(line: Seq<char>) -> (nat, nat) {
    let pieces = cut_at(line, ':');
    let fields = words_of(line.skip(pieces[0].len() as int + 1));
    if pieces.len() >= 2 && trimmed(pieces[0]) != "lo"@ && fields.len() >= 9 {
        (number_or_zero(fields[0]) as nat, number_or_zero(fields[8]) as nat)
    } else {
        (0, 0)
    }
}

/// The bytes received and sent over all interfaces but loopback.
pub open spec fn net_totals(lines: Seq<Seq<char>>) -> (nat, nat)
    decreases lines.len(),
{
    if lines.len() == 0 {
        (0, 0)
    } else {
        let before = net_totals(lines.drop_last());
        let line = interface_counters(lines.last());
        (before.0 + line.0, before.1 + line.1)
    }
}

/// The words after the name in a process's status line. The name stands in brackets and
/// may hold spaces and brackets itself.
pub open spec fn stat_fields(stat: Seq<char>) -> Seq<Seq<char>> {
    words_of(cut_at(stat, ')').last())
}

/// The user and system time of a process, in ticks; nothing where the line is not one.
pub open spec fn stat_times(stat: Seq<char>) -> Option<(u64, u64)> {
    let fields = stat_fields(stat);
    if cut_at(stat, ')').len() >= 2 && fields.len() >= 13 {
        match (parsed_u64(fields[11]), parsed_u64(fields[12])) {
            (Some(u), Some(s)) => Some((u, s)),
            _ => None,
        }
    } else {
        None
    }
}

/// The number of threads of a process, zero where the line does not say it.
pub open spec fn stat_threads(stat: Seq<char>) -> u64 {
    let fields = stat_fields(stat);
    if fields.len() >= 18 {
        number_or_zero(fields[17])
    } else {
        0
    }
}

/// What stands between the first bracket and the next closing one or the next opening one.
pub open spec fn stat_name(stat: Seq<char>) -> Seq<char> {
    let pieces = cut_at(stat, '(');
    if pieces.len() >= 2 {
        cut_at(pieces[1], ')')[0]
    } else {
        "?"@
    }
}

/// What a process with the given command line is shown as: by that, or by its name in
/// square brackets where it is missing or empty.
pub open spec fn command_or_name(command: Option<Seq<char>>, stat: Seq<char>) -> Seq<char> {
    if command is Some && command->0.len() > 0 {
        command->0
    } else {
        "["@ + stat_name(stat) + "]"@
    }
}

/// What a process is shown as, from the raw contents of the file with its command line.
pub open spec fn shown_command(raw: Option<Seq<u8>>, stat: Seq<char>) -> Seq<char> {
    command_or_name(
        match raw {
            Some(bytes) => Some(command_text(bytes)),
            None => None,
        },
        stat,
    )
}

/// The view of a list of users.
pub open spec fn user_names(users: Map<u32, String>) -> Map<u32, Seq<char>> {
    users.map_values(|name: String| name@)
}

fn read_lines(text: Option<&str>) -> (r: Vec<String>)
    ensures
        texts(r@) == file_lines(text),
{
    match text {
        Some(t) => lines(t),
        None => {
            let none: Vec<String> = Vec::new();
            assert(texts(none@) =~= Seq::empty());
            none
        },
    }
}

/// The names of the users by number.
pub fn read_users(passwd: Option<&str>) -> (r: HashMap<u32, String>)
    ensures
        user_names(r@) == users_of(file_lines(passwd)),
{
    let rows = read_lines(passwd);
    let ghost all = texts(rows@);
    let mut users: HashMap<u32, String> = HashMap::new();
    let mut i: usize = 0;
    assert(user_names(users@) =~= users_of(all.take(0)));
    while i < rows.len()
        invariant
            i <= rows.len(),
            all == texts(rows@),
            user_names(users@) == users_of(all.take(i as int)),
        decreases rows.len() - i,
    {
        assert(all.take(i + 1).drop_last() =~= all.take(i as int));
        assert(all.take(i + 1).last() == rows@[i as int]@);
        let fields = split(rows[i].as_str(), ':');
        let ghost views = texts(fields@);
        assert(views.len() == fields.len());
        if fields.len() >= 3 {
            assert(views[2] == fields@[2]@ && views[0] == fields@[0]@);
            if let Some(uid) = read_u32(fields[2].as_str()) {
                let ghost before = users@;
                users.insert(uid, fields[0].clone());
                assert(user_names(users@) =~= user_names(before).insert(uid, views[0]));
            }
        }
        i = i + 1;
    }
    assert(all.take(rows.len() as int) =~= all);
    users
}

/// The second word of the first line that begins with `label`.
fn find_labelled(rows: &Vec<String>, label: &str) -> (r: Option<String>)
    ensures
        opt_text(r) == labelled(texts(rows@), label@),
{
    let ghost all = texts(rows@);
    let mut i: usize = 0;
    assert(all.skip(0) =~= all);
    while i < rows.len()
        invariant
            i <= rows.len(),
            all == texts(rows@),
            labelled(all, label@) == labelled(all.skip(i as int), label@),
        decreases rows.len() - i,
    {
        let row = &rows[i];
        assert(all.skip(i as int).first() == row@);
        assert(all.skip(i as int).drop_first() =~= all.skip(i + 1));
        if begins(row.as_str(), label) {
            let fields = words(row.as_str());
            assert(texts(fields@).len() == fields.len());
            if fields.len() >= 2 {
                assert(texts(fields@)[1] == fields@[1]@);
                return Some(fields[1].clone());
            } else {
                return None;
            }
        }
        i = i + 1;
    }
    None
}

fn number_after(rows: &Vec<String>, label: &str) -> (r: u64)
    ensures
        r == labelled_number(texts(rows@), label@),
{
    match find_labelled(rows, label) {
        Some(word) => match read_u64(word.as_str()) {
            Some(v) => v,
            None => 0,
        },
        None => 0,
    }
}

/// The machine's memory in kibibytes, zero where it is not known.
pub fn mem_total_kb(meminfo: Option<&str>) -> (r: u64)
    ensures
        r == labelled_number(file_lines(meminfo), "MemTotal:"@),
{
    let rows = read_lines(meminfo);
    number_after(&rows, "MemTotal:")
}

/// A process's resident memory in kibibytes and the number of its user.
pub fn read_status(status: Option<&str>) -> (r: (u64, u32))
    ensures
        r.0 == labelled_number(file_lines(status), "VmRSS:"@),
        r.1 == labelled_user(file_lines(status), "Uid:"@),
{
    let rows = read_lines(status);
    let uid: u32 = match find_labelled(&rows, "Uid:") {
        Some(word) => match read_u32(word.as_str()) {
            Some(v) => v,
            None => 0,
        },
        None => 0,
    };
    (number_after(&rows, "VmRSS:"), uid)
}

/// The block device mounted at `mount`, such as `nvme0n2`; empty where there is none.
pub fn disk_device_for(mounts: Option<&str>, mount: &str) -> (r: String)
    ensures
        r@ == mounted_device(file_lines(mounts), mount@),
{
    let rows = read_lines(mounts);
    let ghost all = texts(rows@);
    let mut i: usize = 0;
    assert(all.skip(0) =~= all);
    while i < rows.len()
        invariant
            i <= rows.len(),
            all == texts(rows@),
            all == file_lines(mounts),
            mounted_device(all, mount@) == mounted_device(all.skip(i as int), mount@),
        decreases rows.len() - i,
    {
        assert(all.skip(i as int).first() == rows@[i as int]@);
        assert(all.skip(i as int).drop_first() =~= all.skip(i + 1));
        let fields = words(rows[i].as_str());
        let ghost views = texts(fields@);
        assert(views.len() == fields.len());
        if fields.len() >= 2 {
            assert(views[0] == fields@[0]@ && views[1] == fields@[1]@);
            if same(fields[1].as_str(), mount) {
                let pieces = split(fields[0].as_str(), '/');
                let n: usize = pieces.len();
                assert(texts(pieces@).last() == pieces@[n - 1]@);
                return pieces[n - 1].clone();
            }
        }
        i = i + 1;
    }
    String::new()
}

/// The sectors read from and written to `device` so far.
pub fn read_disk(diskstats: Option<&str>, device: &str) -> (r: Option<(u64, u64)>)
    ensures
        r == if device@.len() == 0 {
            None
        } else {
            disk_counters(file_lines(diskstats), device@)
        },
{
    if device.is_empty() {
        return None;
    }
    let rows = read_lines(diskstats);
    let ghost all = texts(rows@);
    let mut i: usize = 0;
    assert(all.skip(0) =~= all);
    while i < rows.len()
        invariant
            i <= rows.len(),
            device@.len() > 0,
            all == texts(rows@),
            all == file_lines(diskstats),
            disk_counters(all, device@) == disk_counters(all.skip(i as int), device@),
        decreases rows.len() - i,
    {
        assert(all.skip(i as int).first() == rows@[i as int]@);
        assert(all.skip(i as int).drop_first() =~= all.skip(i + 1));
        let fields = words(rows[i].as_str());
        let ghost views = texts(fields@);
        assert(views.len() == fields.len());
        if fields.len() >= 10 {
            assert(views[2] == fields@[2]@ && views[5] == fields@[5]@ && views[9] == fields@[9]@);
            if same(fields[2].as_str(), device) {
                return match (read_u64(fields[5].as_str()), read_u64(fields[9].as_str())) {
                    (Some(r), Some(w)) => Some((r, w)),
                    _ => None,
                };
            }
        }
        i = i + 1;
    }
    None
}

/// The bytes that a line about an interface counts.
fn read_interface(line: &str) -> (r: (u64, u64))
    ensures
        interface_counters(line@) == (r.0 as nat, r.1 as nat),
{
    let pieces = split(line, ':');
    let ghost views = texts(pieces@);
    assert(views.len() == pieces.len());
    assert(views[0] == pieces@[0]@);
    if pieces.len() < 2 {
        return (0, 0);
    }
    if same(trim(pieces[0].as_str()).as_str(), "lo") {
        return (0, 0);
    }
    let cs = chars_of(line);
    let first = chars_of(pieces[0].as_str());
    let name: usize = first.len();
    proof {
        lemma_first_piece(line@, only(':'));
        assert(first@ == cut(line@, only(':'))[0]);
        assert(name < cs.len());
    }
    let rest = part(&cs, name + 1, cs.len());
    assert(rest@ =~= line@.skip(views[0].len() as int + 1));
    let fields = words(rest.as_str());
    let ghost words = texts(fields@);
    assert(words.len() == fields.len());
    if fields.len() >= 9 {
        assert(words[0] == fields@[0]@ && words[8] == fields@[8]@);
        let rx: u64 = match read_u64(fields[0].as_str()) {
            Some(v) => v,
            None => 0,
        };
        let tx: u64 = match read_u64(fields[8].as_str()) {
            Some(v) => v,
            None => 0,
        };
        (rx, tx)
    } else {
        (0, 0)
    }
}

/// The first of several pieces is followed by a separator.
proof fn lemma_first_piece(s: Seq<char>, sep: spec_fn(char) -> bool)
    ensures
        cut(s, sep).len() > 0,
        cut(s, sep).len() >= 2 ==> cut(s, sep)[0].len() < s.len(),
        cut(s, sep)[0].len() <= s.len(),
    decreases s.len(),
{
    if s.len() > 0 {
        lemma_first_piece(s.drop_last(), sep);
    }
}

proof fn lemma_net_totals_grow(lines: Seq<Seq<char>>, n: int)
    requires
        0 <= n <= lines.len(),
    ensures
        net_totals(lines.take(n)).0 <= net_totals(lines).0,
        net_totals(lines.take(n)).1 <= net_totals(lines).1,
    decreases lines.len(),
{
    if n < lines.len() {
        lemma_net_totals_grow(lines.drop_last(), n);
        assert(lines.drop_last().take(n) =~= lines.take(n));
    } else {
        assert(lines.take(n) =~= lines);
    }
}

/// Whether the bytes over all interfaces can be counted in 64 bits.
pub open spec fn net_fits(lines: Seq<Seq<char>>) -> bool {
    net_totals(lines).0 <= u64::MAX && net_totals(lines).1 <= u64::MAX
}

/// The bytes received and sent over all interfaces but loopback; nothing where they
/// cannot be counted in 64 bits.
pub fn net_sums(text: &str) -> (r: Option<(u64, u64)>)
    ensures
        match r {
            Some(sums) => net_totals(lines_of(text@)) == (sums.0 as nat, sums.1 as nat),
            None => !net_fits(lines_of(text@)),
        },
{
    let rows = lines(text);
    let ghost all = texts(rows@);
    let mut rx: u64 = 0;
    let mut tx: u64 = 0;
    let mut i: usize = 0;
    while i < rows.len()
        invariant
            i <= rows.len(),
            all == texts(rows@),
            all == lines_of(text@),
            net_totals(all.take(i as int)) == (rx as nat, tx as nat),
        decreases rows.len() - i,
    {
        assert(all.take(i + 1).drop_last() =~= all.take(i as int));
        assert(all.take(i + 1).last() == rows@[i as int]@);
        let (r, t) = read_interface(rows[i].as_str());
        proof {
            lemma_net_totals_grow(all, i + 1);
        }
        match (rx.checked_add(r), tx.checked_add(t)) {
            (Some(a), Some(b)) => {
                rx = a;
                tx = b;
            },
            _ => {
                return None;
            },
        }
        i = i + 1;
    }
    assert(all.take(rows.len() as int) =~= all);
    Some((rx, tx))
}

/// The user and system time of a process and the number of its threads.
pub fn read_stat(stat: &str) -> (r: Option<(u64, u64, u64)>)
    ensures
        match r {
            Some(v) => stat_times(stat@) == Some((v.0, v.1)) && v.2 == stat_threads(stat@),
            None => stat_times(stat@) is None,
        },
{
    let pieces = split(stat, ')');
    let n: usize = pieces.len();
    assert(texts(pieces@).len() == n);
    if n < 2 {
        return None;
    }
    assert(texts(pieces@).last() == pieces@[n - 1]@);
    let fields = words(pieces[n - 1].as_str());
    let ghost views = texts(fields@);
    assert(views.len() == fields.len());
    if fields.len() < 13 {
        return None;
    }
    assert(views[11] == fields@[11]@ && views[12] == fields@[12]@);
    let threads: u64 = if fields.len() >= 18 {
        assert(views[17] == fields@[17]@);
        match read_u64(fields[17].as_str()) {
            Some(v) => v,
            None => 0,
        }
    } else {
        0
    };
    match (read_u64(fields[11].as_str()), read_u64(fields[12].as_str())) {
        (Some(u), Some(s)) => Some((u, s, threads)),
        _ => None,
    }
}

/// What a process with the given command line is shown as.
pub fn show_command(command: Option<String>, stat: &str) -> (r: String)
    ensures
        r@ == command_or_name(opt_text(command), stat@),
{
    if let Some(text) = command {
        if !text.as_str().is_empty() {
            return text;
        }
    }
    let pieces = split(stat, '(');
    assert(texts(pieces@).len() == pieces.len());
    let mut out = "[".to_owned();
    if pieces.len() >= 2 {
        assert(texts(pieces@)[1] == pieces@[1]@);
        let inner = split(pieces[1].as_str(), ')');
        assert(texts(inner@)[0] == inner@[0]@);
        out.append(inner[0].as_str());
    } else {
        out.append("?");
    }
    out.append("]");
    out
}

/// What a process is shown as, from the raw contents of the file with its command line.
pub fn read_command(raw: Option<&Vec<u8>>, stat: &str) -> (r: String)
    ensures
        r@ == shown_command(
            match raw {
                Some(bytes) => Some(bytes@),
                None => None,
            },
            stat@,
        ),
        match raw {
            Some(bytes) => well_formed(bytes@) ==> command_text(bytes@) == decoded_text(bytes@),
            None => true,
        },
{
    let command = match raw {
        Some(bytes) => {
            let text = cmdline(bytes);
            proof {
                if text is None {
                    assert(command_text(bytes@) =~= Seq::empty());
                }
            }
            text
        },
        None => None,
    };
    show_command(command, stat)
}

} // verus!
