//! Laws of what the system's text files say.
use vstd::prelude::*;

use crate::laws::text::law_text_is_cut_at_a_character;
use crate::number::{parsed_u32, parsed_u64};
use crate::procfs::{
    command_or_name, disk_counters, interface_counters, labelled, labelled_number, labelled_user,
    mounted_device, net_totals, number_or_zero, stat_name, stat_threads, stat_times, users_of,
};
use crate::text::{cut_at, trimmed, words_of};

verus! {

/// Whether a line of the disk statistics is about exactly this device.
pub open spec fn about_disk(line: Seq<char>, device: Seq<char>) -> bool {
    words_of(line).len() >= 10 && words_of(line)[2] == device
}

/// The disk counters are the sixth and tenth words of the first line about exactly this
/// device, and are known exactly where there is such a line and both words are numbers.
pub proof fn law_disk_counters_are_of_the_device(
    lines: Seq<Seq<char>>,
    device: Seq<char>,
    i: int,
)
    ensures
        0 <= i < lines.len() && about_disk(lines[i], device) && (forall|j: int|
            0 <= j < i ==> !about_disk(#[trigger] lines[j], device)) ==> disk_counters(lines, device)
            == match (parsed_u64(words_of(lines[i])[5]), parsed_u64(words_of(lines[i])[9])) {
            (Some(r), Some(w)) => Some((r, w)),
            _ => None,
        },
        (forall|j: int| 0 <= j < lines.len() ==> !about_disk(#[trigger] lines[j], device))
            ==> disk_counters(lines, device) is None,
    decreases lines.len(),
{
    if lines.len() > 0 {
        let rest = lines.drop_first();
        law_disk_counters_are_of_the_device(rest, device, i - 1);
        assert forall|j: int| 0 <= j < rest.len() implies #[trigger] rest[j] == lines[j + 1] by {}
        if forall|j: int| 0 <= j < lines.len() ==> !about_disk(#[trigger] lines[j], device) {
            assert(!about_disk(lines[0], device));
        }
        if 0 < i < lines.len() && (forall|j: int| 0 <= j < i ==> !about_disk(#[trigger] lines[j], device)) {
            assert(!about_disk(lines[0], device));
            assert(rest[i - 1] == lines[i]);
        }
    }
}

/// Lines about other devices have no influence on the disk counters.
pub proof fn law_other_disks_do_not_count(
    a: Seq<Seq<char>>,
    line: Seq<char>,
    b: Seq<Seq<char>>,
    device: Seq<char>,
)
    requires
        !about_disk(line, device),
    ensures
        disk_counters(a + seq![line] + b, device) == disk_counters(a + b, device),
    decreases a.len(),
{
    if a.len() == 0 {
        assert((a + seq![line] + b).drop_first() =~= b);
        assert(a + b =~= b);
    } else {
        law_other_disks_do_not_count(a.drop_first(), line, b, device);
        assert((a + seq![line] + b).drop_first() =~= a.drop_first() + seq![line] + b);
        assert((a + b).drop_first() =~= a.drop_first() + b);
    }
}

/// A labelled value is the second word of the first line that begins with the label; lines
/// that do not begin with it have no influence.
pub proof fn law_label_finds_its_line(
    a: Seq<Seq<char>>,
    line: Seq<char>,
    b: Seq<Seq<char>>,
    label: Seq<char>,
)
    requires
        forall|j: int| 0 <= j < a.len() ==> !label.is_prefix_of(#[trigger] a[j]),
    ensures
        labelled(a + b, label) == labelled(b, label),
        label.is_prefix_of(line) ==> labelled(a + seq![line] + b, label) == if words_of(line).len()
            >= 2 {
            Some(words_of(line)[1])
        } else {
            None
        },
        labelled(a, label) is None,
    decreases a.len(),
{
    if a.len() == 0 {
        assert(a + b =~= b);
        assert((a + seq![line] + b).first() == line);
    } else {
        assert(!label.is_prefix_of(a[0]));
        let r = a.drop_first();
        assert forall|j: int| 0 <= j < r.len() implies !label.is_prefix_of(#[trigger] r[j]) by {
            assert(r[j] == a[j + 1]);
        }
        law_label_finds_its_line(r, line, b, label);
        assert((a + seq![line] + b).drop_first() =~= r + seq![line] + b);
        assert((a + b).drop_first() =~= r + b);
    }
}

/// A labelled number is that word read as a number, and zero where it is none.
pub proof fn law_labelled_numbers(lines: Seq<Seq<char>>, label: Seq<char>)
    ensures
        labelled(lines, label) is None ==> labelled_number(lines, label) == 0 && labelled_user(
            lines,
            label,
        ) == 0,
        labelled(lines, label) is Some ==> {
            let word = labelled(lines, label)->0;
            &&& parsed_u64(word) is Some ==> Some(labelled_number(lines, label)) == parsed_u64(word)
            &&& parsed_u64(word) is None ==> labelled_number(lines, label) == 0
            &&& parsed_u32(word) is Some ==> Some(labelled_user(lines, label)) == parsed_u32(word)
            &&& parsed_u32(word) is None ==> labelled_user(lines, label) == 0
        },
{
}

/// A number's words are read as such, and anything else counts as zero.
pub proof fn law_number_or_zero(s: Seq<char>, v: u64)
    ensures
        parsed_u64(s) == Some(v) ==> number_or_zero(s) == v,
        parsed_u64(s) is None ==> number_or_zero(s) == 0,
{
}

/// Whether a line of the mounts is about exactly this place.
pub open spec fn mounted_at(line: Seq<char>, mount: Seq<char>) -> bool {
    words_of(line).len() >= 2 && words_of(line)[1] == mount
}

/// The device of a mount is that of the first line about exactly this place, from behind its
/// last slash; other lines have no influence.
pub proof fn law_mounts_name_their_device(
    a: Seq<Seq<char>>,
    line: Seq<char>,
    b: Seq<Seq<char>>,
    mount: Seq<char>,
    dir: Seq<char>,
    name: Seq<char>,
)
    requires
        forall|j: int| 0 <= j < a.len() ==> !mounted_at(#[trigger] a[j], mount),
        !name.contains('/'),
    ensures
        mounted_device(a, mount) == Seq::<char>::empty(),
        mounted_device(a + b, mount) == mounted_device(b, mount),
        mounted_at(line, mount) && words_of(line)[0] == dir + seq!['/'] + name ==> mounted_device(
            a + seq![line] + b,
            mount,
        ) == name,
        mounted_at(line, mount) && words_of(line)[0] == name ==> mounted_device(
            a + seq![line] + b,
            mount,
        ) == name,
    decreases a.len(),
{
    if a.len() == 0 {
        assert(a + b =~= b);
        assert((a + seq![line] + b).first() == line);
        law_text_is_cut_at_a_character(dir, '/', name);
        law_text_is_cut_at_a_character(name, '/', name);
        assert((cut_at(dir, '/') + seq![name]).last() == name);
    } else {
        assert(!mounted_at(a[0], mount));
        let r = a.drop_first();
        assert forall|j: int| 0 <= j < r.len() implies !mounted_at(#[trigger] r[j], mount) by {
            assert(r[j] == a[j + 1]);
        }
        law_mounts_name_their_device(r, line, b, mount, dir, name);
        assert((a + seq![line] + b).drop_first() =~= r + seq![line] + b);
        assert((a + b).drop_first() =~= r + b);
    }
}

/// A user has the name of the last line with its number as the third field; lines with fewer
/// fields or without a number name nobody.
pub proof fn law_last_line_names_a_user(lines: Seq<Seq<char>>, line: Seq<char>, uid: u32)
    ensures
        ({
            let fields = cut_at(line, ':');
            let named = fields.len() >= 3 && parsed_u32(fields[2]) == Some(uid);
            let after = users_of(lines.push(line));
            &&& named ==> after.contains_key(uid) && after[uid] == fields[0]
            &&& !named ==> after.contains_key(uid) == users_of(lines).contains_key(uid)
            &&& !named && after.contains_key(uid) ==> after[uid] == users_of(lines)[uid]
            &&& !users_of(Seq::empty()).contains_key(uid)
        }),
{
    assert(lines.push(line).drop_last() =~= lines);
}

/// An interface counts with the first and ninth numbers behind its name; loopback and lines
/// without a name or with fewer numbers do not count.
pub proof fn law_interfaces_count_their_bytes(name: Seq<char>, rest: Seq<char>)
    requires
        !name.contains(':'),
    ensures
        ({
            let line = name + seq![':'] + rest;
            let fields = words_of(rest);
            &&& trimmed(name) != "lo"@ && fields.len() >= 9 ==> interface_counters(line) == (
                number_or_zero(fields[0]) as nat,
                number_or_zero(fields[8]) as nat,
            )
            &&& trimmed(name) == "lo"@ || fields.len() < 9 ==> interface_counters(line) == (
                0nat,
                0nat,
            )
            &&& interface_counters(name) == (0nat, 0nat)
        }),
{
    let line = name + seq![':'] + rest;
    law_text_is_cut_at_a_character(name, ':', rest);
    assert(cut_at(line, ':')[0] == name);
    assert(cut_at(line, ':').len() >= 2) by {
        crate::laws::text::law_cut_on_both_sides(name, ':', rest, crate::text::only(':'));
    }
    assert(line.skip(name.len() as int + 1) =~= rest);
}

/// The bytes of all interfaces are the sums over their lines.
pub proof fn law_interfaces_add_up(a: Seq<Seq<char>>, b: Seq<Seq<char>>)
    ensures
        net_totals(a + b).0 == net_totals(a).0 + net_totals(b).0,
        net_totals(a + b).1 == net_totals(a).1 + net_totals(b).1,
        a.len() == 1 ==> net_totals(a) == interface_counters(a[0]),
        a.len() == 0 ==> net_totals(a) == (0nat, 0nat),
    decreases b.len(),
{
    if b.len() == 0 {
        assert(a + b =~= a);
    } else {
        law_interfaces_add_up(a, b.drop_last());
        assert((a + b).drop_last() =~= a + b.drop_last());
    }
    if a.len() == 1 {
        assert(a.drop_last() =~= Seq::empty());
        assert(net_totals(a.drop_last()) == (0nat, 0nat));
    }
}

/// The times of a process are the twelfth and thirteenth words behind the last closing
/// bracket, and its threads the eighteenth; they are known exactly where these are numbers.
pub proof fn law_status_lines_are_read_behind_the_name(before: Seq<char>, rest: Seq<char>)
    requires
        !rest.contains(')'),
    ensures
        ({
            let line = before + seq![')'] + rest;
            let fields = words_of(rest);
            &&& fields.len() >= 13 ==> stat_times(line) == match (
                parsed_u64(fields[11]),
                parsed_u64(fields[12]),
            ) {
                (Some(u), Some(s)) => Some((u, s)),
                _ => None,
            }
            &&& fields.len() < 13 ==> stat_times(line) is None
            &&& stat_threads(line) == if fields.len() >= 18 {
                number_or_zero(fields[17])
            } else {
                0
            }
            &&& stat_times(rest) is None
        }),
{
    let line = before + seq![')'] + rest;
    law_text_is_cut_at_a_character(before, ')', rest);
    law_text_is_cut_at_a_character(rest, ')', rest);
    crate::laws::text::law_cut_on_both_sides(before, ')', rest, crate::text::only(')'));
    crate::laws::text::law_cut_on_both_sides(rest, ')', before, crate::text::only(')'));
    assert(cut_at(line, ')').last() == rest);
    assert(cut_at(before, ')').len() > 0);
    assert(cut_at(line, ')').len() >= 2);
}

/// A process without a command line is shown by the name in its status line, in square
/// brackets; one with a command line by that.
pub proof fn law_commands_stand_for_processes(
    before: Seq<char>,
    name: Seq<char>,
    rest: Seq<char>,
    command: Seq<char>,
)
    requires
        !before.contains('('),
        !name.contains('('),
        !name.contains(')'),
        !rest.contains('('),
    ensures
        ({
            let line = before + seq!['('] + (name + seq![')'] + rest);
            &&& command_or_name(None, line) == "["@ + name + "]"@
            &&& command_or_name(Some(Seq::empty()), line) == "["@ + name + "]"@
            &&& command.len() > 0 ==> command_or_name(Some(command), line) == command
            &&& command_or_name(None, before) == "["@ + "?"@ + "]"@
        }),
{
    let inner = name + seq![')'] + rest;
    assert(!inner.contains('(')) by {
        if inner.contains('(') {
            let k = choose|k: int| 0 <= k < inner.len() && inner[k] == '(';
            if k < name.len() {
                assert(name[k] == '(');
            } else if k > name.len() {
                assert(rest[k - name.len() - 1] == '(');
            }
        }
    }
    law_text_is_cut_at_a_character(before, '(', inner);
    law_text_is_cut_at_a_character(inner, '(', inner);
    law_text_is_cut_at_a_character(name, ')', rest);
    assert(cut_at(before + seq!['('] + inner, '(') == seq![before] + seq![inner]);
    assert(stat_name(before + seq!['('] + inner) == name);
}

proof fn lemma_first_piece(p: Seq<char>, s: Seq<char>, c: char)
    requires
        !p.contains(c),
    ensures
        cut_at(p + s, c).len() == cut_at(s, c).len(),
        cut_at(s, c).len() > 0,
        cut_at(p + s, c)[0] == p + cut_at(s, c)[0],
    decreases s.len(),
{
    if s.len() == 0 {
        assert(p + s =~= p);
        law_text_is_cut_at_a_character(p, c, s);
        assert(cut_at(s, c)[0] =~= Seq::empty());
    } else {
        let rest = s.drop_last();
        lemma_first_piece(p, rest, c);
        assert((p + s).drop_last() =~= p + rest);
        assert((p + s).last() == s.last());
        let (one, two) = (cut_at(p + rest, c), cut_at(rest, c));
        if s.last() != c && one.len() == 1 {
            assert(one.last().push(s.last()) =~= p + two.last().push(s.last()));
        }
    }
}

/// The name in a status line stands between the first opening bracket and the next bracket of
/// either kind, whatever follows.
pub proof fn law_names_end_at_the_next_bracket(
    before: Seq<char>,
    name: Seq<char>,
    rest: Seq<char>,
)
    requires
        !before.contains('('),
        !name.contains('('),
        !name.contains(')'),
    ensures
        command_or_name(None, before + seq!['('] + (name + seq![')'] + rest)) == "["@ + name + "]"@,
        command_or_name(None, before + seq!['('] + (name + seq!['('] + rest)) == "["@ + name + "]"@,
{
    let closed = name + seq![')'];
    let inner = name + seq![')'] + rest;
    let other = name + seq!['('] + rest;
    assert(!closed.contains('(')) by {
        if closed.contains('(') {
            let k = choose|k: int| 0 <= k < closed.len() && closed[k] == '(';
            assert(k < name.len() && name[k] == '(');
        }
    }
    law_text_is_cut_at_a_character(before, '(', inner);
    law_text_is_cut_at_a_character(before, '(', other);
    lemma_first_piece(closed, rest, '(');
    let tail = cut_at(rest, '(')[0];
    assert(cut_at(before + seq!['('] + inner, '(')[1] == closed + tail);
    law_text_is_cut_at_a_character(name, ')', tail);
    assert(stat_name(before + seq!['('] + inner) == name);
    law_text_is_cut_at_a_character(name, '(', rest);
    lemma_first_piece(name, seq!['('] + rest, '(');
    law_text_is_cut_at_a_character(name, ')', Seq::empty());
    assert(cut_at(before + seq!['('] + other, '(')[1] == name);
    assert(stat_name(before + seq!['('] + other) == name);
}

} // verus!
