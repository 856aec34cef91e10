//! Laws of chips, groups and owners.
use vstd::prelude::*;

use crate::device::{
    arguments, chip_table, command_text, cores_per_chip, decoded_text, device_of, device_owners,
    group_devices, last_chip, position, tpu_addresses, tpus, utf8_lossy, well_formed, with_claims,
    with_group, IommuGroup, PciFunction, ProcFds,
};
use crate::laws::text::{
    law_cut_nowhere, law_cut_on_both_sides, law_empty_pieces_are_left_out, law_joining_parts,
};
use crate::number::parsed_i32;
use crate::text::{cut, texts, trimmed};

verus! {

/// A chip is told by its device id; only the two kinds that share an id are told apart by
/// their subsystem. Other ids are no chip's.
pub proof fn law_chips_have_their_ids(device: Seq<char>, subsystem: Seq<char>)
    ensures
        device == "0x005e"@ ==> chip_table(device, subsystem) == Some(("v4"@, 32u32, 1u32)),
        device == "0x0063"@ ==> chip_table(device, subsystem) == Some(("v5e"@, 16u32, 1u32)),
        device == "0x0062"@ ==> chip_table(device, subsystem) == Some(("v5p"@, 95u32, 1u32)),
        device == "0x006f"@ ==> chip_table(device, subsystem) == Some(("v6e"@, 32u32, 1u32)),
        device == "0x0076"@ ==> chip_table(device, subsystem) == Some(("7x"@, 192u32, 2u32)),
        device == "0x0027"@ && subsystem == "0x004e"@ ==> chip_table(device, subsystem) == Some(
            ("v2"@, 8u32, 2u32),
        ),
        device == "0x0027"@ && subsystem == "0x004f"@ ==> chip_table(device, subsystem) == Some(
            ("v3"@, 16u32, 2u32),
        ),
        chip_table(device, subsystem) is Some ==> device == "0x005e"@ || device == "0x0063"@
            || device == "0x0062"@ || device == "0x006f"@ || device == "0x0076"@ || (device
            == "0x0027"@ && (subsystem == "0x004e"@ || subsystem == "0x004f"@)),
{
    reveal_strlit("0x005e");
    reveal_strlit("0x0063");
    reveal_strlit("0x0062");
    reveal_strlit("0x006f");
    reveal_strlit("0x0076");
    reveal_strlit("0x0027");
    reveal_strlit("0x004e");
    reveal_strlit("0x004f");
    assert("0x005e"@[4] == '5' && "0x0063"@[4] == '6' && "0x0062"@[4] == '6' && "0x006f"@[4] == '6'
        && "0x0076"@[4] == '7' && "0x0027"@[4] == '2');
    assert("0x0063"@[5] == '3' && "0x0062"@[5] == '2' && "0x006f"@[5] == 'f');
    assert("0x004e"@[5] == 'e' && "0x004f"@[5] == 'f');
}

/// A function is a chip's exactly if its vendor is Google and its ids are a chip's, white
/// space around each left out.
pub proof fn law_functions_are_chips_by_their_ids(f: PciFunction)
    ensures
        trimmed(f.vendor@) != "0x1ae0"@ ==> f.chip() is None,
        trimmed(f.vendor@) == "0x1ae0"@ ==> f.chip() == chip_table(
            trimmed(f.device@),
            trimmed(f.subsystem@),
        ),
{
}

/// The chips' functions are picked one by one, in their order, and nothing else is.
pub proof fn law_chips_are_picked(a: Seq<PciFunction>, f: PciFunction)
    ensures
        tpus(a.push(f)) == if f.chip() is Some {
            tpus(a).push(f)
        } else {
            tpus(a)
        },
        tpu_addresses(a.push(f)) == if f.chip() is Some {
            tpu_addresses(a).push(f.address@)
        } else {
            tpu_addresses(a)
        },
        last_chip(a.push(f)) == if f.chip() is Some {
            f.chip()
        } else {
            last_chip(a)
        },
        tpus(Seq::empty()).len() == 0,
        last_chip(Seq::empty()) is None,
{
    reveal(Seq::filter);
    assert(a.push(f).drop_last() =~= a);
    assert(tpu_addresses(a.push(f)) =~= if f.chip() is Some {
        tpu_addresses(a).push(f.address@)
    } else {
        tpu_addresses(a)
    });
}

/// A chip has as many cores as its kind says, and one where that is not known.
pub proof fn law_cores_of_a_chip(name: Seq<char>, hbm_gib: u32, cores: u32)
    ensures
        cores > 0 ==> cores_per_chip(Some((name, hbm_gib, cores))) == cores,
        cores_per_chip(None) == 1,
        cores_per_chip(Some((name, hbm_gib, 0))) == 1,
{
}

/// A file stands for a device exactly if it is named by the directory of groups and a group
/// that holds the device, nothing before and nothing behind.
pub proof fn law_group_files_stand_for_devices(
    target: Seq<char>,
    id: Seq<char>,
    groups: Map<Seq<char>, i64>,
    dev: i64,
)
    ensures
        device_of("/dev/vfio/"@ + id, groups) == if groups.contains_key(id) {
            Some(groups[id])
        } else {
            None
        },
        device_of(target, groups) == Some(dev) ==> exists|g: Seq<char>|
            target == "/dev/vfio/"@ + g && #[trigger] groups.contains_key(g) && groups[g] == dev,
{
    let dir = "/dev/vfio/"@;
    assert((dir + id).subrange(0, dir.len() as int) =~= dir);
    assert((dir + id).skip(dir.len() as int) =~= id);
    if device_of(target, groups) == Some(dev) {
        let g = target.skip(dir.len() as int);
        assert(target =~= dir + g);
        assert(groups.contains_key(g));
    }
}

/// A zero byte parts arguments, and bytes without one are an argument, unless there are none.
pub proof fn law_arguments_are_parted_by_zeros(a: Seq<u8>, b: Seq<u8>)
    ensures
        arguments(a + seq![0u8] + b) == arguments(a) + arguments(b),
        a.len() > 0 && !a.contains(0u8) ==> arguments(a) == seq![a],
        arguments(Seq::empty()) == Seq::<Seq<u8>>::empty(),
{
    let sep = |x: u8| x == 0;
    law_cut_on_both_sides(a, 0u8, b, sep);
    law_empty_pieces_are_left_out(cut(a, sep), a, cut(b, sep));
    if !a.contains(0u8) {
        law_cut_nowhere(a, sep);
    }
    law_cut_nowhere(Seq::<u8>::empty(), sep);
    law_empty_pieces_are_left_out::<u8>(seq![], Seq::empty(), seq![]);
}

/// A command line is its arguments as text, with one space between them.
pub proof fn law_command_lines_are_joined(a: Seq<u8>, b: Seq<u8>)
    ensures
        a.len() > 0 && !a.contains(0u8) ==> command_text(a) == utf8_lossy(a),
        arguments(a).len() > 0 && arguments(b).len() > 0 ==> command_text(a + seq![0u8] + b)
            == command_text(a) + " "@ + command_text(b),
        arguments(b).len() == 0 ==> command_text(a + seq![0u8] + b) == command_text(a),
{
    let decode = |x: Seq<u8>| utf8_lossy(x);
    law_arguments_are_parted_by_zeros(a, b);
    assert((arguments(a) + arguments(b)).map_values(decode) =~= arguments(a).map_values(decode)
        + arguments(b).map_values(decode));
    law_joining_parts(arguments(a).map_values(decode), arguments(b).map_values(decode), " "@);
    if arguments(b).len() == 0 {
        assert(arguments(a) + arguments(b) =~= arguments(a));
    }
}

/// An address has the position of its last place in a list, and none where it is missing.
pub proof fn law_positions(before: Seq<Seq<char>>, address: Seq<char>, after: Seq<Seq<char>>)
    requires
        !after.contains(address),
    ensures
        position(before + seq![address] + after, address) == Some(before.len() as int),
        position(after, address) is None,
    decreases after.len(),
{
    let all = before + seq![address] + after;
    if after.len() > 0 {
        let rest = after.drop_last();
        assert(after.contains(after[after.len() - 1]));
        assert(!rest.contains(address)) by {
            if rest.contains(address) {
                let k = choose|k: int| 0 <= k < rest.len() && rest[k] == address;
                assert(after[k] == address);
            }
        }
        law_positions(before, address, rest);
        assert(all.drop_last() =~= before + seq![address] + rest);
        assert(all.last() == after.last());
    } else {
        assert(all.last() == address);
    }
}

proof fn lemma_group_entered(
    map: Map<Seq<char>, i64>,
    id: Seq<char>,
    devices: Seq<Seq<char>>,
    sorted: Seq<Seq<char>>,
    other: Seq<char>,
    at: int,
)
    ensures
        ({
            let after = with_group(map, id, devices, sorted);
            &&& other != id ==> (after.contains_key(other) <==> map.contains_key(other)) && (
            map.contains_key(other) ==> after[other] == map[other])
            &&& (forall|k: int|
                0 <= k < devices.len() ==> position(sorted, #[trigger] devices[k]) is None)
                ==> after == map
            &&& 0 <= at < devices.len() && position(sorted, devices[at]) is Some && (forall|k: int|
                at < k < devices.len() ==> position(sorted, #[trigger] devices[k]) is None)
                ==> after.contains_key(id) && after[id] == (position(sorted, devices[at])->0) as i64
        }),
    decreases devices.len(),
{
    if devices.len() > 0 {
        let rest = devices.drop_last();
        lemma_group_entered(map, id, rest, sorted, other, at);
        assert forall|k: int| 0 <= k < rest.len() implies #[trigger] rest[k] == devices[k] by {}
        assert(devices.last() == devices[devices.len() - 1]);
    }
}

/// A group stands for the device of the last of its functions that is a chip's, and for none
/// where none is; entering it leaves all other groups as they are.
pub proof fn law_groups_are_entered(
    groups: Seq<IommuGroup>,
    group: IommuGroup,
    sorted: Seq<Seq<char>>,
    other: Seq<char>,
    at: int,
)
    ensures
        ({
            let before = group_devices(groups, sorted);
            let after = group_devices(groups.push(group), sorted);
            let devices = texts(group.devices@);
            &&& other != group.id@ ==> (after.contains_key(other) <==> before.contains_key(other))
                && (before.contains_key(other) ==> after[other] == before[other])
            &&& (forall|k: int|
                0 <= k < devices.len() ==> position(sorted, #[trigger] devices[k]) is None)
                ==> after == before
            &&& 0 <= at < devices.len() && position(sorted, devices[at]) is Some && (forall|k: int|
                at < k < devices.len() ==> position(sorted, #[trigger] devices[k]) is None)
                ==> after.contains_key(group.id@) && after[group.id@] == (position(
                sorted,
                devices[at],
            )->0) as i64
            &&& group_devices(Seq::empty(), sorted) == Map::<Seq<char>, i64>::empty()
        }),
{
    assert(groups.push(group).drop_last() =~= groups);
    lemma_group_entered(
        group_devices(groups, sorted),
        group.id@,
        texts(group.devices@),
        sorted,
        other,
        at,
    );
}

proof fn lemma_claims(
    owners: Map<i64, i32>,
    pid: i32,
    targets: Seq<Seq<char>>,
    groups: Map<Seq<char>, i64>,
    dev: i64,
)
    ensures
        ({
            let after = with_claims(owners, pid, targets, groups);
            let claimed = exists|k: int|
                0 <= k < targets.len() && device_of(#[trigger] targets[k], groups) == Some(dev);
            &&& owners.contains_key(dev) ==> after.contains_key(dev) && after[dev] == owners[dev]
            &&& !owners.contains_key(dev) && claimed ==> after.contains_key(dev) && after[dev] == pid
            &&& !owners.contains_key(dev) && !claimed ==> !after.contains_key(dev)
        }),
    decreases targets.len(),
{
    if targets.len() > 0 {
        let rest = targets.drop_last();
        lemma_claims(owners, pid, rest, groups, dev);
        assert forall|k: int| 0 <= k < rest.len() implies #[trigger] rest[k] == targets[k] by {}
        assert(targets.last() == targets[targets.len() - 1]);
        if exists|k: int| 0 <= k < rest.len() && device_of(#[trigger] rest[k], groups) == Some(dev) {
            let k = choose|k: int|
                0 <= k < rest.len() && device_of(#[trigger] rest[k], groups) == Some(dev);
            assert(device_of(targets[k], groups) == Some(dev));
        } else if exists|k: int|
            0 <= k < targets.len() && device_of(#[trigger] targets[k], groups) == Some(dev) {
            let k = choose|k: int|
                0 <= k < targets.len() && device_of(#[trigger] targets[k], groups) == Some(dev);
            if k < rest.len() {
                assert(device_of(rest[k], groups) == Some(dev));
            }
        }
    }
}

/// A device belongs to the first process that has a file open that stands for it. A later
/// process takes none away, and a directory that is not named by a number claims nothing.
pub proof fn law_first_claim_stays(
    procs: Seq<ProcFds>,
    process: ProcFds,
    groups: Map<Seq<char>, i64>,
    dev: i64,
)
    ensures
        ({
            let before = device_owners(procs, groups);
            let after = device_owners(procs.push(process), groups);
            let claimed = exists|k: int|
                0 <= k < process.targets.len() && device_of(
                    (#[trigger] process.targets@[k])@,
                    groups,
                ) == Some(dev);
            &&& before.contains_key(dev) ==> after.contains_key(dev) && after[dev] == before[dev]
            &&& !before.contains_key(dev) && claimed && parsed_i32(process.name@) is Some
                ==> after.contains_key(dev) && Some(after[dev]) == parsed_i32(process.name@)
            &&& !before.contains_key(dev) && (!claimed || parsed_i32(process.name@) is None)
                ==> !after.contains_key(dev)
            &&& device_owners(Seq::empty(), groups) == Map::<i64, i32>::empty()
        }),
{
    let targets = texts(process.targets@);
    assert(procs.push(process).drop_last() =~= procs);
    assert forall|k: int| 0 <= k < process.targets.len() implies #[trigger] targets[k]
        == process.targets@[k]@ by {}
    if parsed_i32(process.name@) is Some {
        lemma_claims(
            device_owners(procs, groups),
            parsed_i32(process.name@)->0,
            targets,
            groups,
            dev,
        );
        if exists|k: int|
            0 <= k < process.targets.len() && device_of((#[trigger] process.targets@[k])@, groups)
                == Some(dev) {
            let k = choose|k: int|
                0 <= k < process.targets.len() && device_of(
                    (#[trigger] process.targets@[k])@,
                    groups,
                ) == Some(dev);
            assert(device_of(targets[k], groups) == Some(dev));
        }
        if exists|k: int| 0 <= k < targets.len() && device_of(#[trigger] targets[k], groups) == Some(dev) {
            let k = choose|k: int|
                0 <= k < targets.len() && device_of(#[trigger] targets[k], groups) == Some(dev);
            assert(device_of(process.targets@[k]@, groups) == Some(dev));
        }
    }
}

/// Well-formed arguments are decoded one by one, with one space between them.
pub proof fn law_command_lines_are_decoded(a: Seq<u8>, b: Seq<u8>)
    ensures
        a.len() > 0 && !a.contains(0u8) ==> decoded_text(a) == vstd::utf8::decode_utf8(a),
        arguments(a).len() > 0 && arguments(b).len() > 0 ==> decoded_text(a + seq![0u8] + b)
            == decoded_text(a) + " "@ + decoded_text(b),
        well_formed(a + seq![0u8] + b) <==> well_formed(a) && well_formed(b),
        a.len() > 0 && !a.contains(0u8) ==> (well_formed(a) <==> vstd::utf8::valid_utf8(a)),
{
    let decode = |x: Seq<u8>| vstd::utf8::decode_utf8(x);
    let (p, q) = (arguments(a), arguments(b));
    law_arguments_are_parted_by_zeros(a, b);
    assert((p + q).map_values(decode) =~= p.map_values(decode) + q.map_values(decode));
    law_joining_parts(p.map_values(decode), q.map_values(decode), " "@);
    if well_formed(a + seq![0u8] + b) {
        assert forall|k: int| 0 <= k < p.len() implies vstd::utf8::valid_utf8(#[trigger] p[k]) by {
            assert((p + q)[k] == p[k]);
        }
        assert forall|k: int| 0 <= k < q.len() implies vstd::utf8::valid_utf8(#[trigger] q[k]) by {
            assert((p + q)[p.len() + k] == q[k]);
        }
    }
    if a.len() > 0 && !a.contains(0u8) {
        assert(p[0] == a);
    }
}

} // verus!
