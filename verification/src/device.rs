//! The TPU chips of this machine and the processes that hold them.
use std::collections::BTreeMap;

use vstd::hash_map::StringHashMap;
use vstd::prelude::*;

use crate::number::{parsed_i32, read_i32};
use crate::text::{
    after_prefix, code_order, cut, filled, in_code_order, join, joined, law_order_keeps_strings,
    lemma_code_order_total, lemma_filled_push, no_later, same, sort, texts, trim, trimmed,
};

verus! {

/// A kind of TPU chip.
#[derive(Clone, Copy, Debug)]
pub struct ChipType {
    /// The name of the generation.
    pub name: &'static str,
    /// Memory per chip, in gibibytes.
    pub hbm_gib: u32,
    /// Cores per chip.
    pub devices_per_chip: u32,
}

impl View for ChipType {
    type V = (Seq<char>, u32, u32);

    open spec fn view(&self) -> (Seq<char>, u32, u32) {
        (self.name@, self.hbm_gib, self.devices_per_chip)
    }
}

/// The chips found.
pub struct DeviceInfo {
    /// The kind of the chips.
    pub chip: Option<ChipType>,
    /// How many chips there are.
    pub chips: usize,
    /// How many cores they have together.
    pub cores: usize,
}

/// A PCI function as the system lists it: its address and the raw contents of its id files.
pub struct PciFunction {
    pub address: String,
    pub vendor: String,
    pub device: String,
    pub subsystem: String,
}

/// A group of PCI functions that are handed out together.
pub struct IommuGroup {
    pub id: String,
    /// The addresses of the functions in the group.
    pub devices: Vec<String>,
}

/// An entry of the process list: its name and what its open files point to.
pub struct ProcFds {
    pub name: String,
    pub targets: Vec<String>,
}

/// Which device each group holds.
pub struct GroupMap {
    map: StringHashMap<i64>,
}

impl View for GroupMap {
    type V = Map<Seq<char>, i64>;

    closed spec fn view(&self) -> Map<Seq<char>, i64> {
        self.map@
    }
}

/// The view of a chip kind that may be missing.
pub open spec fn chip_view(chip: Option<ChipType>) -> Option<(Seq<char>, u32, u32)> {
    match chip {
        Some(c) => Some(c@),
        None => None,
    }
}

/// The name, the memory and the cores of the chip with the given PCI ids.
pub open spec fn chip_table(device: Seq<char>, subsystem: Seq<char>) -> Option<
    (Seq<char>, u32, u32),
> {
    if device == "0x0027"@ {
        if subsystem == "0x004e"@ {
            Some(("v2"@, 8, 2))
        } else if subsystem == "0x004f"@ {
            Some(("v3"@, 16, 2))
        } else {
            None
        }
    } else if device == "0x005e"@ {
        Some(("v4"@, 32, 1))
    } else if device == "0x0063"@ {
        Some(("v5e"@, 16, 1))
    } else if device == "0x0062"@ {
        Some(("v5p"@, 95, 1))
    } else if device == "0x006f"@ {
        Some(("v6e"@, 32, 1))
    } else if device == "0x0076"@ {
        Some(("7x"@, 192, 2))
    } else {
        None
    }
}

impl PciFunction {
    /// The chip that this function belongs to, if it is one of Google's.
    pub open spec fn chip(self) -> Option<(Seq<char>, u32, u32)> {
        if trimmed(self.vendor@) == "0x1ae0"@ {
            chip_table(trimmed(self.device@), trimmed(self.subsystem@))
        } else {
            None
        }
    }
}

/// The functions that belong to a TPU chip.
pub open spec fn tpus(functions: Seq<PciFunction>) -> Seq<PciFunction> {
    functions.filter(|f: PciFunction| f.chip() is Some)
}

/// The addresses of the functions that belong to a TPU chip.
pub open spec fn tpu_addresses(functions: Seq<PciFunction>) -> Seq<Seq<char>> {
    tpus(functions).map_values(|f: PciFunction| f.address@)
}

/// The kind of the chip found last.
pub open spec fn last_chip(functions: Seq<PciFunction>) -> Option<(Seq<char>, u32, u32)> {
    if tpus(functions).len() == 0 {
        None
    } else {
        tpus(functions).last().chip()
    }
}

/// The cores of one chip, at least one.
pub open spec fn cores_per_chip(chip: Option<(Seq<char>, u32, u32)>) -> nat {
    match chip {
        Some(c) => if c.2 == 0 {
            1
        } else {
            c.2 as nat
        },
        None => 1,
    }
}

/// The position of `address` in `list`, the last one if there are several.
pub open spec fn position(list: Seq<Seq<char>>, address: Seq<char>) -> Option<int>
    decreases list.len(),
{
    if list.len() == 0 {
        None
    } else if list.last() == address {
        Some(list.len() - 1)
    } else {
        position(list.drop_last(), address)
    }
}

/// `map` after a group and the addresses in it have been entered.
pub open spec fn with_group(
    map: Map<Seq<char>, i64>,
    id: Seq<char>,
    devices: Seq<Seq<char>>,
    sorted: Seq<Seq<char>>,
) -> Map<Seq<char>, i64>
    decreases devices.len(),
{
    if devices.len() == 0 {
        map
    } else {
        let before = with_group(map, id, devices.drop_last(), sorted);
        match position(sorted, devices.last()) {
            Some(i) => before.insert(id, i as i64),
            None => before,
        }
    }
}

/// Which device each group holds: the position of its TPU function among the sorted
/// addresses, that of the last one if it holds several.
pub open spec fn group_devices(
    groups: Seq<IommuGroup>,
    sorted: Seq<Seq<char>>,
) -> Map<Seq<char>, i64>
    decreases groups.len(),
{
    if groups.len() == 0 {
        Map::empty()
    } else {
        let g = groups.last();
        with_group(group_devices(groups.drop_last(), sorted), g.id@, texts(g.devices@), sorted)
    }
}

/// The device that a file with the given target stands for.
pub open spec fn device_of(target: Seq<char>, groups: Map<Seq<char>, i64>) -> Option<i64> {
    let prefix = "/dev/vfio/"@;
    if prefix.is_prefix_of(target) && groups.contains_key(target.skip(prefix.len() as int)) {
        Some(groups[target.skip(prefix.len() as int)])
    } else {
        None
    }
}

/// `owners` after a process has claimed what its files stand for; earlier claims stay.
pub open spec fn with_claims(
    owners: Map<i64, i32>,
    pid: i32,
    targets: Seq<Seq<char>>,
    groups: Map<Seq<char>, i64>,
) -> Map<i64, i32>
    decreases targets.len(),
{
    if targets.len() == 0 {
        owners
    } else {
        let before = with_claims(owners, pid, targets.drop_last(), groups);
        match device_of(targets.last(), groups) {
            Some(dev) => if before.contains_key(dev) {
                before
            } else {
                before.insert(dev, pid)
            },
            None => before,
        }
    }
}

/// The first process that holds each device.
pub open spec fn device_owners(procs: Seq<ProcFds>, groups: Map<Seq<char>, i64>) -> Map<i64, i32>
    decreases procs.len(),
{
    if procs.len() == 0 {
        Map::empty()
    } else {
        let before = device_owners(procs.drop_last(), groups);
        match parsed_i32(procs.last().name@) {
            Some(pid) => with_claims(before, pid, texts(procs.last().targets@), groups),
            None => before,
        }
    }
}

/// The bytes as UTF-8 text, with each ill-formed part replaced.
pub uninterp spec fn utf8_lossy(bytes: Seq<u8>) -> Seq<char>;

/// The arguments on a command line: what stands between zero bytes, empty ones left out.
pub open spec fn arguments(raw: Seq<u8>) -> Seq<Seq<u8>> {
    filled(cut(raw, |b: u8| b == 0))
}

/// The arguments as text with spaces between them.
pub open spec fn command_text(raw: Seq<u8>) -> Seq<char> {
    joined(arguments(raw).map_values(|a: Seq<u8>| utf8_lossy(a)), " "@)
}

/// Whether every argument is well-formed UTF-8.
pub open spec fn well_formed(raw: Seq<u8>) -> bool {
    forall|i: int|
        0 <= i < arguments(raw).len() ==> vstd::utf8::valid_utf8(#[trigger] arguments(raw)[i])
}

/// The arguments, decoded, with spaces between them.
pub open spec fn decoded_text(raw: Seq<u8>) -> Seq<char> {
    joined(arguments(raw).map_values(|a: Seq<u8>| vstd::utf8::decode_utf8(a)), " "@)
}

/// The chip with the given PCI ids.
pub fn chip_from_ids(device_id: &str, subsystem_id: &str) -> (r: Option<ChipType>)
    ensures
        chip_view(r) == chip_table(device_id@, subsystem_id@),
{
    if same(device_id, "0x0027") {
        if same(subsystem_id, "0x004e") {
            Some(ChipType { name: "v2", hbm_gib: 8, devices_per_chip: 2 })
        } else if same(subsystem_id, "0x004f") {
            Some(ChipType { name: "v3", hbm_gib: 16, devices_per_chip: 2 })
        } else {
            None
        }
    } else if same(device_id, "0x005e") {
        Some(ChipType { name: "v4", hbm_gib: 32, devices_per_chip: 1 })
    } else if same(device_id, "0x0063") {
        Some(ChipType { name: "v5e", hbm_gib: 16, devices_per_chip: 1 })
    } else if same(device_id, "0x0062") {
        Some(ChipType { name: "v5p", hbm_gib: 95, devices_per_chip: 1 })
    } else if same(device_id, "0x006f") {
        Some(ChipType { name: "v6e", hbm_gib: 32, devices_per_chip: 1 })
    } else if same(device_id, "0x0076") {
        Some(ChipType { name: "7x", hbm_gib: 192, devices_per_chip: 2 })
    } else {
        None
    }
}

impl PciFunction {
    /// The chip that this function belongs to, if it is one of Google's.
    pub fn chip_type(&self) -> (r: Option<ChipType>)
        ensures
            chip_view(r) == self.chip(),
    {
        if same(trim(self.vendor.as_str()).as_str(), "0x1ae0") {
            chip_from_ids(
                trim(self.device.as_str()).as_str(),
                trim(self.subsystem.as_str()).as_str(),
            )
        } else {
            None
        }
    }
}

proof fn lemma_tpus_push(functions: Seq<PciFunction>, i: int)
    requires
        0 <= i < functions.len(),
    ensures
        tpus(functions.take(i + 1)) == if functions[i].chip() is Some {
            tpus(functions.take(i)).push(functions[i])
        } else {
            tpus(functions.take(i))
        },
{
    reveal(Seq::filter);
    assert(functions.take(i + 1).drop_last() =~= functions.take(i));
}

/// What chips there are, from the machine's PCI functions.
pub fn detect(functions: &Vec<PciFunction>) -> (r: DeviceInfo)
    ensures
        chip_view(r.chip) == last_chip(functions@),
        r.cores == tpus(functions@).len(),
        r.chips == r.cores as nat / cores_per_chip(last_chip(functions@)),
{
    let mut chip: Option<ChipType> = None;
    let mut count: usize = 0;
    let mut i: usize = 0;
    proof {
        reveal(Seq::filter);
        assert(functions@.take(0) =~= Seq::empty());
    }
    while i < functions.len()
        invariant
            i <= functions.len(),
            count == tpus(functions@.take(i as int)).len(),
            count <= i,
            chip_view(chip) == last_chip(functions@.take(i as int)),
        decreases functions.len() - i,
    {
        proof {
            lemma_tpus_push(functions@, i as int);
        }
        let found = functions[i].chip_type();
        if found.is_some() {
            chip = found;
            count = count + 1;
        }
        i = i + 1;
    }
    assert(functions@.take(functions.len() as int) =~= functions@);
    let mut per_chip: usize = 1;
    if let Some(c) = chip {
        if c.devices_per_chip > 1 {
            per_chip = c.devices_per_chip as usize;
        }
    }
    DeviceInfo { chip, chips: count / per_chip, cores: count }
}

/// The addresses of the TPU functions in order; the position of an address is its
/// device number.
pub fn tpu_pci_sorted(functions: &Vec<PciFunction>) -> (r: Vec<String>)
    ensures
        texts(r@) == in_code_order(tpu_addresses(functions@)),
{
    let mut found: Vec<String> = Vec::new();
    let mut i: usize = 0;
    proof {
        reveal(Seq::filter);
        assert(functions@.take(0) =~= Seq::empty());
        assert(texts(found@) =~= tpu_addresses(functions@.take(0)));
    }
    while i < functions.len()
        invariant
            i <= functions.len(),
            texts(found@) == tpu_addresses(functions@.take(i as int)),
        decreases functions.len() - i,
    {
        proof {
            lemma_tpus_push(functions@, i as int);
        }
        if functions[i].chip_type().is_some() {
            let ghost earlier = texts(found@);
            found.push(functions[i].address.clone());
            assert(texts(found@) =~= earlier.push(functions[i as int].address@));
            assert(texts(found@) =~= tpu_addresses(functions@.take(i + 1)));
        }
        i = i + 1;
    }
    assert(functions@.take(functions.len() as int) =~= functions@);
    sort(&found)
}

fn find(list: &Vec<String>, address: &str) -> (r: Option<i64>)
    ensures
        match r {
            Some(i) => position(texts(list@), address@) is Some && i == position(
                texts(list@),
                address@,
            )->0 as i64,
            None => position(texts(list@), address@) is None,
        },
{
    let ghost all = texts(list@);
    let mut n: usize = list.len();
    assert(all.take(n as int) =~= all);
    while n > 0
        invariant
            n <= list.len(),
            all == texts(list@),
            position(all, address@) == position(all.take(n as int), address@),
        decreases n,
    {
        assert(all.take(n as int).drop_last() =~= all.take(n - 1));
        assert(all.take(n as int).last() == list@[n - 1]@);
        if same(list[n - 1].as_str(), address) {
            return Some((n - 1) as i64);
        }
        n = n - 1;
    }
    None
}

/// Which device each group holds. It is empty where no group holds a TPU function.
pub fn vfio_group_to_device(functions: &Vec<PciFunction>, groups: &Vec<IommuGroup>) -> (r: GroupMap)
    ensures
        r@ == group_devices(groups@, in_code_order(tpu_addresses(functions@))),
{
    let sorted = tpu_pci_sorted(functions);
    let ghost order = texts(sorted@);
    let mut map: StringHashMap<i64> = StringHashMap::new();
    let mut i: usize = 0;
    while i < groups.len()
        invariant
            i <= groups.len(),
            order == texts(sorted@),
            map@ == group_devices(groups@.take(i as int), order),
        decreases groups.len() - i,
    {
        let group = &groups[i];
        let ghost devices = texts(group.devices@);
        let ghost before = map@;
        let mut k: usize = 0;
        while k < group.devices.len()
            invariant
                k <= group.devices.len(),
                order == texts(sorted@),
                devices == texts(group.devices@),
                map@ == with_group(before, group.id@, devices.take(k as int), order),
            decreases group.devices.len() - k,
        {
            assert(devices.take(k + 1).drop_last() =~= devices.take(k as int));
            assert(devices.take(k + 1).last() == group.devices@[k as int]@);
            if let Some(dev) = find(&sorted, group.devices[k].as_str()) {
                map.insert(group.id.clone(), dev);
            }
            k = k + 1;
        }
        assert(devices.take(devices.len() as int) =~= devices);
        assert(groups@.take(i + 1).drop_last() =~= groups@.take(i as int));
        i = i + 1;
    }
    assert(groups@.take(groups.len() as int) =~= groups@);
    GroupMap { map }
}

impl GroupMap {
    /// Whether no group holds a device.
    pub fn is_empty(&self) -> (r: bool)
        ensures
            r == self@.is_empty(),
    {
        self.map.is_empty()
    }
}

fn device_at(target: &str, groups: &GroupMap) -> (r: Option<i64>)
    ensures
        r == device_of(target@, groups@),
{
    match after_prefix(target, "/dev/vfio/") {
        Some(group) => match groups.map.get(group.as_str()) {
            Some(dev) => Some(*dev),
            None => None,
        },
        None => None,
    }
}

/// Which process holds each device: the first one in the list that has it open.
/// Where the groups are not known, nothing is said of any device.
pub fn chip_owners(groups: &GroupMap, procs: &Vec<ProcFds>) -> (r: BTreeMap<i64, i32>)
    ensures
        r@ == device_owners(procs@, groups@),
{
    let mut owners: BTreeMap<i64, i32> = BTreeMap::new();
    let mut i: usize = 0;
    while i < procs.len()
        invariant
            i <= procs.len(),
            owners@ == device_owners(procs@.take(i as int), groups@),
        decreases procs.len() - i,
    {
        let entry = &procs[i];
        assert(procs@.take(i + 1).drop_last() =~= procs@.take(i as int));
        if let Some(pid) = read_i32(entry.name.as_str()) {
            let ghost targets = texts(entry.targets@);
            let ghost before = owners@;
            let mut k: usize = 0;
            while k < entry.targets.len()
                invariant
                    k <= entry.targets.len(),
                    targets == texts(entry.targets@),
                    owners@ == with_claims(before, pid, targets.take(k as int), groups@),
                decreases entry.targets.len() - k,
            {
                assert(targets.take(k + 1).drop_last() =~= targets.take(k as int));
                assert(targets.take(k + 1).last() == entry.targets@[k as int]@);
                if let Some(dev) = device_at(entry.targets[k].as_str(), groups) {
                    if !owners.contains_key(&dev) {
                        owners.insert(dev, pid);
                    }
                }
                k = k + 1;
            }
            assert(targets.take(targets.len() as int) =~= targets);
        }
        i = i + 1;
    }
    assert(procs@.take(procs.len() as int) =~= procs@);
    owners
}

/// `String::from_utf8_lossy` reads the bytes as UTF-8 and replaces ill-formed parts by
/// U+FFFD. Of the result it is claimed that it depends on the bytes alone, and that
/// well-formed bytes are decoded. What stands in place of ill-formed bytes is left to
/// the name.
#[verifier::external_body]
fn lossy(bytes: &Vec<u8>) -> (r: String)
    ensures
        r@ == utf8_lossy(bytes@),
        vstd::utf8::valid_utf8(bytes@) ==> r@ == vstd::utf8::decode_utf8(bytes@),
{
    String::from_utf8_lossy(bytes).into_owned()
}

/// The arguments on a command line, each as text.
fn argument_texts(raw: &Vec<u8>) -> (r: Vec<String>)
    ensures
        texts(r@) == arguments(raw@).map_values(|a: Seq<u8>| utf8_lossy(a)),
        forall|i: int|
            0 <= i < arguments(raw@).len() && vstd::utf8::valid_utf8(#[trigger] arguments(raw@)[i])
                ==> utf8_lossy(arguments(raw@)[i]) == vstd::utf8::decode_utf8(arguments(raw@)[i]),
{
    let mut out: Vec<String> = Vec::new();
    let mut piece: Vec<u8> = Vec::new();
    let ghost sep = |b: u8| b == 0;
    let ghost decode = |a: Seq<u8>| utf8_lossy(a);
    let ghost mut pieces: Seq<Seq<u8>> = Seq::empty();
    let mut i: usize = 0;
    proof {
        reveal(Seq::filter);
        assert(texts(out@) =~= filled(pieces).map_values(decode));
    }
    while i < raw.len()
        invariant
            i <= raw.len(),
            sep == (|b: u8| b == 0),
            decode == (|a: Seq<u8>| utf8_lossy(a)),
            texts(out@) == filled(pieces).map_values(decode),
            forall|k: int|
                0 <= k < filled(pieces).len() && vstd::utf8::valid_utf8(
                    #[trigger] filled(pieces)[k],
                ) ==> utf8_lossy(filled(pieces)[k]) == vstd::utf8::decode_utf8(filled(pieces)[k]),
            pieces.push(piece@) == cut(raw@.take(i as int), sep),
        decreases raw.len() - i,
    {
        assert(raw@.take(i + 1).drop_last() =~= raw@.take(i as int));
        assert(pieces.push(piece@).drop_last() =~= pieces);
        if raw[i] == 0 {
            proof {
                lemma_filled_push(pieces, piece@);
                pieces = pieces.push(piece@);
            }
            if piece.len() > 0 {
                let ghost earlier = texts(out@);
                out.push(lossy(&piece));
                assert(texts(out@) =~= earlier.push(utf8_lossy(piece@)));
                assert(texts(out@) =~= filled(pieces).map_values(decode));
            }
            piece = Vec::new();
        } else {
            piece.push(raw[i]);
        }
        i = i + 1;
    }
    assert(raw@.take(raw.len() as int) =~= raw@);
    proof {
        lemma_filled_push(pieces, piece@);
    }
    if piece.len() > 0 {
        let ghost earlier = texts(out@);
        out.push(lossy(&piece));
        assert(texts(out@) =~= earlier.push(utf8_lossy(piece@)));
        assert(texts(out@) =~= filled(pieces.push(piece@)).map_values(decode));
    }
    out
}

/// Arguments with spaces between them; nothing where there are none.
pub fn command_line(parts: &Vec<String>) -> (r: Option<String>)
    ensures
        match r {
            Some(text) => parts.len() > 0 && text@ == joined(texts(parts@), " "@),
            None => parts.len() == 0,
        },
{
    if parts.len() == 0 {
        None
    } else {
        Some(join(parts, " "))
    }
}

/// A process's command line as text, from the raw contents of its file; nothing where it
/// has no arguments.
pub fn cmdline(raw: &Vec<u8>) -> (r: Option<String>)
    ensures
        match r {
            Some(text) => arguments(raw@).len() > 0 && text@ == command_text(raw@),
            None => arguments(raw@).len() == 0,
        },
        well_formed(raw@) ==> command_text(raw@) == decoded_text(raw@),
{
    let parts = argument_texts(raw);
    assert(texts(parts@).len() == parts.len());
    proof {
        if well_formed(raw@) {
            let lossy_texts = arguments(raw@).map_values(|a: Seq<u8>| utf8_lossy(a));
            let decoded = arguments(raw@).map_values(|a: Seq<u8>| vstd::utf8::decode_utf8(a));
            assert forall|i: int| 0 <= i < lossy_texts.len() implies lossy_texts[i] == decoded[i] by {
                assert(vstd::utf8::valid_utf8(arguments(raw@)[i]));
            }
            assert(lossy_texts =~= decoded);
        }
    }
    command_line(&parts)
}

/// Whether an entry of the process list is a process with `dev` open.
pub open spec fn holds(entry: ProcFds, dev: i64, groups: Map<Seq<char>, i64>) -> bool {
    &&& parsed_i32(entry.name@) is Some
    &&& exists|t: int|
        0 <= t < entry.targets.len() && device_of(#[trigger] entry.targets@[t]@, groups) == Some(
            dev,
        )
}

/// The cores are the chips' cores and fewer than one chip's more; where the chips are
/// whole, a chip has as many cores as its kind says.
pub proof fn law_cores_make_chips(functions: Seq<PciFunction>)
    ensures
        ({
            let cores = tpus(functions).len();
            let per_chip = cores_per_chip(last_chip(functions));
            let chips = cores / per_chip;
            &&& chips * per_chip <= cores < (chips + 1) * per_chip
            &&& cores % per_chip == 0 ==> cores == chips * per_chip
        }),
{
    let cores = tpus(functions).len();
    let per_chip = cores_per_chip(last_chip(functions));
    let chips = cores / per_chip;
    assert(chips * per_chip <= cores < (chips + 1) * per_chip && (cores % per_chip == 0 ==> cores
        == chips * per_chip)) by (nonlinear_arith)
        requires
            chips == cores / per_chip,
            per_chip > 0,
    ;
}

proof fn lemma_with_claims(
    owners: Map<i64, i32>,
    pid: i32,
    targets: Seq<Seq<char>>,
    groups: Map<Seq<char>, i64>,
    dev: i64,
)
    ensures
        ({
            let after = with_claims(owners, pid, targets, groups);
            let held = exists|t: int|
                0 <= t < targets.len() && device_of(#[trigger] targets[t], groups) == Some(dev);
            &&& after.contains_key(dev) <==> owners.contains_key(dev) || held
            &&& owners.contains_key(dev) ==> after[dev] == owners[dev]
            &&& !owners.contains_key(dev) && held ==> after[dev] == pid
        }),
    decreases targets.len(),
{
    if targets.len() > 0 {
        let rest = targets.drop_last();
        lemma_with_claims(owners, pid, rest, groups, dev);
        let held = exists|t: int|
            0 <= t < targets.len() && device_of(#[trigger] targets[t], groups) == Some(dev);
        let held_before = exists|t: int|
            0 <= t < rest.len() && device_of(#[trigger] rest[t], groups) == Some(dev);
        if held_before {
            let t = choose|t: int|
                0 <= t < rest.len() && device_of(#[trigger] rest[t], groups) == Some(dev);
            assert(targets[t] == rest[t]);
        }
        if held && !held_before {
            let t = choose|t: int|
                0 <= t < targets.len() && device_of(#[trigger] targets[t], groups) == Some(dev);
            if t < rest.len() {
                assert(rest[t] == targets[t]);
            }
        }
        if device_of(targets.last(), groups) == Some(dev) {
            assert(device_of(targets[targets.len() - 1], groups) == Some(dev));
        }
    }
}

/// A device has an owner exactly if some process has it open, and the owner is the first
/// such process in the list.
pub proof fn law_owner_is_first_holder(
    procs: Seq<ProcFds>,
    groups: Map<Seq<char>, i64>,
    dev: i64,
)
    ensures
        ({
            let owners = device_owners(procs, groups);
            &&& owners.contains_key(dev) <==> exists|p: int|
                0 <= p < procs.len() && holds(#[trigger] procs[p], dev, groups)
            &&& owners.contains_key(dev) ==> exists|p: int|
                {
                    &&& 0 <= p < procs.len()
                    &&& holds(#[trigger] procs[p], dev, groups)
                    &&& parsed_i32(procs[p].name@) == Some(owners[dev])
                    &&& forall|q: int| 0 <= q < p ==> !holds(#[trigger] procs[q], dev, groups)
                }
        }),
    decreases procs.len(),
{
    if procs.len() > 0 {
        let rest = procs.drop_last();
        let last = procs.last();
        let n = procs.len() - 1;
        law_owner_is_first_holder(rest, groups, dev);
        let before = device_owners(rest, groups);
        let owners = device_owners(procs, groups);
        let targets = texts(last.targets@);
        let held = exists|t: int|
            0 <= t < targets.len() && device_of(#[trigger] targets[t], groups) == Some(dev);
        if holds(last, dev, groups) {
            let t = choose|t: int|
                0 <= t < last.targets.len() && device_of(#[trigger] last.targets@[t]@, groups)
                    == Some(dev);
            assert(device_of(targets[t], groups) == Some(dev));
        }
        if held && parsed_i32(last.name@) is Some {
            let t = choose|t: int|
                0 <= t < targets.len() && device_of(#[trigger] targets[t], groups) == Some(dev);
            assert(device_of(last.targets@[t]@, groups) == Some(dev));
            assert(holds(last, dev, groups));
        }
        if parsed_i32(last.name@) is Some {
            lemma_with_claims(before, parsed_i32(last.name@)->0, targets, groups, dev);
        }
        assert forall|p: int| 0 <= p < n implies rest[p] == #[trigger] procs[p] by {}
        if before.contains_key(dev) {
            let p = choose|p: int|
                {
                    &&& 0 <= p < rest.len()
                    &&& holds(#[trigger] rest[p], dev, groups)
                    &&& parsed_i32(rest[p].name@) == Some(before[dev])
                    &&& forall|q: int| 0 <= q < p ==> !holds(#[trigger] rest[q], dev, groups)
                };
            assert(procs[p] == rest[p]);
            assert forall|q: int| 0 <= q < p implies !holds(#[trigger] procs[q], dev, groups) by {
                assert(procs[q] == rest[q]);
            }
            assert(holds(procs[p], dev, groups));
        } else {
            assert forall|q: int| 0 <= q < n implies !holds(#[trigger] procs[q], dev, groups) by {
                assert(procs[q] == rest[q]);
            }
            if owners.contains_key(dev) {
                assert(holds(procs[n], dev, groups));
            }
        }
    }
}

/// Where no group is known to hold a device, no device has an owner.
pub proof fn law_unknown_groups_own_nothing(procs: Seq<ProcFds>)
    ensures
        device_owners(procs, Map::empty()) == Map::<i64, i32>::empty(),
{
    let groups = Map::<Seq<char>, i64>::empty();
    assert forall|dev: i64| !device_owners(procs, groups).contains_key(dev) by {
        law_owner_is_first_holder(procs, groups, dev);
    }
    assert(device_owners(procs, groups) =~= Map::<i64, i32>::empty());
}

proof fn lemma_position(list: Seq<Seq<char>>, address: Seq<char>)
    ensures
        position(list, address) is Some <==> list.contains(address),
        match position(list, address) {
            Some(i) => 0 <= i < list.len() && list[i] == address,
            None => true,
        },
    decreases list.len(),
{
    if list.len() > 0 {
        let rest = list.drop_last();
        lemma_position(rest, address);
        if list.last() == address {
            assert(list[list.len() - 1] == address);
        } else if list.contains(address) {
            let k = choose|k: int| 0 <= k < list.len() && list[k] == address;
            assert(rest[k] == address);
        }
        if rest.contains(address) {
            let k = choose|k: int| 0 <= k < rest.len() && rest[k] == address;
            assert(list[k] == address);
        }
    }
}

/// Each TPU function has a device number, and they are numbered in the order of their
/// addresses.
pub proof fn law_devices_are_numbered_by_address(
    functions: Seq<PciFunction>,
    a: Seq<char>,
    b: Seq<char>,
)
    requires
        tpu_addresses(functions).contains(a),
        tpu_addresses(functions).contains(b),
        no_later(a, b),
        a != b,
    ensures
        ({
            let sorted = in_code_order(tpu_addresses(functions));
            match (position(sorted, a), position(sorted, b)) {
                (Some(i), Some(j)) => 0 <= i < j < sorted.len(),
                _ => false,
            }
        }),
{
    let sorted = in_code_order(tpu_addresses(functions));
    law_order_keeps_strings(tpu_addresses(functions));
    lemma_position(sorted, a);
    lemma_position(sorted, b);
    let i = position(sorted, a)->0;
    let j = position(sorted, b)->0;
    if j < i {
        lemma_code_order_total();
        assert(code_order()(sorted[j], sorted[i]));
        assert(code_order()(a, b));
    }
}

/// Whether `address` is in a group named `id`.
pub open spec fn in_group(groups: Seq<IommuGroup>, id: Seq<char>, address: Seq<char>) -> bool {
    exists|g: int|
        0 <= g < groups.len() && (#[trigger] groups[g]).id@ == id && texts(
            groups[g].devices@,
        ).contains(address)
}

proof fn lemma_with_group(
    map: Map<Seq<char>, i64>,
    id: Seq<char>,
    devices: Seq<Seq<char>>,
    sorted: Seq<Seq<char>>,
)
    ensures
        ({
            let after = with_group(map, id, devices, sorted);
            &&& forall|other: Seq<char>|
                other != id ==> (#[trigger] after.contains_key(other) <==> map.contains_key(other))
                    && (map.contains_key(other) ==> after[other] == map[other])
            &&& (exists|d: int| 0 <= d < devices.len() && sorted.contains(#[trigger] devices[d]))
                ==> after.contains_key(id) && exists|d: int|
                0 <= d < devices.len() && position(sorted, #[trigger] devices[d]) is Some
                    && after[id] == (position(sorted, devices[d])->0) as i64
            &&& !(exists|d: int| 0 <= d < devices.len() && sorted.contains(#[trigger] devices[d]))
                ==> after == map
        }),
    decreases devices.len(),
{
    if devices.len() > 0 {
        let rest = devices.drop_last();
        lemma_with_group(map, id, rest, sorted);
        lemma_position(sorted, devices.last());
        let held = exists|d: int| 0 <= d < rest.len() && sorted.contains(#[trigger] rest[d]);
        if position(sorted, devices.last()) is Some {
            assert(sorted.contains(devices[devices.len() - 1]));
        } else if held {
            let d = choose|d: int|
                0 <= d < rest.len() && position(sorted, #[trigger] rest[d]) is Some && with_group(
                    map,
                    id,
                    rest,
                    sorted,
                )[id] == (position(sorted, rest[d])->0) as i64;
            assert(devices[d] == rest[d]);
        } else if exists|d: int| 0 <= d < devices.len() && sorted.contains(#[trigger] devices[d]) {
            let d = choose|d: int| 0 <= d < devices.len() && sorted.contains(#[trigger] devices[d]);
            assert(d < rest.len());
            assert(sorted.contains(rest[d]));
        }
        if held {
            let d = choose|d: int| 0 <= d < rest.len() && sorted.contains(#[trigger] rest[d]);
            assert(devices[d] == rest[d]);
        }
    }
}

/// A group holds a device exactly if one of its functions is a TPU's, and the device is
/// that of such a function.
pub proof fn law_group_holds_its_device(
    groups: Seq<IommuGroup>,
    sorted: Seq<Seq<char>>,
    id: Seq<char>,
)
    ensures
        ({
            let map = group_devices(groups, sorted);
            &&& map.contains_key(id) <==> exists|a: Seq<char>|
                sorted.contains(a) && #[trigger] in_group(groups, id, a)
            &&& map.contains_key(id) ==> exists|a: Seq<char>|
                #[trigger] in_group(groups, id, a) && position(sorted, a) is Some && map[id] == (
                position(sorted, a)->0) as i64
        }),
    decreases groups.len(),
{
    let map = group_devices(groups, sorted);
    if groups.len() > 0 {
        let rest = groups.drop_last();
        let last = groups.last();
        let devices = texts(last.devices@);
        let before = group_devices(rest, sorted);
        law_group_holds_its_device(rest, sorted, id);
        lemma_with_group(before, last.id@, devices, sorted);
        assert forall|a: Seq<char>| #[trigger] in_group(rest, id, a) implies in_group(
            groups,
            id,
            a,
        ) by {
            let g = choose|g: int|
                0 <= g < rest.len() && (#[trigger] rest[g]).id@ == id && texts(
                    rest[g].devices@,
                ).contains(a);
            assert(groups[g] == rest[g]);
        }
        assert forall|a: Seq<char>| #[trigger] in_group(groups, id, a) implies in_group(
            rest,
            id,
            a,
        ) || (last.id@ == id && devices.contains(a)) by {
            let g = choose|g: int|
                0 <= g < groups.len() && (#[trigger] groups[g]).id@ == id && texts(
                    groups[g].devices@,
                ).contains(a);
            if g < rest.len() {
                assert(rest[g] == groups[g]);
            }
        }
        assert forall|d: int| 0 <= d < devices.len() && last.id@ == id implies in_group(
            groups,
            id,
            #[trigger] devices[d],
        ) by {
            assert(groups[groups.len() - 1] == last);
            assert(devices.contains(devices[d]));
        }
        let held = exists|d: int| 0 <= d < devices.len() && sorted.contains(#[trigger] devices[d]);
        if last.id@ == id && held {
            let d = choose|d: int|
                0 <= d < devices.len() && position(sorted, #[trigger] devices[d]) is Some
                    && map[id] == (position(sorted, devices[d])->0) as i64;
            lemma_position(sorted, devices[d]);
            assert(in_group(groups, id, devices[d]));
        } else {
            assert(map.contains_key(id) == before.contains_key(id));
            assert(before.contains_key(id) ==> map[id] == before[id]);
            if before.contains_key(id) {
                let a = choose|a: Seq<char>| sorted.contains(a) && #[trigger] in_group(rest, id, a);
                assert(in_group(groups, id, a));
                let b = choose|b: Seq<char>|
                    #[trigger] in_group(rest, id, b) && position(sorted, b) is Some && before[id]
                        == (position(sorted, b)->0) as i64;
                assert(in_group(groups, id, b));
            }
            if exists|a: Seq<char>| sorted.contains(a) && #[trigger] in_group(groups, id, a) {
                let a = choose|a: Seq<char>| sorted.contains(a) && #[trigger] in_group(groups, id, a);
                if !in_group(rest, id, a) {
                    let d = choose|d: int| 0 <= d < devices.len() && devices[d] == a;
                    assert(sorted.contains(devices[d]));
                }
            }
        }
    }
}

} // verus!
