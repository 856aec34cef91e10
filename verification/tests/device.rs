use std::collections::BTreeMap;

use tpu_monitor::device::{
    chip_from_ids, chip_owners, cmdline, detect, tpu_pci_sorted, vfio_group_to_device, IommuGroup,
    PciFunction, ProcFds,
};

fn function(address: &str, vendor: &str, device: &str, subsystem: &str) -> PciFunction {
    PciFunction {
        address: address.to_string(),
        vendor: vendor.to_string(),
        device: device.to_string(),
        subsystem: subsystem.to_string(),
    }
}

fn group(id: &str, devices: &[&str]) -> IommuGroup {
    IommuGroup { id: id.to_string(), devices: devices.iter().map(|d| d.to_string()).collect() }
}

fn process(name: &str, targets: &[&str]) -> ProcFds {
    ProcFds { name: name.to_string(), targets: targets.iter().map(|t| t.to_string()).collect() }
}

fn machine() -> Vec<PciFunction> {
    vec![
        function("0000:00:05.0", "0x1ae0\n", "0x0076\n", "0x0000\n"),
        function("0000:00:03.0", "0x8086\n", "0x0076\n", "0x0000\n"),
        function("0000:00:04.0", "0x1ae0\n", "0x0076\n", "0x0000\n"),
        function("0000:00:02.0", "0x1ae0\n", "0x1234\n", "0x0000\n"),
        function("0000:00:07.0", "0x1ae0\n", "0x0076\n", "0x0000\n"),
        function("0000:00:06.0", "0x1ae0\n", "0x0076\n", ""),
    ]
}

#[test]
fn chips_are_told_apart_by_their_ids() {
    let table = [
        ("0x0027", "0x004e", Some(("v2", 8, 2))),
        ("0x0027", "0x004f", Some(("v3", 16, 2))),
        ("0x0027", "0x0050", None),
        ("0x005e", "", Some(("v4", 32, 1))),
        ("0x0063", "", Some(("v5e", 16, 1))),
        ("0x0062", "", Some(("v5p", 95, 1))),
        ("0x006f", "", Some(("v6e", 32, 1))),
        ("0x0076", "", Some(("7x", 192, 2))),
        ("0x0077", "", None),
        ("", "", None),
    ];
    for (device, subsystem, wanted) in table {
        let found = chip_from_ids(device, subsystem);
        assert_eq!(found.map(|c| (c.name, c.hbm_gib, c.devices_per_chip)), wanted);
    }
}

#[test]
fn cores_are_counted_and_make_chips() {
    let info = detect(&machine());
    assert_eq!(info.chip.unwrap().name, "7x");
    assert_eq!(info.cores, 4);
    assert_eq!(info.chips, 2);

    let lone = detect(&vec![function("a", " 0x1ae0 ", "0x006f", "")]);
    assert_eq!(lone.chip.unwrap().name, "v6e");
    assert_eq!((lone.chips, lone.cores), (1, 1));

    let none = detect(&vec![]);
    assert!(none.chip.is_none());
    assert_eq!((none.chips, none.cores), (0, 0));
}

#[test]
fn the_last_kind_found_counts() {
    let info = detect(&vec![
        function("a", "0x1ae0", "0x0076", ""),
        function("b", "0x1ae0", "0x006f", ""),
        function("c", "0x1ae0", "0x9999", ""),
    ]);
    assert_eq!(info.chip.unwrap().name, "v6e");
    assert_eq!((info.chips, info.cores), (2, 2));
}

#[test]
fn devices_are_numbered_by_address() {
    assert_eq!(
        tpu_pci_sorted(&machine()),
        ["0000:00:04.0", "0000:00:05.0", "0000:00:06.0", "0000:00:07.0"]
    );
}

#[test]
fn the_first_process_with_a_device_open_owns_it() {
    let groups = vec![
        group("12", &["0000:00:05.0"]),
        group("7", &["0000:00:03.0", "0000:00:04.0"]),
        group("3", &["0000:00:03.0"]),
        group("9", &["0000:00:06.0", "0000:00:07.0"]),
    ];
    let map = vfio_group_to_device(&machine(), &groups);
    assert!(!map.is_empty());
    let procs = vec![
        process("self", &["/dev/vfio/7"]),
        process("100", &["/dev/null", "/dev/vfio/12", "/dev/vfio/vfio"]),
        process("200", &["/dev/vfio/12", "/dev/vfio/7", "/dev/vfio/3"]),
        process("300", &["/x/dev/vfio/9", "/dev/vfio/9", "/dev/vfio/"]),
    ];
    let wanted: BTreeMap<i64, i32> = [(1, 100), (0, 200), (3, 300)].into_iter().collect();
    assert_eq!(chip_owners(&map, &procs), wanted);
}

#[test]
fn nothing_is_owned_where_the_groups_are_unknown() {
    let map = vfio_group_to_device(&machine(), &vec![]);
    assert!(map.is_empty());
    assert!(chip_owners(&map, &vec![process("1", &["/dev/vfio/7"])]).is_empty());
    let elsewhere = vfio_group_to_device(&machine(), &vec![group("1", &["0000:00:03.0"])]);
    assert!(elsewhere.is_empty());
}

#[test]
fn command_lines_are_joined_with_spaces() {
    assert_eq!(cmdline(&b"python\0train.py\0\0--x=1\0".to_vec()).unwrap(), "python train.py --x=1");
    assert_eq!(cmdline(&b"a b".to_vec()).unwrap(), "a b");
    assert_eq!(cmdline(&b"".to_vec()), None);
    assert_eq!(cmdline(&b"\0\0".to_vec()), None);
}

#[test]
fn ill_formed_arguments_are_replaced() {
    assert_eq!(cmdline(&vec![b'a', 0xff, 0, 0xc3, 0xa9]).unwrap(), "a\u{fffd} é");
}
