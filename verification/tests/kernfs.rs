use lib::fs::abi::LinuxUtsName;
use lib::fs::error::FsError;
use lib::kernfs::{
    bus_device_links, class_name, devtype, field_line, pci_modalias, pci_text_attributes, procfs_files,
    relative_from_sys_devices, sysfs_bus_device_plan, render_filesystems, render_uevent_file, render_uevent_message,
    render_uevent_seqnum, render_uptime, split_entry_path, sysfs_resource_plan, DeviceClass,
    PciDeviceIds, SysfsLink,
};

#[test]
fn class_names_and_devtypes() {
    assert_eq!(class_name(DeviceClass::Block), "block");
    assert_eq!(class_name(DeviceClass::Display), "graphics");
    assert_eq!(class_name(DeviceClass::Console), "tty");
    assert_eq!(class_name(DeviceClass::MessageBuffer), "misc");
    assert_eq!(devtype(DeviceClass::Block), "disk");
    assert_eq!(devtype(DeviceClass::Drm), "drm_minor");
    assert_eq!(devtype(DeviceClass::Misc), "device");
}

#[test]
fn relative_links_climb_out_of_the_device_directory() {
    assert_eq!(
        relative_from_sys_devices(b"virtual/tty/tty0", b"class/tty"),
        b"../../../../class/tty".to_vec()
    );
    assert_eq!(
        relative_from_sys_devices(b"//pci0000:00//0000:00:01.0/", b"///bus/pci"),
        b"../../../bus/pci".to_vec()
    );
    assert_eq!(relative_from_sys_devices(b"", b"x"), b"../x".to_vec());
}

#[test]
fn uevent_file_lists_the_device() {
    let text = render_uevent_file(
        DeviceClass::Console,
        b"tty0",
        b"/devices/virtual/tty/tty0",
        b"tty",
        4,
        0,
        &vec![b"/dev/tty0".to_vec()],
        &vec![b"FOO=1".to_vec(), b"BAR=2".to_vec()],
    );
    assert_eq!(
        String::from_utf8(text).unwrap(),
        "DEVPATH=/devices/virtual/tty/tty0\nSUBSYSTEM=tty\nMAJOR=4\nMINOR=0\nDEVNAME=/dev/tty0\nDEVTYPE=tty\nFOO=1\nBAR=2\n"
    );
    let nameless = render_uevent_file(DeviceClass::Misc, b"kmsg", b"/d", b"misc", 1, 11, &vec![], &vec![]);
    assert_eq!(
        String::from_utf8(nameless).unwrap(),
        "DEVPATH=/d\nSUBSYSTEM=misc\nMAJOR=1\nMINOR=11\nDEVNAME=kmsg\nDEVTYPE=device\n"
    );
}

#[test]
fn uevent_message_is_nul_separated() {
    let msg = render_uevent_message(
        b"add",
        DeviceClass::Block,
        b"vda",
        b"/devices/virtual/block/vda",
        b"block",
        254,
        16,
        &vec![],
        123,
        &vec![b"X=y".to_vec()],
    );
    let expected = "add@/devices/virtual/block/vda\0ACTION=add\0DEVPATH=/devices/virtual/block/vda\0SUBSYSTEM=block\0MAJOR=254\0MINOR=16\0DEVNAME=vda\0DEVTYPE=disk\0SEQNUM=123\0X=y\0";
    assert_eq!(msg, expected.as_bytes().to_vec());
}

#[test]
fn sysfs_plan_for_a_virtual_block_device() {
    let plan = sysfs_resource_plan(DeviceClass::Block, b"vda", 254, 0, &vec![], None, &vec![], 7);
    assert_eq!(plan.class_name, "block");
    assert_eq!(plan.device_path, b"virtual/block/vda".to_vec());
    assert_eq!(plan.devpath, b"/devices/virtual/block/vda".to_vec());
    assert_eq!(plan.dev_contents, b"254:0\n".to_vec());
    assert_eq!(plan.subsystem_link, b"../../../../class/block".to_vec());
    assert_eq!(plan.class_link_target, b"../../devices/virtual/block/vda".to_vec());
    assert_eq!(plan.dev_dir, "block");
    assert_eq!(plan.dev_link_name, b"254:0".to_vec());
    assert_eq!(plan.dev_link_target, b"../../devices/virtual/block/vda".to_vec());
    assert!(String::from_utf8(plan.uevent_contents.clone()).unwrap().starts_with("DEVPATH=/devices/virtual/block/vda\n"));
    let msg = String::from_utf8(plan.uevent_message).unwrap();
    assert!(msg.starts_with("add@/devices/virtual/block/vda\0ACTION=add\0"));
    assert!(msg.ends_with("SEQNUM=7\0"));
}

#[test]
fn sysfs_plan_uses_the_device_path_it_is_given() {
    let plan = sysfs_resource_plan(
        DeviceClass::Input,
        b"event0",
        13,
        64,
        &vec![b"/dev/input/event0".to_vec()],
        Some(b"platform/i8042/input0/event0".to_vec()),
        &vec![],
        1,
    );
    assert_eq!(plan.device_path, b"platform/i8042/input0/event0".to_vec());
    assert_eq!(plan.subsystem_link, b"../../../../../class/input".to_vec());
    assert_eq!(plan.dev_dir, "char");
    assert_eq!(plan.dev_link_name, b"13:64".to_vec());
}

#[test]
fn entry_paths_split_into_parent_and_name() {
    assert_eq!(split_entry_path(b"/bus/pci/devices/"), Ok((b"bus/pci".to_vec(), b"devices".to_vec())));
    assert_eq!(split_entry_path(b"kernel"), Ok((Vec::new(), b"kernel".to_vec())));
    assert_eq!(split_entry_path(b"//a//b"), Ok((b"a/".to_vec(), b"b".to_vec())));
    assert_eq!(split_entry_path(b"///"), Err(FsError::InvalidInput));
    assert_eq!(split_entry_path(b""), Err(FsError::InvalidInput));
}

#[test]
fn proc_filesystems_marks_nodev_types() {
    let text = render_filesystems(&vec![b"rootfs".to_vec(), b"proc".to_vec(), b"ext4".to_vec(), b"tmpfsx".to_vec()]);
    assert_eq!(String::from_utf8(text).unwrap(), "nodev\trootfs\nnodev\tproc\n\text4\n\ttmpfsx\n");
    assert!(render_filesystems(&vec![]).is_empty());
}

#[test]
fn uptime_and_seqnum_texts() {
    assert_eq!(render_uptime(12_345_678_901), b"12.34 0.00\n".to_vec());
    assert_eq!(render_uptime(5_000_000), b"0.00 0.00\n".to_vec());
    assert_eq!(render_uptime(1_090_000_000), b"1.09 0.00\n".to_vec());
    assert_eq!(render_uevent_seqnum(0), b"0\n".to_vec());
    assert_eq!(render_uevent_seqnum(18_446_744_073_709_551_615), b"18446744073709551615\n".to_vec());
}

#[test]
fn proc_files_of_this_kernel() {
    let uts = LinuxUtsName::linux_x86_64();
    let files = procfs_files(Some(b"console=ttyS0"), &vec![b"tmpfs".to_vec()], &uts);
    assert_eq!(files.cmdline, Some(b"console=ttyS0".to_vec()));
    assert_eq!(files.filesystems, b"nodev\ttmpfs\n".to_vec());
    assert_eq!(files.ostype, b"Linux\n".to_vec());
    assert_eq!(files.osrelease, b"6.12.0\n".to_vec());
    assert_eq!(files.version, b"#1 Aether\n".to_vec());
    assert_eq!(files.hostname, b"aether\n".to_vec());
    assert_eq!(files.domainname, b"localdomain\n".to_vec());
    assert!(procfs_files(None, &vec![], &uts).cmdline.is_none());
    let mut field = [0u8; 65];
    field.copy_from_slice(&[b'x'; 65]);
    assert_eq!(field_line(&field).len(), 66);
}

fn e1000() -> PciDeviceIds {
    PciDeviceIds {
        vendor_id: 0x8086,
        device_id: 0x100e,
        subsystem_vendor_id: None,
        subsystem_device_id: Some(0x1af4),
        class_code: 0x020000,
        class: 2,
        subclass: 0,
        prog_if: 0,
        revision: 3,
        irq_line: Some(11),
        is_bridge: false,
        secondary_bus: Some(1),
        subordinate_bus: Some(2),
    }
}

#[test]
fn pci_modalias_uses_upper_case_hex() {
    assert_eq!(
        String::from_utf8(pci_modalias(&e1000())).unwrap(),
        "pci:v00008086d0000100Esv00000000sd00001AF4bc02sc00i00\n"
    );
}

#[test]
fn pci_attributes_in_order() {
    let attrs = pci_text_attributes(&e1000());
    let got: Vec<(&str, String)> = attrs
        .iter()
        .map(|a| (a.name, String::from_utf8(a.contents.clone()).unwrap()))
        .collect();
    assert_eq!(
        got,
        vec![
            ("class", "0x020000\n".to_string()),
            ("vendor", "0x8086\n".to_string()),
            ("device", "0x100e\n".to_string()),
            ("revision", "0x03\n".to_string()),
            ("subsystem_vendor", "0x0000\n".to_string()),
            ("subsystem_device", "0x1af4\n".to_string()),
            ("irq", "11\n".to_string()),
            ("modalias", "pci:v00008086d0000100Esv00000000sd00001AF4bc02sc00i00\n".to_string()),
        ]
    );
    let mut bridge = e1000();
    bridge.is_bridge = true;
    bridge.irq_line = None;
    let attrs = pci_text_attributes(&bridge);
    assert_eq!(attrs.len(), 10);
    assert_eq!(attrs[6].contents, b"0\n".to_vec());
    assert_eq!(attrs[8].name, "secondary_bus_number");
    assert_eq!(attrs[8].contents, b"1\n".to_vec());
    assert_eq!(attrs[9].name, "subordinate_bus_number");
    bridge.secondary_bus = None;
    let attrs = pci_text_attributes(&bridge);
    assert_eq!(attrs.len(), 9);
    assert_eq!(attrs[8].name, "subordinate_bus_number");
}

#[test]
fn sysfs_link_holds_name_and_target() {
    let link = SysfsLink { name: b"driver".to_vec(), target: b"../../bus/pci/drivers/e1000".to_vec() };
    assert_eq!(link.name, b"driver".to_vec());
}

#[test]
fn bus_devices_link_both_ways() {
    let (subsystem, device_link) = bus_device_links(b"pci", b"pci0000:00/0000:00:01.0");
    assert_eq!(subsystem, b"../../../bus/pci".to_vec());
    assert_eq!(device_link, b"../../../devices/pci0000:00/0000:00:01.0".to_vec());
}

#[test]
fn bus_device_layout() {
    let plan = sysfs_bus_device_plan(b"pci", b"0000:00:01.0", b"pci0000:00/0000:00:01.0");
    assert_eq!(plan.bus_dir, b"bus/pci".to_vec());
    assert_eq!(plan.bus_devices_dir, b"bus/pci/devices".to_vec());
    assert_eq!(plan.bus_drivers_dir, b"bus/pci/drivers".to_vec());
    assert_eq!(plan.device_dir, b"devices/pci0000:00/0000:00:01.0".to_vec());
    assert_eq!(plan.subsystem_link, b"../../../bus/pci".to_vec());
    assert_eq!(plan.bus_link_name, b"0000:00:01.0".to_vec());
    assert_eq!(plan.bus_link_target, b"../../../devices/pci0000:00/0000:00:01.0".to_vec());
}
