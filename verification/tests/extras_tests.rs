use device_status::extras::{
    detect_usb_extras, disk_letters, usb_disk_indices, AssocRow, DiskDriveRow, PhysicalDiskRow,
    PnpEntityRow, UsbInventory,
};

fn s(x: &str) -> Option<String> {
    Some(x.to_string())
}

fn assoc(a: &str, d: &str) -> AssocRow {
    AssocRow { antecedent: a.to_string(), dependent: d.to_string() }
}

fn phone(name: Option<&str>, device_id: Option<&str>, class: Option<&str>) -> PnpEntityRow {
    PnpEntityRow {
        name: name.map(|x| x.to_string()),
        device_id: device_id.map(|x| x.to_string()),
        pnp_class: class.map(|x| x.to_string()),
    }
}

const SANDISK_PNP: &str = "USBSTOR\\Disk&Ven_SanDisk&Prod_Ultra&Rev_1.00\\4C530001230123456789&0";

fn sandisk(index: i32) -> DiskDriveRow {
    DiskDriveRow {
        model: s("SanDisk Ultra USB Device"),
        size_label: s("28.6 GB"),
        media_type: s("Removable Media"),
        index: Some(index),
        interface_type: s("USB"),
        pnp_device_id: s(SANDISK_PNP),
    }
}

fn letters_for_disk1() -> (Vec<AssocRow>, Vec<AssocRow>) {
    let parts = vec![assoc(
        "\\\\PC\\root\\cimv2:Win32_DiskDrive.DeviceID=\"\\\\\\\\.\\\\PHYSICALDRIVE1\"",
        "\\\\PC\\root\\cimv2:Win32_DiskPartition.DeviceID=\"Disk #1, Partition #0\"",
    )];
    let logical = vec![assoc(
        "\\\\PC\\root\\cimv2:Win32_DiskPartition.DeviceID=\"Disk #1, Partition #0\"",
        "\\\\PC\\root\\cimv2:Win32_LogicalDisk.DeviceID=\"E:\"",
    )];
    (parts, logical)
}

#[test]
fn usb_bus_disks_are_collected() {
    let rows = vec![
        PhysicalDiskRow { device_id: s(" 2 "), bus_type: Some(7) },
        PhysicalDiskRow { device_id: s("0"), bus_type: Some(11) },
        PhysicalDiskRow { device_id: s("x"), bus_type: Some(7) },
        PhysicalDiskRow { device_id: None, bus_type: Some(7) },
        PhysicalDiskRow { device_id: s("5"), bus_type: None },
        PhysicalDiskRow { device_id: s("+4"), bus_type: Some(7) },
    ];
    let set = usb_disk_indices(&rows);
    assert_eq!(set.len(), 2);
    assert!(set.contains(&2));
    assert!(set.contains(&4));
}

#[test]
fn drive_letters_join_the_two_tables() {
    let (parts, logical) = letters_for_disk1();
    let m = disk_letters(&parts, &logical);
    assert_eq!(m.len(), 1);
    assert_eq!(m.get(&1).map(|x| x.as_str()), Some("E:"));
}

#[test]
fn unknown_partitions_give_no_letter() {
    let (parts, _) = letters_for_disk1();
    let logical = vec![assoc(
        "Win32_DiskPartition.DeviceID=\"Disk #9, Partition #0\"",
        "Win32_LogicalDisk.DeviceID=\"F:\"",
    )];
    assert!(disk_letters(&parts, &logical).is_empty());
    assert!(disk_letters(&Vec::new(), &Vec::new()).is_empty());
}

fn inventory(disks: Vec<DiskDriveRow>, phones: Vec<PnpEntityRow>) -> UsbInventory {
    let (parts, logical) = letters_for_disk1();
    UsbInventory {
        physical_disks: vec![PhysicalDiskRow { device_id: s("1"), bus_type: Some(7) }],
        disks,
        disk_partitions: parts,
        partition_letters: logical,
        phones,
    }
}

#[test]
fn usb_drive_is_listed_with_its_letter() {
    let internal = DiskDriveRow {
        model: s("Samsung SSD"),
        size_label: s("476.9 GB"),
        media_type: s("Fixed hard disk media"),
        index: Some(0),
        interface_type: s("SCSI"),
        pnp_device_id: s("SCSI\\DISK&VEN_NVME\\5&1"),
    };
    let out = detect_usb_extras(&inventory(vec![internal, sandisk(1)], Vec::new()));
    assert_eq!(out.len(), 1);
    assert_eq!(out[0].port, "E:");
    assert_eq!(out[0].name, "SanDisk Ultra USB Device");
    assert_eq!(out[0].icon, "\u{f129f}");
    assert_eq!(out[0].color, "#94e2d5");
    assert_eq!(out[0].vid, "28.6 GB");
    assert_eq!(out[0].pid, "USB");
    assert_eq!(out[0].manufacturer, "?");
    assert_eq!(out[0].description, "Removable Media");
}

#[test]
fn usb_drive_by_pnp_id_only() {
    let disk = DiskDriveRow {
        model: None,
        size_label: None,
        media_type: None,
        index: Some(3),
        interface_type: None,
        pnp_device_id: s("usbstor\\disk&x\\ABCDEF&0"),
    };
    let out = detect_usb_extras(&inventory(vec![disk], Vec::new()));
    assert_eq!(out.len(), 1);
    assert_eq!(out[0].port, "?");
    assert_eq!(out[0].name, "USB Drive");
    assert_eq!(out[0].vid, "?");
    assert_eq!(out[0].description, "?");
    assert_eq!(out[0].icon, "\u{f02ca}");
    assert_eq!(out[0].color, "#fab387");
}

#[test]
fn wpd_wrapper_is_merged_into_its_drive() {
    let wpd = "SWD\\WPDBUSENUM\\_??_USBSTOR#DISK&VEN_SANDISK&PROD_ULTRA&REV_1.00#4C530001230123456789&0#{53F56307-B6BF-11D0-94F2-00A0C91EFB8B}";
    let out = detect_usb_extras(&inventory(vec![sandisk(1)], vec![phone(Some("My Stick"), Some(wpd), Some("WPD"))]));
    assert_eq!(out.len(), 1);
    assert_eq!(out[0].name, "My Stick");
    assert_eq!(out[0].port, "E:");
}

#[test]
fn serial_match_is_merged() {
    let id = "USB\\VID_0781&PID_5581\\4C530001230123456789";
    let out = detect_usb_extras(&inventory(vec![sandisk(1)], vec![phone(Some("Cruzer"), Some(id), Some("WPD"))]));
    assert_eq!(out.len(), 1);
    assert_eq!(out[0].name, "Cruzer");
}

#[test]
fn letter_named_entry_is_merged_without_renaming() {
    let out = detect_usb_extras(&inventory(vec![sandisk(1)], vec![phone(Some(" e:\\ "), Some("SWD\\WPDBUSENUM\\{X}"), Some("WPD"))]));
    assert_eq!(out.len(), 1);
    assert_eq!(out[0].name, "SanDisk Ultra USB Device");
}

#[test]
fn model_named_entry_is_merged() {
    let out = detect_usb_extras(&inventory(vec![sandisk(1)], vec![phone(Some("  SANDISK ULTRA USB DEVICE "), Some("SWD\\WPDBUSENUM\\{Y}"), Some("WPD"))]));
    assert_eq!(out.len(), 1);
    assert_eq!(out[0].name, "  SANDISK ULTRA USB DEVICE ");
}

#[test]
fn generic_name_is_merged_into_the_last_drive() {
    let out = detect_usb_extras(&inventory(vec![sandisk(1)], vec![phone(Some(" Android "), Some("SWD\\WPDBUSENUM\\{Z}"), Some("WPD"))]));
    assert_eq!(out.len(), 1);
    assert_eq!(out[0].name, " Android ");
}

#[test]
fn generic_name_with_nothing_listed_is_a_phone() {
    let out = detect_usb_extras(&inventory(Vec::new(), vec![phone(Some("iPhone"), Some("USB\\VID_05AC&PID_12A8\\00008030"), Some("AppleUSB"))]));
    assert_eq!(out.len(), 1);
    assert_eq!(out[0].port, "");
    assert_eq!(out[0].name, "iPhone");
    assert_eq!(out[0].icon, "\u{f179}");
    assert_eq!(out[0].color, "#f38ba8");
    assert_eq!(out[0].vid, "05AC");
    assert_eq!(out[0].pid, "12A8");
    assert_eq!(out[0].manufacturer, "?");
    assert_eq!(out[0].description, "AppleUSB");
}

#[test]
fn unmatched_phone_is_listed_after_the_drives() {
    let out = detect_usb_extras(&inventory(
        vec![sandisk(1)],
        vec![phone(Some("Pixel 7"), Some("USB\\VID_18D1&PID_4EE1\\28101FDH2000ZZ"), Some("WPD"))],
    ));
    assert_eq!(out.len(), 2);
    assert_eq!(out[0].name, "SanDisk Ultra USB Device");
    assert_eq!(out[1].name, "Pixel 7");
    assert_eq!(out[1].icon, "\u{e70e}");
    assert_eq!(out[1].color, "#a6e3a1");
    assert_eq!(out[1].vid, "18D1");
    assert_eq!(out[1].pid, "4EE1");
    assert_eq!(out[1].description, "WPD");
}

#[test]
fn phone_without_name_or_id() {
    let out = detect_usb_extras(&inventory(Vec::new(), vec![phone(None, None, None)]));
    assert_eq!(out.len(), 1);
    assert_eq!(out[0].name, "Unknown device");
    assert_eq!(out[0].vid, "?");
    assert_eq!(out[0].pid, "?");
    assert_eq!(out[0].description, "?");
}

#[test]
fn nothing_found() {
    let inv = UsbInventory {
        physical_disks: Vec::new(),
        disks: Vec::new(),
        disk_partitions: Vec::new(),
        partition_letters: Vec::new(),
        phones: Vec::new(),
    };
    assert!(detect_usb_extras(&inv).is_empty());
}

#[test]
fn generic_name_without_a_drive_is_listed() {
    let out = detect_usb_extras(&inventory(
        Vec::new(),
        vec![
            phone(Some("Pixel 7"), Some("USB\\VID_18D1&PID_4EE1\\28101FDH2000ZZ"), Some("WPD")),
            phone(Some("android"), Some("SWD\\WPDBUSENUM\\{G}"), Some("WPD")),
        ],
    ));
    assert_eq!(out.len(), 2);
    assert_eq!(out[0].name, "Pixel 7");
    assert_eq!(out[1].name, "android");
}

#[test]
fn generic_name_merges_into_a_drive_not_a_phone() {
    let out = detect_usb_extras(&inventory(
        vec![sandisk(1)],
        vec![
            phone(Some("Pixel 7"), Some("USB\\VID_18D1&PID_4EE1\\28101FDH2000ZZ"), Some("WPD")),
            phone(Some("ANDROID"), Some("SWD\\WPDBUSENUM\\{G}"), Some("WPD")),
        ],
    ));
    assert_eq!(out.len(), 2);
    assert_eq!(out[0].name, "ANDROID");
    assert_eq!(out[0].port, "E:");
    assert_eq!(out[1].name, "Pixel 7");
}
