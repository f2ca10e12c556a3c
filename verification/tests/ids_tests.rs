use device_status::boards::{boards, board_key, drive_style, phone_style, DEFAULT_COLOR, DEFAULT_ICON};
use device_status::ids::{
    classify_drive, classify_phone, extract_device_id, extract_physical_drive_index, extract_serial,
    extract_vid_pid, serial_matches, wpd_wraps_disk,
};

#[test]
fn boards_lists_the_two_known_boards() {
    let m = boards();
    assert_eq!(m.len(), 2);
    let esp = m.get(&board_key(0x1A86, 0x55D3)).unwrap();
    assert_eq!(esp.name, "ESP32-S3");
    assert_eq!(esp.icon, "\u{ec19}");
    assert_eq!(esp.color, "#f9e2af");
    let uno = m.get(&board_key(0x2341, 0x0043)).unwrap();
    assert_eq!(uno.name, "Arduino Uno");
    assert_eq!(uno.icon, "\u{f2db}");
    assert_eq!(uno.color, "#89b4fa");
    assert!(m.get(&board_key(0x2341, 0x0042)).is_none());
}

#[test]
fn board_keys_are_distinct() {
    assert_eq!(board_key(0x1A86, 0x55D3), 0x1A86_55D3);
    assert_ne!(board_key(1, 0), board_key(0, 1));
    assert_eq!(board_key(0xFFFF, 0xFFFF), 0xFFFF_FFFF);
}

#[test]
fn styles_of_each_kind() {
    assert_eq!(phone_style("iphone"), ("\u{f179}", "#f38ba8"));
    assert_eq!(phone_style("android"), ("\u{e70e}", "#a6e3a1"));
    assert_eq!(phone_style("IPHONE"), ("\u{e70e}", "#a6e3a1"));
    assert_eq!(drive_style("usb_drive"), ("\u{f129f}", "#94e2d5"));
    assert_eq!(drive_style("external_hdd"), ("\u{f02ca}", "#fab387"));
    assert_eq!(DEFAULT_ICON, "\u{f2db}");
    assert_eq!(DEFAULT_COLOR, "#cdd6f4");
}

#[test]
fn phone_kind_from_name_and_class() {
    assert_eq!(classify_phone("Apple iPhone", None), "iphone");
    assert_eq!(classify_phone("IPHONE 15", Some("WPD")), "iphone");
    assert_eq!(classify_phone("APPLE device", None), "iphone");
    assert_eq!(classify_phone("Galaxy S21", Some("AppleUSB")), "iphone");
    assert_eq!(classify_phone("Galaxy S21", Some("appleusb")), "android");
    assert_eq!(classify_phone("Pixel 7", Some("WPD")), "android");
    assert_eq!(classify_phone("", None), "android");
}

#[test]
fn drive_kind_from_media_type() {
    assert_eq!(classify_drive(Some("Removable Media")), "usb_drive");
    assert_eq!(classify_drive(Some("REMOVABLE")), "usb_drive");
    assert_eq!(classify_drive(Some("Fixed hard disk media")), "external_hdd");
    assert_eq!(classify_drive(None), "external_hdd");
}

#[test]
fn vid_and_pid_from_instance_ids() {
    assert_eq!(
        extract_vid_pid("USB\\VID_04E8&PID_6860&MI_00\\6&1A2B3C&0&0000"),
        ("04E8".to_string(), "6860".to_string())
    );
    assert_eq!(extract_vid_pid("USB\\VID_1234\\SERIAL"), ("1234".to_string(), "?".to_string()));
    assert_eq!(extract_vid_pid("SWD\\WPDBUSENUM\\XYZ"), ("?".to_string(), "?".to_string()));
    // A part that does not start with VID_ is not read, even if it names ids.
    assert_eq!(extract_vid_pid("USB\\PID_1111&VID_2222"), ("?".to_string(), "?".to_string()));
    // The last segment carrying a tag wins.
    assert_eq!(
        extract_vid_pid("VID_0001&PID_0002\\VID_0003&PID_0004"),
        ("0003".to_string(), "0004".to_string())
    );
    assert_eq!(extract_vid_pid(""), ("?".to_string(), "?".to_string()));
}

#[test]
fn serial_from_instance_ids() {
    assert_eq!(
        extract_serial("USB\\VID_0781&PID_5581\\4C530001230123456789"),
        Some("4C530001230123456789".to_string())
    );
    assert_eq!(
        extract_serial("USBSTOR\\DISK&VEN_SANDISK&PROD_ULTRA&REV_1.00\\4c53000123&0"),
        Some("4C53000123".to_string())
    );
    assert_eq!(extract_serial("  abc  "), Some("ABC".to_string()));
    assert_eq!(extract_serial("USB\\VID_1\\"), None);
    assert_eq!(extract_serial("USB\\  &x"), None);
    assert_eq!(extract_serial(""), None);
}

#[test]
fn serial_matches_whole_tokens_only() {
    assert!(serial_matches("USB\\VID_1&PID_2\\ABC123", "ABC123"));
    assert!(serial_matches("ABC123&0", "ABC123"));
    assert!(!serial_matches("USB\\XABC123", "ABC123"));
    assert!(!serial_matches("USB\\ABC1234", "ABC123"));
    assert!(serial_matches("XABC123&ABC123", "ABC123"));
    assert!(!serial_matches("USB\\ABC12", "ABC12"));
    assert!(!serial_matches("", "ABC123"));
    assert!(serial_matches("ABC123", "ABC123"));
    // Six bytes but three characters: too short.
    assert!(!serial_matches("\u{c4}\u{d6}\u{dc}", "\u{c4}\u{d6}\u{dc}"));
    assert!(serial_matches("\u{c4}\u{d6}\u{dc}\u{c4}\u{d6}\u{dc}", "\u{c4}\u{d6}\u{dc}\u{c4}\u{d6}\u{dc}"));
}

#[test]
fn serial_with_non_ascii_start_after_a_loose_hit() {
    assert!(serial_matches("X\u{c9}T\u{c9}123&\u{c9}T\u{c9}123", "\u{c9}T\u{c9}123"));
    assert!(!serial_matches("X\u{c9}T\u{c9}123", "\u{c9}T\u{c9}123"));
    assert!(serial_matches("\\\u{c9}T\u{c9}123", "\u{c9}T\u{c9}123"));
}

#[test]
fn wpd_wrapper_of_a_disk() {
    let wpd = "SWD\\WPDBUSENUM\\_??_USBSTOR#DISK&VEN_SANDISK&PROD_ULTRA&REV_1.00#4C53000123&0#{53F56307-B6BF-11D0-94F2-00A0C91EFB8B}";
    let disk = "USBSTOR\\Disk&Ven_SanDisk&Prod_Ultra&Rev_1.00\\4C53000123&0";
    assert!(wpd_wraps_disk(wpd, disk));
    assert!(!wpd_wraps_disk("USB\\VID_1", disk));
    assert!(!wpd_wraps_disk(wpd, ""));
    assert!(!wpd_wraps_disk(wpd, "USBSTOR\\OTHER"));
    // The wrapped id must be followed by `#{`: a longer id does not count.
    assert!(!wpd_wraps_disk(
        "SWD\\WPDBUSENUM\\_??_USBSTOR#DISK#ABC1#{53F56307-B6BF-11D0-94F2-00A0C91EFB8B}",
        "USBSTOR\\DISK\\ABC"
    ));
    assert!(wpd_wraps_disk(
        "SWD\\WPDBUSENUM\\_??_USBSTOR#DISK#ABC#{53F56307-B6BF-11D0-94F2-00A0C91EFB8B}",
        "usbstor\\disk\\abc"
    ));
    // The id must come right after the prefix.
    assert!(!wpd_wraps_disk("SWD\\WPDBUSENUM\\_??_X#USBSTOR#DISK#ABC#{G}", "USBSTOR\\DISK\\ABC"));
}

#[test]
fn device_ids_from_wmi_references() {
    assert_eq!(
        extract_device_id("\\\\HOST\\root\\cimv2:Win32_DiskDrive.DeviceID=\"\\\\\\\\.\\\\PHYSICALDRIVE1\""),
        Some("\\\\.\\PHYSICALDRIVE1".to_string())
    );
    assert_eq!(
        extract_device_id("Win32_DiskPartition.DeviceID=\"Disk #1, Partition #0\""),
        Some("Disk #1, Partition #0".to_string())
    );
    assert_eq!(extract_device_id("Win32_LogicalDisk.Name=\"E:\""), None);
    assert_eq!(extract_device_id("Win32_LogicalDisk.DeviceID=\"E:"), None);
    assert_eq!(extract_device_id("Win32_LogicalDisk.DeviceID=\"\""), Some(String::new()));
}

#[test]
fn physical_drive_numbers() {
    assert_eq!(extract_physical_drive_index("\\\\.\\PHYSICALDRIVE1"), Some(1));
    assert_eq!(extract_physical_drive_index("\\\\.\\PhysicalDrive12"), Some(12));
    assert_eq!(extract_physical_drive_index("\\\\.\\PHYSICALDRIVE"), None);
    assert_eq!(extract_physical_drive_index("3"), Some(3));
    assert_eq!(extract_physical_drive_index("-3"), Some(-3));
    assert_eq!(extract_physical_drive_index("Disk #1"), None);
    assert_eq!(extract_physical_drive_index("PHYSICALDRIVE2147483647"), Some(2147483647));
    assert_eq!(extract_physical_drive_index("PHYSICALDRIVE2147483648"), None);
    assert_eq!(extract_physical_drive_index("PHYSICALDRIVE-2147483648"), Some(-2147483648));
    assert_eq!(extract_physical_drive_index("PHYSICALDRIVE+7"), Some(7));
    assert_eq!(extract_physical_drive_index("PHYSICALDRIVE+"), None);
}
