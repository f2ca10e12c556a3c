use device_status::cache::{cache_is_fresh, extras_source, ExtrasSource, EXTRAS_INTERVAL_SECONDS};
use device_status::device::DeviceInfo;
use device_status::output::{label, render_output};
use device_status::serial::{resolve_serial_ports, strip_trailing_port, PortType, SerialPortEntry, UsbPort};
use device_status::text::hex4_upper;

fn usb(vid: u16, pid: u16, manufacturer: Option<&str>, product: Option<&str>) -> PortType {
    PortType::UsbPort(UsbPort {
        vid,
        pid,
        serial_number: None,
        manufacturer: manufacturer.map(|s| s.to_string()),
        product: product.map(|s| s.to_string()),
    })
}

fn device(port: &str, name: &str) -> DeviceInfo {
    DeviceInfo {
        port: port.to_string(),
        name: name.to_string(),
        icon: "I".to_string(),
        color: "#000000".to_string(),
        vid: "1A86".to_string(),
        pid: "55D3".to_string(),
        manufacturer: "WCH".to_string(),
        description: "USB Single Serial".to_string(),
    }
}

#[test]
fn strip_trailing_port_removes_baked_in_port() {
    assert_eq!(strip_trailing_port("Arduino Mega 2560 (COM6)", "COM6"), "Arduino Mega 2560");
    assert_eq!(strip_trailing_port("Arduino Mega 2560 (COM6)  ", "COM6"), "Arduino Mega 2560");
    assert_eq!(strip_trailing_port("Arduino Mega 2560(COM6)", "COM6"), "Arduino Mega 2560");
    assert_eq!(strip_trailing_port("Arduino Mega 2560 (COM7)", "COM6"), "Arduino Mega 2560 (COM7)");
    assert_eq!(strip_trailing_port("Board  ", "COM3"), "Board");
    assert_eq!(strip_trailing_port("X (COM6) (COM6)", "COM6"), "X");
    assert_eq!(strip_trailing_port("X (COM6)(COM6) \t", "COM6"), "X");
    assert_eq!(strip_trailing_port("X (COM6) (COM7)", "COM6"), "X (COM6) (COM7)");
    assert_eq!(strip_trailing_port("(COM6)", "COM6"), "");
    assert_eq!(strip_trailing_port("", "COM6"), "");
}

#[test]
fn strip_undoes_the_label_suffix() {
    for name in ["Pico", "Pico  ", "", "Mega 2560 (COM6)", "Uno (COM9) "] {
        let labelled = format!("{} ({})", name, "COM9");
        let stripped = strip_trailing_port(&labelled, "COM9");
        assert_eq!(stripped, strip_trailing_port(name, "COM9"));
        assert!(!stripped.ends_with("(COM9)"));
    }
    assert_eq!(strip_trailing_port("Uno (COM9) (COM9)", "COM9"), "Uno");
}

#[test]
fn hex_ids_are_four_upper_case_digits() {
    assert_eq!(hex4_upper(0x1A86), "1A86");
    assert_eq!(hex4_upper(0x0043), "0043");
    assert_eq!(hex4_upper(0x0abc), "0ABC");
    assert_eq!(hex4_upper(0), "0000");
    assert_eq!(hex4_upper(0xFFFF), "FFFF");
}

#[test]
fn serial_ports_known_unknown_and_skipped() {
    let ports = vec![
        SerialPortEntry { port_name: "COM3".to_string(), port_type: usb(0x1A86, 0x55D3, Some("WCH"), Some("USB Single Serial")) },
        SerialPortEntry { port_name: "COM1".to_string(), port_type: PortType::PciPort },
        SerialPortEntry { port_name: "COM6".to_string(), port_type: usb(0x2A03, 0x0042, None, Some("Arduino Mega 2560 (COM6)")) },
        SerialPortEntry { port_name: "COM7".to_string(), port_type: usb(0x0403, 0x6001, Some("FTDI"), None) },
        SerialPortEntry { port_name: "COM8".to_string(), port_type: PortType::BluetoothPort },
        SerialPortEntry { port_name: "COM9".to_string(), port_type: PortType::Unknown },
    ];
    let out = resolve_serial_ports(&ports);
    assert_eq!(out.len(), 3);

    assert_eq!(out[0].port, "COM3");
    assert_eq!(out[0].name, "ESP32-S3");
    assert_eq!(out[0].icon, "\u{ec19}");
    assert_eq!(out[0].color, "#f9e2af");
    assert_eq!(out[0].vid, "1A86");
    assert_eq!(out[0].pid, "55D3");
    assert_eq!(out[0].manufacturer, "WCH");
    assert_eq!(out[0].description, "USB Single Serial");

    assert_eq!(out[1].port, "COM6");
    assert_eq!(out[1].name, "Arduino Mega 2560");
    assert_eq!(out[1].icon, "\u{f2db}");
    assert_eq!(out[1].color, "#cdd6f4");
    assert_eq!(out[1].vid, "2A03");
    assert_eq!(out[1].pid, "0042");
    assert_eq!(out[1].manufacturer, "?");
    assert_eq!(out[1].description, "Arduino Mega 2560 (COM6)");

    assert_eq!(out[2].name, "Unknown board");
    assert_eq!(out[2].manufacturer, "FTDI");
    assert_eq!(out[2].description, "?");
    assert_eq!(out[2].vid, "0403");
}

#[test]
fn no_ports_no_devices() {
    assert!(resolve_serial_ports(&Vec::new()).is_empty());
}

#[test]
fn port_is_shown_once_in_the_label() {
    let ports = vec![SerialPortEntry {
        port_name: "COM6".to_string(),
        port_type: usb(0x2A03, 0x0042, None, Some("Arduino Mega 2560 (COM6)")),
    }];
    let out = resolve_serial_ports(&ports);
    assert_eq!(label(&out[0]), "Arduino Mega 2560 (COM6)");
}

#[test]
fn labels_with_and_without_port() {
    assert_eq!(label(&device("COM3", "ESP32-S3")), "ESP32-S3 (COM3)");
    assert_eq!(label(&device("", "Pixel 7")), "Pixel 7");
}

#[test]
fn output_for_no_device() {
    let out = render_output(&Vec::new());
    assert_eq!(out.compact, "No device");
    assert_eq!(out.count, 0);
    assert_eq!(out.tooltip, "No device detected");
}

#[test]
fn output_for_two_devices() {
    let devices = vec![device("COM3", "ESP32-S3"), device("", "Pixel 7")];
    let out = render_output(&devices);
    assert_eq!(out.count, 2);
    assert_eq!(
        out.compact,
        "<span style='color:#000000'>I ESP32-S3 (COM3)</span> \u{2022} <span style='color:#000000'>I Pixel 7</span>"
    );
    assert_eq!(
        out.tooltip,
        "ESP32-S3 (COM3)\n  Manufacturer : WCH\n  VID:PID   : 1A86:55D3\n  Description : USB Single Serial\n\nPixel 7\n  Manufacturer : WCH\n  VID:PID   : 1A86:55D3\n  Description : USB Single Serial"
    );
}

#[test]
fn output_for_one_device() {
    let out = render_output(&vec![device("E:", "Cruzer")]);
    assert_eq!(out.count, 1);
    assert_eq!(out.compact, "<span style='color:#000000'>I Cruzer (E:)</span>");
}

#[test]
fn cache_freshness() {
    assert_eq!(EXTRAS_INTERVAL_SECONDS, 10);
    assert!(cache_is_fresh(100, 95));
    assert!(cache_is_fresh(100, 91));
    assert!(!cache_is_fresh(100, 90));
    assert!(!cache_is_fresh(100, 0));
    assert!(cache_is_fresh(100, 200));
    assert!(cache_is_fresh(0, u64::MAX));
}

#[test]
fn cache_source_decision() {
    assert!(extras_source(100, Some(95)) == ExtrasSource::Cached);
    assert!(extras_source(100, Some(50)) == ExtrasSource::Fresh);
    assert!(extras_source(100, None) == ExtrasSource::Fresh);
}
