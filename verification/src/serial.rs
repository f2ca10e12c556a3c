//! USB serial ports: how each one is named and shown.

use std::collections::HashMap;
use vstd::prelude::*;
use crate::boards::{BoardInfo, DEFAULT_COLOR, DEFAULT_ICON, board_key, boards, known_boards, spec_board_key};
use crate::device::{DeviceInfo, DeviceSpec, device_views, opt_string_view, or_default, string_or};
use crate::text::{chars_of, ends_with, ends_with_chars, hex4, hex4_upper, is_ws, string_of, sub_chars, trim_end, trim_end_chars};

verus! {

broadcast use vstd::std_specs::hash::group_hash_axioms;

// ---------------------------------------------------------------------------
// Names
// ---------------------------------------------------------------------------

/// The `(<port>)` that some driver stacks append to a product name.
pub open spec fn port_suffix(port: Seq<char>) -> Seq<char> {
    seq!['('] + port + seq![')']
}

/// `t` with every trailing `(<port>)` removed, one after the other, each
/// together with the whitespace before it.
pub open spec fn strip_port_suffixes(t: Seq<char>, port: Seq<char>) -> Seq<char>
    decreases t.len(),
{
    let suffix = port_suffix(port);
    if ends_with(t, suffix) {
        let head = t.take(t.len() - suffix.len());
        proof {
            lemma_trim_end_prefix(head);
        }
        strip_port_suffixes(trim_end(head), port)
    } else {
        t
    }
}

/// `name` without trailing whitespace and without any `(<port>)` at its end:
/// the suffix is removed, with the whitespace before it, for as long as the
/// name still ends with it.
pub open spec fn spec_strip_trailing_port(name: Seq<char>, port: Seq<char>) -> Seq<char> {
    strip_port_suffixes(trim_end(name), port)
}

/// Some Windows USB driver stacks (notably CH340/CH343-based Arduino clones)
/// return a `product` string from the descriptor that already has the COM
/// port baked in, e.g. `"Arduino Mega 2560 (COM6)"`. Since the display label
/// appends `" ({port})"` itself, an unstripped name here causes the port to
/// show up twice. Strip it if present so the name is always port-free going
/// into `DeviceInfo`.
pub fn strip_trailing_port(name: &str, port: &str) -> (r: String)
    ensures
        r@ == spec_strip_trailing_port(name@, port@),
{
    let mut suffix: Vec<char> = Vec::new();
    suffix.push('(');
    let p = chars_of(port);
    let mut i: usize = 0;
    while i < p.len()
        invariant
            i <= p.len(),
            suffix@ == seq!['('] + p@.take(i as int),
        decreases p.len() - i,
    {
        suffix.push(p[i]);
        assert(p@.take(i + 1) =~= p@.take(i as int).push(p@[i as int]));
        i += 1;
    }
    suffix.push(')');
    assert(p@.take(p.len() as int) =~= p@);
    assert(suffix@ =~= port_suffix(port@));
    let n = chars_of(name);
    let mut t = trim_end_chars(&n);
    loop
        invariant
            suffix@ == port_suffix(port@),
            strip_port_suffixes(t@, port@) == spec_strip_trailing_port(name@, port@),
        decreases t@.len(),
    {
        if !ends_with_chars(&t, &suffix) {
            return string_of(&t);
        }
        let head = sub_chars(&t, 0, t.len() - suffix.len());
        assert(head@ =~= t@.take(t@.len() - suffix@.len()));
        proof {
            lemma_trim_end_prefix(head@);
        }
        t = trim_end_chars(&head);
    }
}

proof fn lemma_trim_end_fixed(s: Seq<char>)
    requires
        s.len() > 0,
        !is_ws(s.last()),
    ensures
        trim_end(s) == s,
{
}

/// Stripping sees through the label suffix: a name to which `" (<port>)"`
/// was appended strips to what the name itself strips to.
pub proof fn lemma_strip_undoes_label(name: Seq<char>, port: Seq<char>)
    ensures
        spec_strip_trailing_port(name + " ("@ + port + ")"@, port) == spec_strip_trailing_port(name, port),
{
    reveal_strlit(" (");
    reveal_strlit(")");
    let labelled = name + " ("@ + port + ")"@;
    let suffix = port_suffix(port);
    assert(labelled.last() == ')');
    lemma_trim_end_fixed(labelled);
    assert(labelled.skip(labelled.len() - suffix.len()) =~= suffix);
    let head = labelled.take(labelled.len() - suffix.len());
    assert(head =~= name.push(' '));
    assert(head.drop_last() =~= name);
    assert(trim_end(head) == trim_end(name));
}

/// Trimming the end leaves a prefix that does not end in whitespace.
pub proof fn lemma_trim_end_prefix(s: Seq<char>)
    ensures
        trim_end(s).len() <= s.len(),
        trim_end(s) == s.take(trim_end(s).len() as int),
        trim_end(s).len() > 0 ==> !is_ws(trim_end(s).last()),
    decreases s.len(),
{
    if s.len() > 0 && is_ws(s.last()) {
        lemma_trim_end_prefix(s.drop_last());
        assert(s.drop_last().take(trim_end(s).len() as int) =~= s.take(trim_end(s).len() as int));
    } else {
        assert(s.take(s.len() as int) =~= s);
    }
}

proof fn lemma_strip_suffixes_props(t: Seq<char>, port: Seq<char>)
    requires
        t.len() > 0 ==> !is_ws(t.last()),
    ensures
        ({
            let r = strip_port_suffixes(t, port);
            &&& r.len() <= t.len()
            &&& r == t.take(r.len() as int)
            &&& r.len() > 0 ==> !is_ws(r.last())
            &&& !ends_with(r, port_suffix(port))
        }),
    decreases t.len(),
{
    let suffix = port_suffix(port);
    if ends_with(t, suffix) {
        let head = t.take(t.len() - suffix.len());
        lemma_trim_end_prefix(head);
        let u = trim_end(head);
        lemma_strip_suffixes_props(u, port);
        let r = strip_port_suffixes(u, port);
        assert(r =~= t.take(r.len() as int));
    } else {
        assert(t.take(t.len() as int) =~= t);
    }
}

/// The stripped name is a prefix of the given name, does not end in
/// whitespace, and does not end in `(<port>)`: it is port-free.
pub proof fn lemma_strip_is_trimmed_prefix(name: Seq<char>, port: Seq<char>)
    ensures
        ({
            let r = spec_strip_trailing_port(name, port);
            &&& r.len() <= name.len()
            &&& r == name.take(r.len() as int)
            &&& r.len() > 0 ==> !is_ws(r.last())
            &&& !ends_with(r, port_suffix(port))
        }),
{
    let t = trim_end(name);
    lemma_trim_end_prefix(name);
    lemma_strip_suffixes_props(t, port);
    let r = spec_strip_trailing_port(name, port);
    assert(r =~= name.take(r.len() as int));
}

// ---------------------------------------------------------------------------
// Ports
// ---------------------------------------------------------------------------

/// What a USB serial port reports about the device behind it.
pub struct UsbPort {
    pub vid: u16,
    pub pid: u16,
    pub serial_number: Option<String>,
    pub manufacturer: Option<String>,
    pub product: Option<String>,
}

/// How a serial port is attached.
pub enum PortType {
    UsbPort(UsbPort),
    PciPort,
    BluetoothPort,
    Unknown,
}

/// A serial port as the operating system lists it.
pub struct SerialPortEntry {
    pub port_name: String,
    pub port_type: PortType,
}

/// The entry shown for a USB serial port: a known board's name, icon and
/// colour, or the product name (else "Unknown board") with the default icon
/// and colour; the name without a trailing `(<port>)`; the ids in
/// four-digit upper-case hex; "?" for a missing manufacturer or product.
pub open spec fn spec_serial_device(port_name: Seq<char>, usb: UsbPort) -> DeviceSpec {
    let key = spec_board_key(usb.vid, usb.pid);
    let known = known_boards().contains_key(key);
    let board = known_boards()[key];
    let raw_name = if known {
        board.name@
    } else {
        or_default(opt_string_view(usb.product), "Unknown board"@)
    };
    DeviceSpec {
        port: port_name,
        name: spec_strip_trailing_port(raw_name, port_name),
        icon: if known { board.icon@ } else { DEFAULT_ICON@ },
        color: if known { board.color@ } else { DEFAULT_COLOR@ },
        vid: hex4(usb.vid),
        pid: hex4(usb.pid),
        manufacturer: or_default(opt_string_view(usb.manufacturer), "?"@),
        description: or_default(opt_string_view(usb.product), "?"@),
    }
}

/// The entries shown for a list of serial ports: one per USB port, in order.
pub open spec fn spec_serial_devices(ports: Seq<SerialPortEntry>) -> Seq<DeviceSpec>
    decreases ports.len(),
{
    if ports.len() == 0 {
        Seq::empty()
    } else {
        let rest = spec_serial_devices(ports.drop_last());
        match ports.last().port_type {
            PortType::UsbPort(usb) => rest.push(spec_serial_device(ports.last().port_name@, usb)),
            _ => rest,
        }
    }
}

/// The entry shown for one USB serial port, looked up in `table`.
pub fn serial_device(table: &HashMap<u32, BoardInfo>, port_name: &String, usb: &UsbPort) -> (d: DeviceInfo)
    requires
        table@ == known_boards(),
    ensures
        d@ == spec_serial_device(port_name@, *usb),
{
    let known = table.get(&board_key(usb.vid, usb.pid));
    let raw_name = match known {
        Some(b) => b.name.to_owned(),
        None => string_or(&usb.product, "Unknown board"),
    };
    let name = strip_trailing_port(raw_name.as_str(), port_name.as_str());
    let icon = match known {
        Some(b) => b.icon.to_owned(),
        None => DEFAULT_ICON.to_owned(),
    };
    let color = match known {
        Some(b) => b.color.to_owned(),
        None => DEFAULT_COLOR.to_owned(),
    };
    DeviceInfo {
        port: port_name.clone(),
        name,
        icon,
        color,
        vid: hex4_upper(usb.vid),
        pid: hex4_upper(usb.pid),
        manufacturer: string_or(&usb.manufacturer, "?"),
        description: string_or(&usb.product, "?"),
    }
}

/// The entries shown for the serial ports that the system lists: one per
/// USB port, in the order listed.
pub fn resolve_serial_ports(ports: &Vec<SerialPortEntry>) -> (out: Vec<DeviceInfo>)
    ensures
        device_views(out@) == spec_serial_devices(ports@),
{
    let table = boards();
    let mut out: Vec<DeviceInfo> = Vec::new();
    let mut i: usize = 0;
    while i < ports.len()
        invariant
            i <= ports.len(),
            table@ == known_boards(),
            device_views(out@) == spec_serial_devices(ports@.take(i as int)),
        decreases ports.len() - i,
    {
        let p = &ports[i];
        assert(ports@.take(i + 1).drop_last() =~= ports@.take(i as int));
        assert(ports@.take(i + 1).last() == *p);
        match &p.port_type {
            PortType::UsbPort(usb) => {
                let d = serial_device(&table, &p.port_name, usb);
                let ghost before = out@;
                out.push(d);
                assert(device_views(out@) =~= device_views(before).push(d@));
            },
            _ => {},
        }
        i += 1;
    }
    assert(ports@.take(ports.len() as int) =~= ports@);
    out
}

} // verus!
