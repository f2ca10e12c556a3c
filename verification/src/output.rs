//! The widget's output: a compact one-line summary, a device count and a
//! multi-line tooltip.

use vstd::prelude::*;
use crate::device::{DeviceInfo, DeviceSpec, device_views};
use crate::boards::{known_boards, spec_board_key};
use crate::device::opt_string_view;
use crate::serial::{UsbPort, lemma_strip_undoes_label, spec_serial_device, spec_strip_trailing_port};
use crate::text::append_str;

verus! {

/// What the widget prints.
pub struct Output {
    pub compact: String,
    pub count: usize,
    pub tooltip: String,
}

/// The items of `list` with `sep` between each two of them.
pub open spec fn seq_join(list: Seq<Seq<char>>, sep: Seq<char>) -> Seq<char>
    decreases list.len(),
{
    if list.len() == 0 {
        Seq::empty()
    } else if list.len() == 1 {
        list[0]
    } else {
        seq_join(list.drop_last(), sep) + sep + list.last()
    }
}

/// How a device is labelled: its name, followed by ` (<port>)` when it has a port.
pub open spec fn spec_label(d: DeviceSpec) -> Seq<char> {
    if d.port.len() == 0 {
        d.name
    } else {
        d.name + " ("@ + d.port + ")"@
    }
}

/// A device in the compact line: its label and icon in its colour.
pub open spec fn compact_item(d: DeviceSpec) -> Seq<char> {
    "<span style='color:"@ + d.color + "'>"@ + d.icon + " "@ + spec_label(d) + "</span>"@
}

/// A device in the tooltip: its label, then manufacturer, ids and description.
pub open spec fn tooltip_item(d: DeviceSpec) -> Seq<char> {
    spec_label(d) + "\n  Manufacturer : "@ + d.manufacturer + "\n  VID:PID   : "@ + d.vid + ":"@
        + d.pid + "\n  Description : "@ + d.description
}

/// The compact line for a non-empty list of devices, items separated by ` • `.
pub open spec fn spec_compact(ds: Seq<DeviceSpec>) -> Seq<char> {
    seq_join(ds.map_values(|d: DeviceSpec| compact_item(d)), " \u{2022} "@)
}

/// The tooltip for a non-empty list of devices, items separated by a blank line.
pub open spec fn spec_tooltip(ds: Seq<DeviceSpec>) -> Seq<char> {
    seq_join(ds.map_values(|d: DeviceSpec| tooltip_item(d)), "\n\n"@)
}

/// How a device is labelled.
pub fn label(d: &DeviceInfo) -> (r: String)
    ensures
        r@ == spec_label(d@),
{
    if d.port.as_str().is_empty() {
        d.name.clone()
    } else {
        let mut r = d.name.clone();
        append_str(&mut r, " (");
        append_str(&mut r, d.port.as_str());
        append_str(&mut r, ")");
        r
    }
}

fn compact_item_of(d: &DeviceInfo) -> (r: String)
    ensures
        r@ == compact_item(d@),
{
    let mut r = String::new();
    append_str(&mut r, "<span style='color:");
    append_str(&mut r, d.color.as_str());
    append_str(&mut r, "'>");
    append_str(&mut r, d.icon.as_str());
    append_str(&mut r, " ");
    let l = label(d);
    append_str(&mut r, l.as_str());
    append_str(&mut r, "</span>");
    assert(r@ =~= compact_item(d@));
    r
}

fn tooltip_item_of(d: &DeviceInfo) -> (r: String)
    ensures
        r@ == tooltip_item(d@),
{
    let mut r = label(d);
    append_str(&mut r, "\n  Manufacturer : ");
    append_str(&mut r, d.manufacturer.as_str());
    append_str(&mut r, "\n  VID:PID   : ");
    append_str(&mut r, d.vid.as_str());
    append_str(&mut r, ":");
    append_str(&mut r, d.pid.as_str());
    append_str(&mut r, "\n  Description : ");
    append_str(&mut r, d.description.as_str());
    assert(r@ =~= tooltip_item(d@));
    r
}

/// The output for a list of devices: "No device" when there is none;
/// otherwise every device in the compact line and in the tooltip, in order.
pub fn render_output(devices: &Vec<DeviceInfo>) -> (out: Output)
    ensures
        out.count == devices.len(),
        devices.len() == 0 ==> out.compact@ == "No device"@ && out.tooltip@ == "No device detected"@,
        devices.len() > 0 ==> out.compact@ == spec_compact(device_views(devices@)) && out.tooltip@
            == spec_tooltip(device_views(devices@)),
{
    if devices.len() == 0 {
        return Output {
            compact: "No device".to_owned(),
            count: 0,
            tooltip: "No device detected".to_owned(),
        };
    }
    let ghost ds = device_views(devices@);
    let ghost citems = ds.map_values(|d: DeviceSpec| compact_item(d));
    let ghost titems = ds.map_values(|d: DeviceSpec| tooltip_item(d));
    let mut compact = String::new();
    let mut tooltip = String::new();
    let mut i: usize = 0;
    while i < devices.len()
        invariant
            i <= devices.len(),
            devices.len() > 0,
            ds == device_views(devices@),
            citems == ds.map_values(|d: DeviceSpec| compact_item(d)),
            titems == ds.map_values(|d: DeviceSpec| tooltip_item(d)),
            compact@ == seq_join(citems.take(i as int), " \u{2022} "@),
            tooltip@ == seq_join(titems.take(i as int), "\n\n"@),
        decreases devices.len() - i,
    {
        let d = &devices[i];
        assert(ds[i as int] == d@);
        let c = compact_item_of(d);
        let t = tooltip_item_of(d);
        assert(citems.take(i + 1).drop_last() =~= citems.take(i as int));
        assert(titems.take(i + 1).drop_last() =~= titems.take(i as int));
        if i > 0 {
            append_str(&mut compact, " \u{2022} ");
            append_str(&mut tooltip, "\n\n");
        } else {
            assert(citems.take(1) =~= seq![c@]);
            assert(titems.take(1) =~= seq![t@]);
        }
        append_str(&mut compact, c.as_str());
        append_str(&mut tooltip, t.as_str());
        i += 1;
    }
    assert(citems.take(devices.len() as int) =~= citems);
    assert(titems.take(devices.len() as int) =~= titems);
    Output { compact, count: devices.len(), tooltip }
}

/// A USB serial port whose product name already ends in `(<port>)` is
/// labelled with its port once: the label is the name before that suffix,
/// stripped, followed by ` (<port>)`.
pub proof fn lemma_port_shown_once(port_name: Seq<char>, usb: UsbPort, name: Seq<char>)
    requires
        port_name.len() > 0,
        !known_boards().contains_key(spec_board_key(usb.vid, usb.pid)),
        opt_string_view(usb.product) == Some(name + " ("@ + port_name + ")"@),
    ensures
        spec_label(spec_serial_device(port_name, usb)) == spec_strip_trailing_port(name, port_name) + " ("@
            + port_name + ")"@,
{
    lemma_strip_undoes_label(name, port_name);
}

/// Joining two non-empty lists gives the join of the first, one separator,
/// then the join of the second: every two neighbouring items are separated
/// by exactly one `sep`.
pub proof fn lemma_join_append(a: Seq<Seq<char>>, b: Seq<Seq<char>>, sep: Seq<char>)
    requires
        a.len() > 0,
        b.len() > 0,
    ensures
        seq_join(a + b, sep) == seq_join(a, sep) + sep + seq_join(b, sep),
    decreases b.len(),
{
    if b.len() == 1 {
        assert((a + b).drop_last() =~= a);
        assert((a + b).last() == b[0]);
    } else {
        lemma_join_append(a, b.drop_last(), sep);
        assert((a + b).drop_last() =~= a + b.drop_last());
        assert((a + b).last() == b.last());
        assert(seq_join(a, sep) + sep + (seq_join(b.drop_last(), sep) + sep + b.last()) =~= seq_join(a, sep)
            + sep + seq_join(b.drop_last(), sep) + sep + b.last());
    }
}

/// The compact line of one device is that device's item; the compact line of
/// more devices is the compact line of all but the last, then ` • `, then
/// the last device's item. The tooltip is built the same way with a blank
/// line between items.
pub proof fn lemma_output_extends(ds: Seq<DeviceSpec>)
    requires
        ds.len() > 0,
    ensures
        ds.len() == 1 ==> spec_compact(ds) == compact_item(ds[0]) && spec_tooltip(ds) == tooltip_item(ds[0]),
        ds.len() > 1 ==> spec_compact(ds) == spec_compact(ds.drop_last()) + " \u{2022} "@ + compact_item(ds.last()),
        ds.len() > 1 ==> spec_tooltip(ds) == spec_tooltip(ds.drop_last()) + "\n\n"@ + tooltip_item(ds.last()),
{
    let c = ds.map_values(|d: DeviceSpec| compact_item(d));
    let t = ds.map_values(|d: DeviceSpec| tooltip_item(d));
    if ds.len() > 1 {
        let front = ds.drop_last();
        assert(c =~= front.map_values(|d: DeviceSpec| compact_item(d)) + seq![compact_item(ds.last())]);
        assert(t =~= front.map_values(|d: DeviceSpec| tooltip_item(d)) + seq![tooltip_item(ds.last())]);
        lemma_join_append(front.map_values(|d: DeviceSpec| compact_item(d)), seq![compact_item(ds.last())], " \u{2022} "@);
        lemma_join_append(front.map_values(|d: DeviceSpec| tooltip_item(d)), seq![tooltip_item(ds.last())], "\n\n"@);
    }
}

} // verus!
