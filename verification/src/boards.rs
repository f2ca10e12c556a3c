//! Known serial boards and the icon/colour styles of each device kind.

use std::collections::HashMap;
use vstd::prelude::*;
use crate::text::str_eq;

verus! {

broadcast use vstd::std_specs::hash::group_hash_axioms;

/// How a known board is shown: its name, a Nerd Font icon and a colour.
pub struct BoardInfo {
    pub name: &'static str,
    pub icon: &'static str,
    pub color: &'static str,
}

/// Icon of a USB serial device that is not a known board.
pub const DEFAULT_ICON: &'static str = "\u{f2db}";

/// Colour of a USB serial device that is not a known board.
pub const DEFAULT_COLOR: &'static str = "#cdd6f4";

/// The key under which a (vendor id, product id) pair is filed.
pub open spec fn spec_board_key(vid: u16, pid: u16) -> u32 {
    (vid as int * 0x10000 + pid as int) as u32
}

/// The key under which a (vendor id, product id) pair is filed: distinct
/// pairs get distinct keys.
pub fn board_key(vid: u16, pid: u16) -> (k: u32)
    ensures
        k == spec_board_key(vid, pid),
        k as int == vid as int * 0x10000 + pid as int,
{
    (vid as u32) * 0x10000 + (pid as u32)
}

/// Different (vendor id, product id) pairs are filed under different keys.
pub proof fn lemma_board_key_injective(v1: u16, p1: u16, v2: u16, p2: u16)
    requires
        spec_board_key(v1, p1) == spec_board_key(v2, p2),
    ensures
        v1 == v2 && p1 == p2,
{
    assert(spec_board_key(v1, p1) as int == v1 as int * 0x10000 + p1 as int);
    assert(spec_board_key(v2, p2) as int == v2 as int * 0x10000 + p2 as int);
}

pub open spec fn esp32_s3() -> BoardInfo {
    BoardInfo { name: "ESP32-S3", icon: "\u{ec19}", color: "#f9e2af" }
}

pub open spec fn arduino_uno() -> BoardInfo {
    BoardInfo { name: "Arduino Uno", icon: "\u{f2db}", color: "#89b4fa" }
}

/// The table of known boards: WCH CH343 (1A86:55D3) is an ESP32-S3 and
/// Arduino (2341:0043) is an Arduino Uno.
pub open spec fn known_boards() -> Map<u32, BoardInfo> {
    map![
        spec_board_key(0x1A86, 0x55D3) => esp32_s3(),
        spec_board_key(0x2341, 0x0043) => arduino_uno(),
    ]
}

/// The table of known boards, keyed by `board_key(vid, pid)`.
pub fn boards() -> (m: HashMap<u32, BoardInfo>)
    ensures
        m@ == known_boards(),
{
    let mut m: HashMap<u32, BoardInfo> = HashMap::new();
    m.insert(board_key(0x1A86, 0x55D3), BoardInfo { name: "ESP32-S3", icon: "\u{ec19}", color: "#f9e2af" });
    m.insert(board_key(0x2341, 0x0043), BoardInfo { name: "Arduino Uno", icon: "\u{f2db}", color: "#89b4fa" });
    assert(m@ =~= known_boards());
    m
}

/// The icon of a phone kind: an Apple logo for "iphone", an Android logo otherwise.
pub open spec fn phone_icon(kind: Seq<char>) -> Seq<char> {
    if kind == "iphone"@ { "\u{f179}"@ } else { "\u{e70e}"@ }
}

/// The colour of a phone kind.
pub open spec fn phone_color(kind: Seq<char>) -> Seq<char> {
    if kind == "iphone"@ { "#f38ba8"@ } else { "#a6e3a1"@ }
}

/// The icon of a drive kind: a USB stick for "usb_drive", a disk otherwise.
pub open spec fn drive_icon(kind: Seq<char>) -> Seq<char> {
    if kind == "usb_drive"@ { "\u{f129f}"@ } else { "\u{f02ca}"@ }
}

/// The colour of a drive kind.
pub open spec fn drive_color(kind: Seq<char>) -> Seq<char> {
    if kind == "usb_drive"@ { "#94e2d5"@ } else { "#fab387"@ }
}

/// Icon and colour of a phone of the given kind: an iPhone, or anything else.
pub fn phone_style(kind: &str) -> (r: (&'static str, &'static str))
    ensures
        r.0@ == phone_icon(kind@),
        r.1@ == phone_color(kind@),
{
    if str_eq(kind, "iphone") {
        ("\u{f179}", "#f38ba8")
    } else {
        ("\u{e70e}", "#a6e3a1")
    }
}

/// Icon and colour of a drive of the given kind: a USB stick, or anything else.
pub fn drive_style(kind: &str) -> (r: (&'static str, &'static str))
    ensures
        r.0@ == drive_icon(kind@),
        r.1@ == drive_color(kind@),
{
    if str_eq(kind, "usb_drive") {
        ("\u{f129f}", "#94e2d5")
    } else {
        ("\u{f02ca}", "#fab387")
    }
}

} // verus!
