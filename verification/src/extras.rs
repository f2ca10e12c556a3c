//! USB drives and phones found through WMI: which disks are USB drives, how
//! each is named and lettered, and which phone entries are only a second
//! view of a drive that is already listed.

use std::collections::{HashMap, HashSet};
use vstd::prelude::*;
use crate::boards::{drive_color, drive_icon, drive_style, phone_color, phone_icon, phone_style};
use crate::device::{DeviceInfo, DeviceSpec, device_views, opt_string_view, or_default, string_or};
use crate::ids::{
    classify_drive, classify_phone, drive_kind, drive_number_text, extract_device_id,
    extract_physical_drive_index, extract_serial, extract_vid_pid, lowered, phone_kind,
    serial_matches, spec_extract_device_id,
    spec_extract_serial, spec_serial_matches, spec_wpd_wraps, vid_pid_field, wpd_wraps_disk,
};
use crate::strmap::TextMap;
use crate::text::{
    chars_of, eq_ignore_ascii_case, eq_ignore_ascii_case_chars, parse_i32_chars, spec_parse_i32, spec_to_lowercase, spec_to_uppercase, starts_with,
    starts_with_chars, str_eq, string_of, to_lowercase, to_uppercase, trim, trim_chars,
    trim_end_matches, trim_end_matches_chars,
};

verus! {

broadcast use vstd::std_specs::hash::group_hash_axioms;

// ---------------------------------------------------------------------------
// Rows
// ---------------------------------------------------------------------------

/// A row of `MSFT_PhysicalDisk` (storage namespace).
pub struct PhysicalDiskRow {
    pub device_id: Option<String>,
    pub bus_type: Option<u16>,
}

/// A row of `Win32_DiskDrive`; `size_label` is its size already written as
/// gigabytes with one decimal ("14.9 GB"), when the size is known.
pub struct DiskDriveRow {
    pub model: Option<String>,
    pub size_label: Option<String>,
    pub media_type: Option<String>,
    pub index: Option<i32>,
    pub interface_type: Option<String>,
    pub pnp_device_id: Option<String>,
}

/// A row of an association class (`Win32_DiskDriveToDiskPartition`,
/// `Win32_LogicalDiskToPartition`): two object references.
pub struct AssocRow {
    pub antecedent: String,
    pub dependent: String,
}

/// A row of `Win32_PnPEntity` of class WPD or AppleUSB.
pub struct PnpEntityRow {
    pub name: Option<String>,
    pub device_id: Option<String>,
    pub pnp_class: Option<String>,
}

/// Bus type 7 is USB.
pub const BUS_TYPE_USB: u16 = 7;

// ---------------------------------------------------------------------------
// USB disks
// ---------------------------------------------------------------------------

/// The disk number of a physical-disk row on the USB bus.
pub open spec fn row_usb_index(r: PhysicalDiskRow) -> Option<i32> {
    if r.bus_type == Some(BUS_TYPE_USB) {
        match r.device_id {
            Some(id) => spec_parse_i32(trim(id@)),
            None => None,
        }
    } else {
        None
    }
}

/// The disk numbers of the physical disks on the USB bus.
pub open spec fn spec_usb_disk_indices(rows: Seq<PhysicalDiskRow>) -> Set<i32> {
    Set::new(|i: i32| exists|k: int| 0 <= k < rows.len() && row_usb_index(rows[k]) == Some(i))
}

/// The disk number of a physical-disk row on the USB bus.
pub fn usb_index_of(r: &PhysicalDiskRow) -> (i: Option<i32>)
    ensures
        i == row_usb_index(*r),
{
    if r.bus_type == Some(BUS_TYPE_USB) {
        match &r.device_id {
            Some(id) => {
                let v = chars_of(id.as_str());
                let t = trim_chars(&v);
                parse_i32_chars(&t)
            },
            None => None,
        }
    } else {
        None
    }
}

/// The disk numbers of the physical disks on the USB bus (BusType 7).
pub fn usb_disk_indices(rows: &Vec<PhysicalDiskRow>) -> (s: HashSet<i32>)
    ensures
        s@ == spec_usb_disk_indices(rows@),
{
    let mut s: HashSet<i32> = HashSet::new();
    let mut i: usize = 0;
    while i < rows.len()
        invariant
            i <= rows.len(),
            s@ == spec_usb_disk_indices(rows@.take(i as int)),
        decreases rows.len() - i,
    {
        let ghost before = s@;
        let r = &rows[i];
        match usb_index_of(r) {
            Some(d) => {
                s.insert(d);
            },
            None => {},
        }
        proof {
            let pre = rows@.take(i as int);
            let post = rows@.take(i + 1);
            assert forall|x: i32| #[trigger] s@.contains(x) == spec_usb_disk_indices(post).contains(x) by {
                if spec_usb_disk_indices(post).contains(x) {
                    let k = choose|k: int| 0 <= k < post.len() && row_usb_index(post[k]) == Some(x);
                    if k < i {
                        assert(pre[k] == post[k]);
                        assert(before.contains(x));
                    }
                }
                if before.contains(x) {
                    let k = choose|k: int| 0 <= k < pre.len() && row_usb_index(pre[k]) == Some(x);
                    assert(post[k] == pre[k]);
                }
                if row_usb_index(*r) == Some(x) {
                    assert(post[i as int] == *r);
                }
            }
            assert(s@ =~= spec_usb_disk_indices(post));
        }
        i += 1;
    }
    assert(rows@.take(rows.len() as int) =~= rows@);
    s
}

// ---------------------------------------------------------------------------
// Drive letters
// ---------------------------------------------------------------------------

/// The two `DeviceID`s of an association row, when both can be read.
pub open spec fn assoc_ids(r: AssocRow) -> Option<(Seq<char>, Seq<char>)> {
    match (spec_extract_device_id(r.antecedent@), spec_extract_device_id(r.dependent@)) {
        (Some(a), Some(b)) => Some((a, b)),
        _ => None,
    }
}

/// The disk number of a disk `DeviceID` such as `\\.\PHYSICALDRIVE1`.
pub open spec fn disk_number(disk_id: Seq<char>) -> Option<i32> {
    spec_parse_i32(drive_number_text(spec_to_uppercase(disk_id)))
}

/// Partition `DeviceID` to disk number, from disk-to-partition rows; a later
/// row for the same partition wins.
pub open spec fn spec_partition_map(rows: Seq<AssocRow>) -> Map<Seq<char>, i32>
    decreases rows.len(),
{
    if rows.len() == 0 {
        Map::empty()
    } else {
        let m = spec_partition_map(rows.drop_last());
        match assoc_ids(rows.last()) {
            Some((disk, part)) => match disk_number(disk) {
                Some(idx) => m.insert(part, idx),
                None => m,
            },
            None => m,
        }
    }
}

/// Disk number to drive letter, from logical-disk-to-partition rows through
/// the partition map; a later row for the same disk wins.
pub open spec fn spec_letter_map(rows: Seq<AssocRow>, parts: Map<Seq<char>, i32>) -> Map<i32, Seq<char>>
    decreases rows.len(),
{
    if rows.len() == 0 {
        Map::empty()
    } else {
        let m = spec_letter_map(rows.drop_last(), parts);
        match assoc_ids(rows.last()) {
            Some((part, letter)) => if parts.contains_key(part) {
                m.insert(parts[part], letter)
            } else {
                m
            },
            None => m,
        }
    }
}

/// The characters of each value of a map of strings.
pub open spec fn string_map_view(m: Map<i32, String>) -> Map<i32, Seq<char>> {
    Map::new(|k: i32| m.contains_key(k), |k: i32| m[k]@)
}

/// Disk number to drive letter, joining the two association tables in memory.
pub fn disk_letters(disk_partitions: &Vec<AssocRow>, partition_letters: &Vec<AssocRow>) -> (m: HashMap<i32, String>)
    ensures
        string_map_view(m@) == spec_letter_map(partition_letters@, spec_partition_map(disk_partitions@)),
{
    let mut parts: TextMap<i32> = TextMap::new();
    let mut i: usize = 0;
    while i < disk_partitions.len()
        invariant
            i <= disk_partitions.len(),
            parts.wf(),
            parts.map() == spec_partition_map(disk_partitions@.take(i as int)),
        decreases disk_partitions.len() - i,
    {
        let r = &disk_partitions[i];
        assert(disk_partitions@.take(i + 1).drop_last() =~= disk_partitions@.take(i as int));
        assert(disk_partitions@.take(i + 1).last() == *r);
        let a = extract_device_id(r.antecedent.as_str());
        let d = extract_device_id(r.dependent.as_str());
        match (a, d) {
            (Some(disk_id), Some(part_id)) => {
                match extract_physical_drive_index(disk_id.as_str()) {
                    Some(idx) => {
                        parts.insert(part_id, idx);
                    },
                    None => {},
                }
            },
            _ => {},
        }
        i += 1;
    }
    assert(disk_partitions@.take(disk_partitions.len() as int) =~= disk_partitions@);
    let ghost pm = parts.map();
    let mut m: HashMap<i32, String> = HashMap::new();
    assert(string_map_view(m@) =~= Map::<i32, Seq<char>>::empty());
    let mut j: usize = 0;
    while j < partition_letters.len()
        invariant
            j <= partition_letters.len(),
            parts.wf(),
            parts.map() == pm,
            pm == spec_partition_map(disk_partitions@),
            string_map_view(m@) == spec_letter_map(partition_letters@.take(j as int), pm),
        decreases partition_letters.len() - j,
    {
        let r = &partition_letters[j];
        assert(partition_letters@.take(j + 1).drop_last() =~= partition_letters@.take(j as int));
        assert(partition_letters@.take(j + 1).last() == *r);
        let ghost before = m@;
        let a = extract_device_id(r.antecedent.as_str());
        let d = extract_device_id(r.dependent.as_str());
        match (a, d) {
            (Some(part_id), Some(letter)) => {
                match parts.get(part_id.as_str()) {
                    Some(idx) => {
                        let ghost lv = letter@;
                        m.insert(idx, letter);
                        assert(string_map_view(m@) =~= string_map_view(before).insert(idx, lv));
                    },
                    None => {},
                }
            },
            _ => {},
        }
        j += 1;
    }
    assert(partition_letters@.take(partition_letters.len() as int) =~= partition_letters@);
    m
}

// ---------------------------------------------------------------------------
// Indexing the drives
// ---------------------------------------------------------------------------

/// What has been found so far: the devices in order, and the indexes through
/// which a phone entry is matched to a drive already listed.
#[verifier::ext_equal]
pub struct ExtrasModel {
    /// The devices listed so far.
    pub out: Seq<DeviceSpec>,
    /// How many of them are drives: the disks are read first, so these are
    /// the first `drives` entries.
    pub drives: nat,
    /// The drive serials, in the order in which they were first indexed.
    pub serial_keys: Seq<Seq<char>>,
    /// Drive serial (upper case) to device position.
    pub serials: Map<Seq<char>, usize>,
    /// Drive letter (upper case, without trailing `\\`) to device position.
    pub letters: Map<Seq<char>, usize>,
    /// Drive model (trimmed, lower case) to device position.
    pub names: Map<Seq<char>, usize>,
    /// Raw PnP device id of each drive that has one, with its device position.
    pub pnpids: Seq<(Seq<char>, usize)>,
}

/// Nothing found yet.
pub open spec fn empty_model() -> ExtrasModel {
    ExtrasModel {
        out: Seq::empty(),
        drives: 0,
        serial_keys: Seq::empty(),
        serials: Map::empty(),
        letters: Map::empty(),
        names: Map::empty(),
        pnpids: Seq::empty(),
    }
}

/// A disk is a USB drive when its number is on the USB bus, its interface
/// type is "USB", or its PnP id starts with "USBSTOR" (any case).
pub open spec fn disk_is_usb(d: DiskDriveRow, usb: Set<i32>) -> bool {
    ||| (d.index matches Some(i) && usb.contains(i))
    ||| opt_string_view(d.interface_type) == Some("USB"@)
    ||| (d.pnp_device_id matches Some(id) && starts_with(spec_to_uppercase(id@), "USBSTOR"@))
}

/// The drive letter of a disk, "?" when it has none.
pub open spec fn disk_letter(d: DiskDriveRow, letters: Map<i32, Seq<char>>) -> Seq<char> {
    match d.index {
        Some(i) => if letters.contains_key(i) {
            letters[i]
        } else {
            "?"@
        },
        None => "?"@,
    }
}

/// The entry shown for a USB drive: its letter as port, its model (else
/// "USB Drive") as name, its size as "vid", "USB" as "pid", its media type
/// as description.
pub open spec fn drive_device(d: DiskDriveRow, letters: Map<i32, Seq<char>>) -> DeviceSpec {
    let kind = drive_kind(lowered(opt_string_view(d.media_type)));
    DeviceSpec {
        port: disk_letter(d, letters),
        name: or_default(opt_string_view(d.model), "USB Drive"@),
        icon: drive_icon(kind),
        color: drive_color(kind),
        vid: or_default(opt_string_view(d.size_label), "?"@),
        pid: "USB"@,
        manufacturer: "?"@,
        description: or_default(opt_string_view(d.media_type), "?"@),
    }
}

/// The key under which a drive letter is indexed.
pub open spec fn letter_key(letter: Seq<char>) -> Seq<char> {
    spec_to_uppercase(trim_end_matches(letter, '\\'))
}

/// The key under which a drive model or phone name is indexed.
pub open spec fn name_key(name: Seq<char>) -> Seq<char> {
    spec_to_lowercase(trim(name))
}

/// One disk row: a USB drive is listed and indexed by its serial (when its
/// PnP id yields one), its letter (when it has one), its model and its raw
/// PnP id; any other disk changes nothing.
pub open spec fn step_disk(s: ExtrasModel, d: DiskDriveRow, usb: Set<i32>, letters: Map<i32, Seq<char>>) -> ExtrasModel {
    if !disk_is_usb(d, usb) {
        s
    } else {
        let idx = s.out.len() as usize;
        let dev = drive_device(d, letters);
        let serial = match d.pnp_device_id {
            Some(id) => spec_extract_serial(id@),
            None => None,
        };
        ExtrasModel {
            out: s.out.push(dev),
            drives: s.drives + 1,
            serial_keys: match serial {
                Some(k) => if s.serials.contains_key(k) {
                    s.serial_keys
                } else {
                    s.serial_keys.push(k)
                },
                None => s.serial_keys,
            },
            serials: match serial {
                Some(k) => s.serials.insert(k, idx),
                None => s.serials,
            },
            letters: if dev.port != "?"@ {
                s.letters.insert(letter_key(dev.port), idx)
            } else {
                s.letters
            },
            names: s.names.insert(name_key(dev.name), idx),
            pnpids: match d.pnp_device_id {
                Some(id) => s.pnpids.push((id@, idx)),
                None => s.pnpids,
            },
        }
    }
}

// ---------------------------------------------------------------------------
// Matching the phones
// ---------------------------------------------------------------------------

/// The position of the first indexed drive (in indexing order) of which the
/// entity with upper-cased id `upper` is the WPD wrapper.
pub open spec fn first_wrapper_hit(ps: Seq<(Seq<char>, usize)>, upper: Seq<char>) -> Option<usize>
    decreases ps.len(),
{
    if ps.len() == 0 {
        None
    } else {
        match first_wrapper_hit(ps.drop_last(), upper) {
            Some(i) => Some(i),
            None => if spec_wpd_wraps(upper, spec_to_uppercase(ps.last().0)) {
                Some(ps.last().1)
            } else {
                None
            },
        }
    }
}

/// The position of the drive with the first serial (in indexing order) that
/// occurs in `upper` as a whole token.
pub open spec fn first_serial_hit(keys: Seq<Seq<char>>, serials: Map<Seq<char>, usize>, upper: Seq<char>) -> Option<usize>
    decreases keys.len(),
{
    if keys.len() == 0 {
        None
    } else {
        match first_serial_hit(keys.drop_last(), serials, upper) {
            Some(i) => Some(i),
            None => if spec_serial_matches(upper, keys.last()) {
                Some(serials[keys.last()])
            } else {
                None
            },
        }
    }
}

pub open spec fn map_get(m: Map<Seq<char>, usize>, k: Seq<char>) -> Option<usize> {
    if m.contains_key(k) {
        Some(m[k])
    } else {
        None
    }
}

pub open spec fn or_else(a: Option<usize>, b: Option<usize>) -> Option<usize> {
    match a {
        Some(i) => Some(i),
        None => b,
    }
}

/// A friendly name that is just the generic "android" or "iphone".
pub open spec fn is_generic_name(trimmed: Seq<char>) -> bool {
    eq_ignore_ascii_case(trimmed, "android"@) || eq_ignore_ascii_case(trimmed, "iphone"@)
}

/// The listed device that a phone entry is a second view of, tried in order:
/// the drive it wraps, a drive whose serial it carries, a drive whose letter
/// is its name, a drive whose model is its name, and, for a generic name,
/// the last drive listed (a WPD entry with only the default name is a ghost
/// of a drive already listed).
pub open spec fn phone_match(s: ExtrasModel, friendly: Seq<char>, upper: Seq<char>) -> Option<usize> {
    or_else(
        first_wrapper_hit(s.pnpids, upper),
        or_else(
            first_serial_hit(s.serial_keys, s.serials, upper),
            or_else(
                map_get(s.letters, letter_key(trim(friendly))),
                or_else(
                    map_get(s.names, name_key(friendly)),
                    if is_generic_name(trim(friendly)) && s.drives > 0 {
                        Some((s.drives - 1) as usize)
                    } else {
                        None
                    },
                ),
            ),
        ),
    )
}

/// The entry shown for a phone that matches no listed device.
pub open spec fn phone_device(p: PnpEntityRow, friendly: Seq<char>, device_id: Seq<char>) -> DeviceSpec {
    let kind = phone_kind(spec_to_lowercase(friendly), opt_string_view(p.pnp_class));
    DeviceSpec {
        port: Seq::empty(),
        name: friendly,
        icon: phone_icon(kind),
        color: phone_color(kind),
        vid: vid_pid_field(device_id, "VID_"@),
        pid: vid_pid_field(device_id, "PID_"@),
        manufacturer: "?"@,
        description: or_default(opt_string_view(p.pnp_class), "?"@),
    }
}

/// `d` renamed to `name`.
pub open spec fn renamed(d: DeviceSpec, name: Seq<char>) -> DeviceSpec {
    DeviceSpec {
        port: d.port,
        name: name,
        icon: d.icon,
        color: d.color,
        vid: d.vid,
        pid: d.pid,
        manufacturer: d.manufacturer,
        description: d.description,
    }
}

/// The listed devices after one phone entry.
pub open spec fn phone_out(s: ExtrasModel, p: PnpEntityRow) -> Seq<DeviceSpec> {
    let friendly = or_default(opt_string_view(p.name), "Unknown device"@);
    let device_id = or_default(opt_string_view(p.device_id), Seq::empty());
    match phone_match(s, friendly, spec_to_uppercase(device_id)) {
        Some(idx) => if trim(friendly).len() > 0 && letter_key(trim(friendly)) != letter_key(
            s.out[idx as int].port,
        ) {
            s.out.update(idx as int, renamed(s.out[idx as int], friendly))
        } else {
            s.out
        },
        None => s.out.push(phone_device(p, friendly, device_id)),
    }
}

/// One phone entry: a second view of a listed device gives that device the
/// phone's name (unless the name is empty or is that device's letter); any
/// other phone is listed. The indexes are unchanged.
pub open spec fn step_phone(s: ExtrasModel, p: PnpEntityRow) -> ExtrasModel {
    ExtrasModel {
        out: phone_out(s, p),
        drives: s.drives,
        serial_keys: s.serial_keys,
        serials: s.serials,
        letters: s.letters,
        names: s.names,
        pnpids: s.pnpids,
    }
}

/// The devices and indexes built while the disks and phones are read.
pub struct ExtrasState {
    out: Vec<DeviceInfo>,
    drives: usize,
    serials: TextMap<usize>,
    letters: TextMap<usize>,
    names: TextMap<usize>,
    pnpids: Vec<(String, usize)>,
}

impl View for ExtrasState {
    type V = ExtrasModel;

    closed spec fn view(&self) -> ExtrasModel {
        ExtrasModel {
            out: device_views(self.out@),
            drives: self.drives as nat,
            serial_keys: self.serials.key_seq(),
            serials: self.serials.map(),
            letters: self.letters.map(),
            names: self.names.map(),
            pnpids: self.pnpids@.map_values(|e: (String, usize)| (e.0@, e.1)),
        }
    }
}

impl ExtrasState {
    /// The indexes are well formed and only name devices that are listed.
    pub closed spec fn wf(&self) -> bool {
        &&& self.drives <= self.out@.len()
        &&& self.serials.wf()
        &&& self.letters.wf()
        &&& self.names.wf()
        &&& forall|k: Seq<char>| #[trigger] self.serials.map().contains_key(k) ==> self.serials.map()[k] < self.out@.len()
        &&& forall|k: Seq<char>| #[trigger] self.letters.map().contains_key(k) ==> self.letters.map()[k] < self.out@.len()
        &&& forall|k: Seq<char>| #[trigger] self.names.map().contains_key(k) ==> self.names.map()[k] < self.out@.len()
        &&& forall|j: int| 0 <= j < self.pnpids@.len() ==> #[trigger] self.pnpids@[j].1 < self.out@.len()
    }

    pub fn new() -> (s: Self)
        ensures
            s.wf(),
            s@ == empty_model(),
    {
        let s = ExtrasState {
            out: Vec::new(),
            drives: 0,
            serials: TextMap::new(),
            letters: TextMap::new(),
            names: TextMap::new(),
            pnpids: Vec::new(),
        };
        assert(s@ =~= empty_model());
        s
    }

    /// The devices listed.
    pub fn into_devices(self) -> (out: Vec<DeviceInfo>)
        ensures
            device_views(out@) == self@.out,
    {
        self.out
    }

    /// Reads one disk row.
    pub fn add_disk(&mut self, d: &DiskDriveRow, usb: &HashSet<i32>, letters: &HashMap<i32, String>)
        requires
            old(self).wf(),
        ensures
            final(self).wf(),
            final(self)@ == step_disk(old(self)@, *d, usb@, string_map_view(letters@)),
    {
        let ghost lm = string_map_view(letters@);
        let by_index = match d.index {
            Some(i) => usb.contains(&i),
            None => false,
        };
        let by_interface = match &d.interface_type {
            Some(t) => str_eq(t.as_str(), "USB"),
            None => false,
        };
        let by_pnp = match &d.pnp_device_id {
            Some(id) => {
                let u = to_uppercase(id.as_str());
                starts_with_chars(&chars_of(u.as_str()), &chars_of("USBSTOR"))
            },
            None => false,
        };
        if !(by_index || by_interface || by_pnp) {
            return;
        }
        let size = string_or(&d.size_label, "?");
        let label = string_or(&d.model, "USB Drive");
        let kind = match &d.media_type {
            Some(m) => classify_drive(Some(m.as_str())),
            None => classify_drive(None),
        };
        let (icon, color) = drive_style(kind);
        let serial = match &d.pnp_device_id {
            Some(id) => extract_serial(id.as_str()),
            None => None,
        };
        let letter = match d.index {
            Some(i) => match letters.get(&i) {
                Some(l) => l.clone(),
                None => "?".to_owned(),
            },
            None => "?".to_owned(),
        };
        assert(letter@ == disk_letter(*d, lm));
        let idx = self.out.len();
        let ghost s0 = self@;
        let dev = DeviceInfo {
            port: letter.clone(),
            name: label.clone(),
            icon: icon.to_owned(),
            color: color.to_owned(),
            vid: size,
            pid: "USB".to_owned(),
            manufacturer: "?".to_owned(),
            description: string_or(&d.media_type, "?"),
        };
        assert(dev@ == drive_device(*d, lm));
        self.out.push(dev);
        assert(self.drives < self.out.len());
        self.drives = self.drives + 1;
        assert(device_views(self.out@) =~= s0.out.push(dev@));
        match serial {
            Some(s) => {
                self.serials.insert(s, idx);
            },
            None => {},
        }
        if !str_eq(letter.as_str(), "?") {
            let lv = chars_of(letter.as_str());
            let trimmed = trim_end_matches_chars(&lv, '\\');
            let key = to_uppercase(string_of(&trimmed).as_str());
            self.letters.insert(key, idx);
        }
        let nv = chars_of(label.as_str());
        let nt = trim_chars(&nv);
        let nkey = to_lowercase(string_of(&nt).as_str());
        self.names.insert(nkey, idx);
        match &d.pnp_device_id {
            Some(raw) => {
                let ghost before = self.pnpids@;
                self.pnpids.push((raw.clone(), idx));
                assert(self.pnpids@.map_values(|e: (String, usize)| (e.0@, e.1)) =~= before.map_values(
                    |e: (String, usize)| (e.0@, e.1),
                ).push((raw@, idx)));
            },
            None => {},
        }
        assert(self@ =~= step_disk(s0, *d, usb@, lm));
    }

    fn wrapper_hit(&self, upper: &str) -> (r: Option<usize>)
        requires
            self.wf(),
        ensures
            r == first_wrapper_hit(self@.pnpids, upper@),
            r matches Some(i) ==> i < self@.out.len(),
    {
        let ghost ps = self@.pnpids;
        let mut r: Option<usize> = None;
        let mut j: usize = 0;
        while j < self.pnpids.len()
            invariant
                self.wf(),
                j <= self.pnpids@.len(),
                ps == self@.pnpids,
                r == first_wrapper_hit(ps.take(j as int), upper@),
                r matches Some(i) ==> i < self@.out.len(),
            decreases self.pnpids@.len() - j,
        {
            assert(ps.take(j + 1).drop_last() =~= ps.take(j as int));
            let e = &self.pnpids[j];
            assert(ps.take(j + 1).last() == (e.0@, e.1));
            if r.is_none() && wpd_wraps_disk(upper, e.0.as_str()) {
                r = Some(e.1);
            }
            j += 1;
        }
        assert(ps.take(self.pnpids@.len() as int) =~= ps);
        r
    }

    fn serial_hit(&self, upper: &str) -> (r: Option<usize>)
        requires
            self.wf(),
        ensures
            r == first_serial_hit(self@.serial_keys, self@.serials, upper@),
            r matches Some(i) ==> i < self@.out.len(),
    {
        let ghost ks = self@.serial_keys;
        let mut r: Option<usize> = None;
        let mut j: usize = 0;
        proof {
            self.serials.lemma_wf_lengths();
        }
        while j < self.serials.len()
            invariant
                self.wf(),
                j <= ks.len(),
                ks == self.serials.key_seq(),
                r == first_serial_hit(ks.take(j as int), self@.serials, upper@),
                r matches Some(i) ==> i < self@.out.len(),
            decreases ks.len() - j,
        {
            assert(ks.take(j + 1).drop_last() =~= ks.take(j as int));
            let k = self.serials.key_at(j);
            assert(ks.take(j + 1).last() == k@);
            if r.is_none() && serial_matches(upper, k.as_str()) {
                proof {
                    self.serials.lemma_map_at(j as int);
                }
                r = Some(self.serials.value_at(j));
            }
            j += 1;
        }
        assert(ks.take(ks.len() as int) =~= ks);
        r
    }

    /// Reads one phone entry.
    pub fn add_phone(&mut self, p: &PnpEntityRow)
        requires
            old(self).wf(),
        ensures
            final(self).wf(),
            final(self)@ == step_phone(old(self)@, *p),
    {
        let ghost s0 = self@;
        let friendly = string_or(&p.name, "Unknown device");
        let device_id = string_or(&p.device_id, "");
        proof {
            reveal_strlit("");
        }
        assert(device_id@ == or_default(opt_string_view(p.device_id), Seq::empty()));
        let upper = to_uppercase(device_id.as_str());
        let wrapper_hit = self.wrapper_hit(upper.as_str());
        let serial_hit = self.serial_hit(upper.as_str());
        let fv = chars_of(friendly.as_str());
        let trimmed = trim_chars(&fv);
        let name_as_letter = to_uppercase(string_of(&trim_end_matches_chars(&trimmed, '\\')).as_str());
        let letter_hit = self.letters.get(name_as_letter.as_str());
        let key = to_lowercase(string_of(&trimmed).as_str());
        let name_hit = self.names.get(key.as_str());
        let generic = eq_ignore_ascii_case_chars(&trimmed, &chars_of("android"))
            || eq_ignore_ascii_case_chars(&trimmed, &chars_of("iphone"));
        let fallback = if generic && self.drives > 0 {
            Some(self.drives - 1)
        } else {
            None
        };
        let matched = match wrapper_hit {
            Some(i) => Some(i),
            None => match serial_hit {
                Some(i) => Some(i),
                None => match letter_hit {
                    Some(i) => Some(i),
                    None => match name_hit {
                        Some(i) => Some(i),
                        None => fallback,
                    },
                },
            },
        };
        assert(matched == phone_match(s0, friendly@, upper@));
        match matched {
            Some(idx) => {
                let pv = chars_of(self.out[idx].port.as_str());
                let port_as_letter = to_uppercase(string_of(&trim_end_matches_chars(&pv, '\\')).as_str());
                assert(port_as_letter@ == letter_key(s0.out[idx as int].port));
                assert(name_as_letter@ == letter_key(trim(friendly@)));
                if trimmed.len() > 0 && !str_eq(name_as_letter.as_str(), port_as_letter.as_str()) {
                    let ghost old_dev = self.out@[idx as int];
                    self.out[idx].name = friendly;
                    assert(device_views(self.out@) =~= s0.out.update(idx as int, renamed(old_dev@, friendly@)));
                }
            },
            None => {
                let kind = match &p.pnp_class {
                    Some(c) => classify_phone(friendly.as_str(), Some(c.as_str())),
                    None => classify_phone(friendly.as_str(), None),
                };
                let (icon, color) = phone_style(kind);
                let (vid, pid) = extract_vid_pid(device_id.as_str());
                let dev = DeviceInfo {
                    port: String::new(),
                    name: friendly,
                    icon: icon.to_owned(),
                    color: color.to_owned(),
                    vid,
                    pid,
                    manufacturer: "?".to_owned(),
                    description: string_or(&p.pnp_class, "?"),
                };
                assert(dev@ == phone_device(*p, friendly@, device_id@));
                self.out.push(dev);
                assert(device_views(self.out@) =~= s0.out.push(dev@));
            },
        }
        assert(self@ =~= step_phone(s0, *p));
    }
}

// ---------------------------------------------------------------------------
// The whole pass
// ---------------------------------------------------------------------------

/// What the WMI queries returned.
pub struct UsbInventory {
    /// `MSFT_PhysicalDisk` rows (empty when the storage namespace cannot be reached).
    pub physical_disks: Vec<PhysicalDiskRow>,
    /// `Win32_DiskDrive` rows.
    pub disks: Vec<DiskDriveRow>,
    /// `Win32_DiskDriveToDiskPartition` rows.
    pub disk_partitions: Vec<AssocRow>,
    /// `Win32_LogicalDiskToPartition` rows.
    pub partition_letters: Vec<AssocRow>,
    /// `Win32_PnPEntity` rows of class WPD or AppleUSB.
    pub phones: Vec<PnpEntityRow>,
}

/// The state after reading the disk rows in order.
pub open spec fn disks_model(disks: Seq<DiskDriveRow>, usb: Set<i32>, letters: Map<i32, Seq<char>>) -> ExtrasModel
    decreases disks.len(),
{
    if disks.len() == 0 {
        empty_model()
    } else {
        step_disk(disks_model(disks.drop_last(), usb, letters), disks.last(), usb, letters)
    }
}

/// The state after reading the phone rows in order, from `s`.
pub open spec fn phones_model(s: ExtrasModel, phones: Seq<PnpEntityRow>) -> ExtrasModel
    decreases phones.len(),
{
    if phones.len() == 0 {
        s
    } else {
        step_phone(phones_model(s, phones.drop_last()), phones.last())
    }
}

/// The drives and phones listed for an inventory: the disks are read first,
/// in order, so that the phones read after them can be matched to them.
pub open spec fn spec_usb_extras(inv: UsbInventory) -> Seq<DeviceSpec> {
    let usb = spec_usb_disk_indices(inv.physical_disks@);
    let letters = spec_letter_map(inv.partition_letters@, spec_partition_map(inv.disk_partitions@));
    phones_model(disks_model(inv.disks@, usb, letters), inv.phones@).out
}

/// The USB drives and phones of an inventory, each phone that is only a
/// second view of a listed drive merged into that drive.
pub fn detect_usb_extras(inv: &UsbInventory) -> (out: Vec<DeviceInfo>)
    ensures
        device_views(out@) == spec_usb_extras(*inv),
{
    let usb = usb_disk_indices(&inv.physical_disks);
    let letters = disk_letters(&inv.disk_partitions, &inv.partition_letters);
    let ghost lm = string_map_view(letters@);
    let mut st = ExtrasState::new();
    let mut i: usize = 0;
    while i < inv.disks.len()
        invariant
            i <= inv.disks@.len(),
            st.wf(),
            st@ == disks_model(inv.disks@.take(i as int), usb@, lm),
            lm == string_map_view(letters@),
        decreases inv.disks@.len() - i,
    {
        assert(inv.disks@.take(i + 1).drop_last() =~= inv.disks@.take(i as int));
        st.add_disk(&inv.disks[i], &usb, &letters);
        i += 1;
    }
    assert(inv.disks@.take(inv.disks@.len() as int) =~= inv.disks@);
    let ghost s1 = st@;
    let mut j: usize = 0;
    while j < inv.phones.len()
        invariant
            j <= inv.phones@.len(),
            st.wf(),
            st@ == phones_model(s1, inv.phones@.take(j as int)),
        decreases inv.phones@.len() - j,
    {
        assert(inv.phones@.take(j + 1).drop_last() =~= inv.phones@.take(j as int));
        st.add_phone(&inv.phones[j]);
        j += 1;
    }
    assert(inv.phones@.take(inv.phones@.len() as int) =~= inv.phones@);
    st.into_devices()
}

// ---------------------------------------------------------------------------
// Laws
// ---------------------------------------------------------------------------

/// Every index entry names a listed device, and every indexed serial has a
/// position.
pub open spec fn model_wf(s: ExtrasModel) -> bool {
    &&& s.drives <= s.out.len()
    &&& forall|k: Seq<char>| #[trigger] s.serials.contains_key(k) ==> s.serials[k] < s.out.len()
    &&& forall|k: Seq<char>| #[trigger] s.letters.contains_key(k) ==> s.letters[k] < s.out.len()
    &&& forall|k: Seq<char>| #[trigger] s.names.contains_key(k) ==> s.names[k] < s.out.len()
    &&& forall|j: int| 0 <= j < s.pnpids.len() ==> #[trigger] s.pnpids[j].1 < s.out.len()
    &&& forall|j: int| 0 <= j < s.serial_keys.len() ==> s.serials.contains_key(#[trigger] s.serial_keys[j])
    &&& s.out.len() < usize::MAX
}

proof fn lemma_wrapper_hit_in_range(ps: Seq<(Seq<char>, usize)>, upper: Seq<char>, n: int)
    requires
        forall|j: int| 0 <= j < ps.len() ==> #[trigger] ps[j].1 < n,
    ensures
        first_wrapper_hit(ps, upper) matches Some(i) ==> i < n,
    decreases ps.len(),
{
    if ps.len() > 0 {
        assert forall|j: int| 0 <= j < ps.drop_last().len() implies #[trigger] ps.drop_last()[j].1 < n by {
            assert(ps.drop_last()[j] == ps[j]);
        }
        lemma_wrapper_hit_in_range(ps.drop_last(), upper, n);
        assert(ps[ps.len() - 1].1 < n);
    }
}

proof fn lemma_serial_hit_in_range(keys: Seq<Seq<char>>, serials: Map<Seq<char>, usize>, upper: Seq<char>, n: int)
    requires
        forall|j: int| 0 <= j < keys.len() ==> serials.contains_key(#[trigger] keys[j]),
        forall|k: Seq<char>| #[trigger] serials.contains_key(k) ==> serials[k] < n,
    ensures
        first_serial_hit(keys, serials, upper) matches Some(i) ==> i < n,
    decreases keys.len(),
{
    if keys.len() > 0 {
        assert forall|j: int| 0 <= j < keys.drop_last().len() implies serials.contains_key(#[trigger] keys.drop_last()[j]) by {
            assert(keys.drop_last()[j] == keys[j]);
        }
        lemma_serial_hit_in_range(keys.drop_last(), serials, upper, n);
        assert(serials.contains_key(keys[keys.len() - 1]));
    }
}

/// A phone entry is only ever matched to a device that is listed.
pub proof fn lemma_phone_match_in_range(s: ExtrasModel, friendly: Seq<char>, upper: Seq<char>)
    requires
        model_wf(s),
    ensures
        phone_match(s, friendly, upper) matches Some(i) ==> i < s.out.len(),
{
    lemma_wrapper_hit_in_range(s.pnpids, upper, s.out.len() as int);
    lemma_serial_hit_in_range(s.serial_keys, s.serials, upper, s.out.len() as int);
}

/// Reading a disk row keeps every index entry naming a listed device.
pub proof fn lemma_step_disk_keeps_wf(s: ExtrasModel, d: DiskDriveRow, usb: Set<i32>, letters: Map<i32, Seq<char>>)
    requires
        model_wf(s),
        s.out.len() + 1 < usize::MAX,
    ensures
        model_wf(step_disk(s, d, usb, letters)),
{
    let t = step_disk(s, d, usb, letters);
    if disk_is_usb(d, usb) {
        assert forall|j: int| 0 <= j < t.pnpids.len() implies #[trigger] t.pnpids[j].1 < t.out.len() by {
            if j < s.pnpids.len() {
                assert(t.pnpids[j] == s.pnpids[j]);
            }
        }
        assert forall|j: int| 0 <= j < t.serial_keys.len() implies t.serials.contains_key(#[trigger] t.serial_keys[j]) by {
            if j < s.serial_keys.len() {
                assert(t.serial_keys[j] == s.serial_keys[j]);
            }
        }
    }
}

/// Reading a phone entry keeps every index entry naming a listed device.
pub proof fn lemma_step_phone_keeps_wf(s: ExtrasModel, p: PnpEntityRow)
    requires
        model_wf(s),
        s.out.len() + 1 < usize::MAX,
    ensures
        model_wf(step_phone(s, p)),
{
    let friendly = or_default(opt_string_view(p.name), "Unknown device"@);
    let device_id = or_default(opt_string_view(p.device_id), Seq::empty());
    lemma_phone_match_in_range(s, friendly, spec_to_uppercase(device_id));
}

/// A phone entry never drops or reorders listed devices, and changes at most
/// the name of one of them; it adds a device exactly when it matches none.
pub proof fn lemma_phone_keeps_devices(s: ExtrasModel, p: PnpEntityRow)
    requires
        model_wf(s),
    ensures
        ({
            let friendly = or_default(opt_string_view(p.name), "Unknown device"@);
            let device_id = or_default(opt_string_view(p.device_id), Seq::empty());
            let hit = phone_match(s, friendly, spec_to_uppercase(device_id));
            let t = step_phone(s, p).out;
            &&& t.len() == s.out.len() + (if hit is None { 1int } else { 0int })
            &&& forall|i: int| 0 <= i < s.out.len() ==> {
                &&& #[trigger] t[i].port == s.out[i].port
                &&& t[i].icon == s.out[i].icon
                &&& t[i].color == s.out[i].color
                &&& t[i].vid == s.out[i].vid
                &&& t[i].pid == s.out[i].pid
                &&& t[i].manufacturer == s.out[i].manufacturer
                &&& t[i].description == s.out[i].description
            }
        }),
{
    let friendly = or_default(opt_string_view(p.name), "Unknown device"@);
    let device_id = or_default(opt_string_view(p.device_id), Seq::empty());
    lemma_phone_match_in_range(s, friendly, spec_to_uppercase(device_id));
}

/// Reading a disk row lists one more device exactly when the disk is a USB drive.
pub proof fn lemma_disk_adds_usb_drive(s: ExtrasModel, d: DiskDriveRow, usb: Set<i32>, letters: Map<i32, Seq<char>>)
    ensures
        disk_is_usb(d, usb) ==> step_disk(s, d, usb, letters).out == s.out.push(drive_device(d, letters)),
        !disk_is_usb(d, usb) ==> step_disk(s, d, usb, letters) == s,
{
}

proof fn lemma_wrapper_hit_found(ps: Seq<(Seq<char>, usize)>, upper: Seq<char>, j: int)
    requires
        0 <= j < ps.len(),
        spec_wpd_wraps(upper, spec_to_uppercase(ps[j].0)),
    ensures
        first_wrapper_hit(ps, upper) is Some,
    decreases ps.len(),
{
    if j < ps.len() - 1 {
        assert(ps.drop_last()[j] == ps[j]);
        lemma_wrapper_hit_found(ps.drop_last(), upper, j);
    }
}

/// A phone entry that is the WPD wrapper of a listed drive is merged into a
/// listed device rather than listed again.
pub proof fn lemma_wrapped_phone_is_merged(s: ExtrasModel, p: PnpEntityRow, j: int)
    requires
        model_wf(s),
        0 <= j < s.pnpids.len(),
        spec_wpd_wraps(
            spec_to_uppercase(or_default(opt_string_view(p.device_id), Seq::empty())),
            spec_to_uppercase(s.pnpids[j].0),
        ),
    ensures
        step_phone(s, p).out.len() == s.out.len(),
{
    let device_id = or_default(opt_string_view(p.device_id), Seq::empty());
    lemma_wrapper_hit_found(s.pnpids, spec_to_uppercase(device_id), j);
    lemma_phone_keeps_devices(s, p);
}

/// A phone entry whose name is just "android" or "iphone" (any ASCII case,
/// surrounding whitespace ignored) is merged into a listed device whenever
/// a drive is listed.
pub proof fn lemma_generic_phone_is_merged(s: ExtrasModel, p: PnpEntityRow)
    requires
        model_wf(s),
        s.drives > 0,
        is_generic_name(trim(or_default(opt_string_view(p.name), "Unknown device"@))),
    ensures
        step_phone(s, p).out.len() == s.out.len(),
{
    lemma_phone_keeps_devices(s, p);
}

/// `t` lists the devices of `s` in the same places, each with the same
/// port, icon, colour, ids, manufacturer and description.
pub open spec fn keeps_devices(s: Seq<DeviceSpec>, t: Seq<DeviceSpec>) -> bool {
    &&& s.len() <= t.len()
    &&& forall|i: int| 0 <= i < s.len() ==> {
        &&& #[trigger] t[i].port == s[i].port
        &&& t[i].icon == s[i].icon
        &&& t[i].color == s[i].color
        &&& t[i].vid == s[i].vid
        &&& t[i].pid == s[i].pid
        &&& t[i].manufacturer == s[i].manufacturer
        &&& t[i].description == s[i].description
    }
}

/// Reading the disk rows lists at most one device per row, and every index
/// entry names a listed device.
pub proof fn lemma_disks_model_wf(disks: Seq<DiskDriveRow>, usb: Set<i32>, letters: Map<i32, Seq<char>>)
    requires
        disks.len() + 1 < usize::MAX,
    ensures
        model_wf(disks_model(disks, usb, letters)),
        disks_model(disks, usb, letters).out.len() <= disks.len(),
        disks_model(disks, usb, letters).drives == disks_model(disks, usb, letters).out.len(),
    decreases disks.len(),
{
    if disks.len() > 0 {
        lemma_disks_model_wf(disks.drop_last(), usb, letters);
        lemma_step_disk_keeps_wf(disks_model(disks.drop_last(), usb, letters), disks.last(), usb, letters);
    }
}

/// Reading phone rows never drops, moves or changes anything but the name
/// of a device already listed, lists at most one device per row, and keeps
/// every index entry naming a listed device.
pub proof fn lemma_phones_keep_devices(s: ExtrasModel, phones: Seq<PnpEntityRow>)
    requires
        model_wf(s),
        s.out.len() + phones.len() + 1 < usize::MAX,
    ensures
        model_wf(phones_model(s, phones)),
        phones_model(s, phones).out.len() <= s.out.len() + phones.len(),
        keeps_devices(s.out, phones_model(s, phones).out),
    decreases phones.len(),
{
    if phones.len() > 0 {
        let t = phones_model(s, phones.drop_last());
        lemma_phones_keep_devices(s, phones.drop_last());
        lemma_phone_keeps_devices(t, phones.last());
        lemma_step_phone_keeps_wf(t, phones.last());
        let u = phones_model(s, phones).out;
        assert forall|i: int| 0 <= i < s.out.len() implies #[trigger] u[i].port == s.out[i].port && u[i].icon
            == s.out[i].icon && u[i].color == s.out[i].color && u[i].vid == s.out[i].vid && u[i].pid
            == s.out[i].pid && u[i].manufacturer == s.out[i].manufacturer && u[i].description
            == s.out[i].description by {
            assert(t.out[i].port == s.out[i].port);
            assert(u[i].port == t.out[i].port);
        }
    }
}

/// The drives found by the disk pass stay listed, in order and with their
/// details, whatever the phone entries are: phones are only ever merged
/// into them or listed after them.
pub proof fn lemma_drives_survive_phones(inv: UsbInventory)
    requires
        inv.disks@.len() + inv.phones@.len() + 1 < usize::MAX,
    ensures
        ({
            let usb = spec_usb_disk_indices(inv.physical_disks@);
            let letters = spec_letter_map(inv.partition_letters@, spec_partition_map(inv.disk_partitions@));
            keeps_devices(disks_model(inv.disks@, usb, letters).out, spec_usb_extras(inv))
        }),
{
    let usb = spec_usb_disk_indices(inv.physical_disks@);
    let letters = spec_letter_map(inv.partition_letters@, spec_partition_map(inv.disk_partitions@));
    lemma_disks_model_wf(inv.disks@, usb, letters);
    lemma_phones_keep_devices(disks_model(inv.disks@, usb, letters), inv.phones@);
}

/// Phone rows leave the drive count and the indexes as they are.
pub proof fn lemma_phones_keep_indexes(s: ExtrasModel, phones: Seq<PnpEntityRow>)
    ensures
        phones_model(s, phones).drives == s.drives,
        phones_model(s, phones).serial_keys == s.serial_keys,
        phones_model(s, phones).serials == s.serials,
        phones_model(s, phones).letters == s.letters,
        phones_model(s, phones).names == s.names,
        phones_model(s, phones).pnpids == s.pnpids,
    decreases phones.len(),
{
    if phones.len() > 0 {
        lemma_phones_keep_indexes(s, phones.drop_last());
    }
}

/// With no drive listed, no phone entry is merged: each phone row is listed.
pub proof fn lemma_no_drives_lists_every_phone(phones: Seq<PnpEntityRow>)
    ensures
        phones_model(empty_model(), phones).out.len() == phones.len(),
    decreases phones.len(),
{
    if phones.len() > 0 {
        let t = phones_model(empty_model(), phones.drop_last());
        lemma_no_drives_lists_every_phone(phones.drop_last());
        lemma_phones_keep_indexes(empty_model(), phones.drop_last());
        let p = phones.last();
        let friendly = or_default(opt_string_view(p.name), "Unknown device"@);
        let device_id = or_default(opt_string_view(p.device_id), Seq::empty());
        let upper = spec_to_uppercase(device_id);
        assert(first_wrapper_hit(t.pnpids, upper) is None);
        assert(first_serial_hit(t.serial_keys, t.serials, upper) is None);
        assert(phone_match(t, friendly, upper) is None);
    }
}

/// A disk whose number is that of a physical disk on bus type 7 (USB) is
/// listed as a USB drive, whatever its interface type and PnP id: reading it
/// appends exactly its drive entry.
pub proof fn lemma_bus7_disk_is_listed(
    rows: Seq<PhysicalDiskRow>,
    disks: Seq<DiskDriveRow>,
    d: DiskDriveRow,
    letters: Map<i32, Seq<char>>,
    k: int,
)
    requires
        0 <= k < rows.len(),
        rows[k].bus_type == Some(7u16),
        rows[k].device_id matches Some(id) && d.index matches Some(n) && spec_parse_i32(trim(id@)) == Some(n),
    ensures
        disks_model(disks.push(d), spec_usb_disk_indices(rows), letters).out
            == disks_model(disks, spec_usb_disk_indices(rows), letters).out.push(drive_device(d, letters)),
{
    let usb = spec_usb_disk_indices(rows);
    let n = d.index->0;
    assert(row_usb_index(rows[k]) == Some(n));
    assert(usb.contains(n));
    assert(disks.push(d).drop_last() =~= disks);
}

/// Reading a disk row lists it exactly when its number is on the USB bus,
/// its interface type is "USB", or its upper-cased PnP id begins with
/// "USBSTOR"; a listed disk is appended at the end.
pub proof fn lemma_disk_usb_rule(s: ExtrasModel, d: DiskDriveRow, usb: Set<i32>, letters: Map<i32, Seq<char>>)
    ensures
        ({
            let listed = (d.index matches Some(n) && usb.contains(n))
                || (d.interface_type matches Some(t) && t@ == "USB"@)
                || (d.pnp_device_id matches Some(id) && "USBSTOR"@.len() <= spec_to_uppercase(id@).len()
                    && spec_to_uppercase(id@).take("USBSTOR"@.len() as int) == "USBSTOR"@);
            &&& listed ==> step_disk(s, d, usb, letters).out == s.out.push(drive_device(d, letters))
            &&& !listed ==> step_disk(s, d, usb, letters).out == s.out
        }),
{
}

/// Each recorded PnP id is paired with the position of the drive that has
/// it: the entry at that position is the drive entry of a disk row with
/// that PnP id.
pub proof fn lemma_pnpids_point_to_their_drive(disks: Seq<DiskDriveRow>, usb: Set<i32>, letters: Map<i32, Seq<char>>)
    requires
        disks.len() + 1 < usize::MAX,
    ensures
        ({
            let m = disks_model(disks, usb, letters);
            forall|j: int| #![trigger m.pnpids[j]] 0 <= j < m.pnpids.len() ==> exists|k: int| 0 <= k < disks.len()
                && opt_string_view((#[trigger] disks[k]).pnp_device_id) == Some(m.pnpids[j].0)
                && m.out[m.pnpids[j].1 as int] == drive_device(disks[k], letters)
        }),
    decreases disks.len(),
{
    if disks.len() > 0 {
        let front = disks.drop_last();
        let d = disks.last();
        let m0 = disks_model(front, usb, letters);
        let m = disks_model(disks, usb, letters);
        lemma_pnpids_point_to_their_drive(front, usb, letters);
        lemma_disks_model_wf(front, usb, letters);
        assert forall|j: int| #![trigger m.pnpids[j]] 0 <= j < m.pnpids.len() implies exists|k: int| 0 <= k < disks.len()
            && opt_string_view((#[trigger] disks[k]).pnp_device_id) == Some(m.pnpids[j].0)
            && m.out[m.pnpids[j].1 as int] == drive_device(disks[k], letters) by {
            if j < m0.pnpids.len() {
                assert(m.pnpids[j] == m0.pnpids[j]);
                assert(m0.pnpids[j].1 < m0.out.len());
                let k = choose|k: int| 0 <= k < front.len()
                    && opt_string_view((#[trigger] front[k]).pnp_device_id) == Some(m0.pnpids[j].0)
                    && m0.out[m0.pnpids[j].1 as int] == drive_device(front[k], letters);
                assert(front[k] == disks[k]);
                assert(m.out[m.pnpids[j].1 as int] == m0.out[m0.pnpids[j].1 as int]);
            } else {
                let k = disks.len() - 1;
                assert(disks[k] == d);
                assert(m.out[m.pnpids[j].1 as int] == drive_device(d, letters));
            }
        }
    }
}

proof fn lemma_first_wrapper_hit_at(ps: Seq<(Seq<char>, usize)>, upper: Seq<char>, j: int)
    requires
        0 <= j < ps.len(),
        spec_wpd_wraps(upper, spec_to_uppercase(ps[j].0)),
        forall|q: int| 0 <= q < j ==> !spec_wpd_wraps(upper, spec_to_uppercase(#[trigger] ps[q].0)),
    ensures
        first_wrapper_hit(ps, upper) == Some(ps[j].1),
    decreases ps.len(),
{
    if j < ps.len() - 1 {
        assert(ps.drop_last()[j] == ps[j]);
        assert forall|q: int| 0 <= q < j implies !spec_wpd_wraps(upper, spec_to_uppercase(#[trigger] ps.drop_last()[q].0)) by {
            assert(ps.drop_last()[q] == ps[q]);
        }
        lemma_first_wrapper_hit_at(ps.drop_last(), upper, j);
    } else {
        lemma_no_wrapper_hit(ps.drop_last(), upper);
    }
}

proof fn lemma_no_wrapper_hit(ps: Seq<(Seq<char>, usize)>, upper: Seq<char>)
    requires
        forall|q: int| 0 <= q < ps.len() ==> !spec_wpd_wraps(upper, spec_to_uppercase(#[trigger] ps[q].0)),
    ensures
        first_wrapper_hit(ps, upper) is None,
    decreases ps.len(),
{
    if ps.len() > 0 {
        assert forall|q: int| 0 <= q < ps.drop_last().len() implies !spec_wpd_wraps(upper, spec_to_uppercase(#[trigger] ps.drop_last()[q].0)) by {
            assert(ps.drop_last()[q] == ps[q]);
        }
        lemma_no_wrapper_hit(ps.drop_last(), upper);
        assert(!spec_wpd_wraps(upper, spec_to_uppercase(ps[ps.len() - 1].0)));
    }
}

/// A phone row that is the WPD wrapper of the drive recorded at position
/// `i` (and of no drive recorded before it) changes only the device at `i`:
/// that device takes the phone's name, unless the name is blank or is the
/// device's own letter, and keeps everything else; every other device stays
/// exactly as it was.
pub proof fn lemma_wrapper_renames_its_drive(s: ExtrasModel, p: PnpEntityRow, j: int)
    requires
        model_wf(s),
        0 <= j < s.pnpids.len(),
        spec_wpd_wraps(
            spec_to_uppercase(or_default(opt_string_view(p.device_id), Seq::empty())),
            spec_to_uppercase(s.pnpids[j].0),
        ),
        forall|q: int| 0 <= q < j ==> !spec_wpd_wraps(
            spec_to_uppercase(or_default(opt_string_view(p.device_id), Seq::empty())),
            spec_to_uppercase(#[trigger] s.pnpids[q].0),
        ),
    ensures
        ({
            let i = s.pnpids[j].1 as int;
            let friendly = or_default(opt_string_view(p.name), "Unknown device"@);
            let t = step_phone(s, p).out;
            let takes_name = trim(friendly).len() > 0 && spec_to_uppercase(trim_end_matches(trim(friendly), '\\'))
                != spec_to_uppercase(trim_end_matches(s.out[i].port, '\\'));
            &&& t.len() == s.out.len()
            &&& forall|k: int| 0 <= k < t.len() && k != i ==> #[trigger] t[k] == s.out[k]
            &&& t[i].name == (if takes_name { friendly } else { s.out[i].name })
            &&& t[i].port == s.out[i].port
            &&& t[i].icon == s.out[i].icon
            &&& t[i].color == s.out[i].color
            &&& t[i].vid == s.out[i].vid
            &&& t[i].pid == s.out[i].pid
            &&& t[i].manufacturer == s.out[i].manufacturer
            &&& t[i].description == s.out[i].description
        }),
{
    let device_id = or_default(opt_string_view(p.device_id), Seq::empty());
    lemma_first_wrapper_hit_at(s.pnpids, spec_to_uppercase(device_id), j);
    assert(s.pnpids[j].1 < s.out.len());
}

} // verus!
