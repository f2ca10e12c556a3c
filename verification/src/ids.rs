//! Reading Windows device identifiers: device kinds, vendor/product ids,
//! USB serials, WMI object references and physical drive numbers.

use vstd::prelude::*;
use crate::text::{
    after_last, after_last_chars, before_first, before_first_chars, chars_of, collapse_backslashes,
    collapse_backslashes_chars, contains, contains_chars, first_index_of, first_index_of_chars,
    first_occurrence, first_occurrence_chars, last_occurrence, last_occurrence_chars,
    occurs_at, matches_at, parse_i32_chars, replace_char,
    replace_char_chars, spec_parse_i32, spec_to_lowercase, spec_to_uppercase, split_char,
    split_chars, starts_with, starts_with_chars, str_eq, string_of, sub_chars, to_lowercase,
    to_uppercase, trim, trim_chars, views, find_from,
};

verus! {

/// The characters of an optional string slice.
pub open spec fn opt_view(o: Option<&str>) -> Option<Seq<char>> {
    match o {
        Some(s) => Some(s@),
        None => None,
    }
}

// ---------------------------------------------------------------------------
// Device kinds
// ---------------------------------------------------------------------------

/// The kind of a phone whose friendly name, lower-cased, is `lower`: an
/// iPhone when that name mentions "iphone" or "apple" or the PnP class is
/// "AppleUSB", an Android phone otherwise.
pub open spec fn phone_kind(lower: Seq<char>, pnp_class: Option<Seq<char>>) -> Seq<char> {
    if contains(lower, "iphone"@) || contains(lower, "apple"@) || pnp_class == Some("AppleUSB"@) {
        "iphone"@
    } else {
        "android"@
    }
}

/// The phone kind, given the friendly name already lower-cased.
pub fn classify_phone_lowered(lower: &str, pnp_class: Option<&str>) -> (r: &'static str)
    ensures
        r@ == phone_kind(lower@, opt_view(pnp_class)),
{
    let l = chars_of(lower);
    let iphone = chars_of("iphone");
    let apple = chars_of("apple");
    let is_apple_class = match pnp_class {
        Some(c) => str_eq(c, "AppleUSB"),
        None => false,
    };
    if contains_chars(&l, &iphone) || contains_chars(&l, &apple) || is_apple_class {
        "iphone"
    } else {
        "android"
    }
}

/// The phone kind of a WPD/AppleUSB entity, from its friendly name and PnP class.
pub fn classify_phone(friendly_name: &str, pnp_class: Option<&str>) -> (r: &'static str)
    ensures
        r@ == phone_kind(spec_to_lowercase(friendly_name@), opt_view(pnp_class)),
{
    let lower = to_lowercase(friendly_name);
    classify_phone_lowered(lower.as_str(), pnp_class)
}

/// The kind of a drive whose media type, lower-cased, is `lower`: a USB
/// stick when it mentions "removable", an external disk otherwise.
pub open spec fn drive_kind(lower: Option<Seq<char>>) -> Seq<char> {
    if lower matches Some(l) && contains(l, "removable"@) {
        "usb_drive"@
    } else {
        "external_hdd"@
    }
}

/// The lower-cased characters of an optional media type.
pub open spec fn lowered(o: Option<Seq<char>>) -> Option<Seq<char>> {
    match o {
        Some(s) => Some(spec_to_lowercase(s)),
        None => None,
    }
}

/// The drive kind, given the media type already lower-cased.
pub fn classify_drive_lowered(lower: Option<&str>) -> (r: &'static str)
    ensures
        r@ == drive_kind(opt_view(lower)),
{
    match lower {
        Some(l) => {
            let lv = chars_of(l);
            let removable = chars_of("removable");
            if contains_chars(&lv, &removable) {
                "usb_drive"
            } else {
                "external_hdd"
            }
        },
        None => "external_hdd",
    }
}

/// The drive kind of a disk, from its WMI media type.
pub fn classify_drive(media_type: Option<&str>) -> (r: &'static str)
    ensures
        r@ == drive_kind(lowered(opt_view(media_type))),
{
    match media_type {
        Some(mt) => {
            let lower = to_lowercase(mt);
            classify_drive_lowered(Some(lower.as_str()))
        },
        None => classify_drive_lowered(None),
    }
}

/// A phone is an iPhone exactly when its lower-cased name holds "iphone" or
/// "apple" somewhere, or its PnP class is exactly "AppleUSB"; every other
/// phone is an Android phone.
pub proof fn lemma_phone_kind_rule(lower: Seq<char>, pnp_class: Option<Seq<char>>)
    ensures
        ({
            let apple_name = (exists|i: int| 0 <= i && i + "iphone"@.len() <= lower.len() && #[trigger] lower.subrange(i, i + "iphone"@.len()) == "iphone"@)
                || (exists|i: int| 0 <= i && i + "apple"@.len() <= lower.len() && #[trigger] lower.subrange(i, i + "apple"@.len()) == "apple"@);
            let apple_class = pnp_class == Some("AppleUSB"@);
            &&& (phone_kind(lower, pnp_class) == "iphone"@ <==> apple_name || apple_class)
            &&& (phone_kind(lower, pnp_class) == "android"@ <==> !(apple_name || apple_class))
        }),
{
    reveal_strlit("iphone");
    reveal_strlit("android");
    assert("iphone"@.len() != "android"@.len());
    if exists|i: int| 0 <= i && i + "iphone"@.len() <= lower.len() && #[trigger] lower.subrange(i, i + "iphone"@.len()) == "iphone"@ {
        let i = choose|i: int| 0 <= i && i + "iphone"@.len() <= lower.len() && #[trigger] lower.subrange(i, i + "iphone"@.len()) == "iphone"@;
        assert(occurs_at(lower, "iphone"@, i));
    }
    if exists|i: int| 0 <= i && i + "apple"@.len() <= lower.len() && #[trigger] lower.subrange(i, i + "apple"@.len()) == "apple"@ {
        let i = choose|i: int| 0 <= i && i + "apple"@.len() <= lower.len() && #[trigger] lower.subrange(i, i + "apple"@.len()) == "apple"@;
        assert(occurs_at(lower, "apple"@, i));
    }
}

/// A drive is a USB stick exactly when it has a media type whose lower-cased
/// text holds "removable" somewhere; every other drive, and one without a
/// media type, is an external disk.
pub proof fn lemma_drive_kind_rule(lower: Option<Seq<char>>)
    ensures
        ({
            let removable = lower matches Some(l) && exists|i: int| 0 <= i && i + "removable"@.len() <= l.len()
                && #[trigger] l.subrange(i, i + "removable"@.len()) == "removable"@;
            &&& (drive_kind(lower) == "usb_drive"@ <==> removable)
            &&& (drive_kind(lower) == "external_hdd"@ <==> !removable)
        }),
{
    reveal_strlit("usb_drive");
    reveal_strlit("external_hdd");
    assert("usb_drive"@.len() != "external_hdd"@.len());
    if let Some(l) = lower {
        if exists|i: int| 0 <= i && i + "removable"@.len() <= l.len() && #[trigger] l.subrange(i, i + "removable"@.len()) == "removable"@ {
            let i = choose|i: int| 0 <= i && i + "removable"@.len() <= l.len() && #[trigger] l.subrange(i, i + "removable"@.len()) == "removable"@;
            assert(occurs_at(l, "removable"@, i));
        }
    }
}

// ---------------------------------------------------------------------------
// Vendor and product ids
// ---------------------------------------------------------------------------

/// The value of the last segment in `segs` that starts with `tag`, without the tag.
pub open spec fn last_tagged(segs: Seq<Seq<char>>, tag: Seq<char>) -> Option<Seq<char>>
    decreases segs.len(),
{
    if segs.len() == 0 {
        None
    } else if starts_with(segs.last(), tag) {
        Some(segs.last().skip(tag.len() as int))
    } else {
        last_tagged(segs.drop_last(), tag)
    }
}

/// The value of the field `tag` (`"VID_"` or `"PID_"`) in the `\`-separated
/// parts of an instance id: the parts that start with `"VID_"` are split at
/// `&`, and the last segment, over all of them, that starts with `tag` wins.
pub open spec fn id_field(parts: Seq<Seq<char>>, tag: Seq<char>) -> Option<Seq<char>>
    decreases parts.len(),
{
    if parts.len() == 0 {
        None
    } else if starts_with(parts.last(), "VID_"@) && last_tagged(split_char(parts.last(), '&'), tag) is Some {
        last_tagged(split_char(parts.last(), '&'), tag)
    } else {
        id_field(parts.drop_last(), tag)
    }
}

/// The vendor (`tag == "VID_"`) or product (`tag == "PID_"`) id that an
/// instance id names, `"?"` when it names none.
pub open spec fn vid_pid_field(instance_id: Seq<char>, tag: Seq<char>) -> Seq<char> {
    match id_field(split_char(instance_id, '\\'), tag) {
        Some(v) => v,
        None => "?"@,
    }
}

fn last_tagged_chars(segs: &Vec<Vec<char>>, tag: &Vec<char>) -> (r: Option<Vec<char>>)
    ensures
        match r {
            Some(v) => last_tagged(views(segs@), tag@) == Some(v@),
            None => last_tagged(views(segs@), tag@) is None,
        },
{
    let mut r: Option<Vec<char>> = None;
    let mut j: usize = 0;
    while j < segs.len()
        invariant
            j <= segs.len(),
            match r {
                Some(v) => last_tagged(views(segs@).take(j as int), tag@) == Some(v@),
                None => last_tagged(views(segs@).take(j as int), tag@) is None,
            },
        decreases segs.len() - j,
    {
        let seg = &segs[j];
        assert(views(segs@).take(j + 1).drop_last() =~= views(segs@).take(j as int));
        assert(views(segs@).take(j + 1).last() == seg@);
        if starts_with_chars(seg, tag) {
            let v = sub_chars(seg, tag.len(), seg.len());
            assert(v@ =~= seg@.skip(tag@.len() as int));
            r = Some(v);
        }
        j += 1;
    }
    assert(views(segs@).take(segs.len() as int) =~= views(segs@));
    r
}

fn id_field_chars(parts: &Vec<Vec<char>>, tag: &Vec<char>) -> (r: Option<Vec<char>>)
    ensures
        match r {
            Some(v) => id_field(views(parts@), tag@) == Some(v@),
            None => id_field(views(parts@), tag@) is None,
        },
{
    let vid_prefix = chars_of("VID_");
    let mut r: Option<Vec<char>> = None;
    let mut i: usize = 0;
    while i < parts.len()
        invariant
            i <= parts.len(),
            vid_prefix@ == "VID_"@,
            match r {
                Some(v) => id_field(views(parts@).take(i as int), tag@) == Some(v@),
                None => id_field(views(parts@).take(i as int), tag@) is None,
            },
        decreases parts.len() - i,
    {
        let part = &parts[i];
        assert(views(parts@).take(i + 1).drop_last() =~= views(parts@).take(i as int));
        assert(views(parts@).take(i + 1).last() == part@);
        if starts_with_chars(part, &vid_prefix) {
            let segs = split_chars(part, '&');
            match last_tagged_chars(&segs, tag) {
                Some(v) => {
                    r = Some(v);
                },
                None => {},
            }
        }
        i += 1;
    }
    assert(views(parts@).take(parts.len() as int) =~= views(parts@));
    r
}

/// The vendor and product ids in a Windows instance id such as
/// `USB\VID_04E8&PID_6860\R58N...`; `"?"` for each one that is absent.
pub fn extract_vid_pid(instance_id: &str) -> (r: (String, String))
    ensures
        r.0@ == vid_pid_field(instance_id@, "VID_"@),
        r.1@ == vid_pid_field(instance_id@, "PID_"@),
{
    let id = chars_of(instance_id);
    let parts = split_chars(&id, '\\');
    let vid_tag = chars_of("VID_");
    let pid_tag = chars_of("PID_");
    let vid = match id_field_chars(&parts, &vid_tag) {
        Some(v) => string_of(&v),
        None => string_of(&chars_of("?")),
    };
    let pid = match id_field_chars(&parts, &pid_tag) {
        Some(v) => string_of(&v),
        None => string_of(&chars_of("?")),
    };
    (vid, pid)
}

// ---------------------------------------------------------------------------
// Serials
// ---------------------------------------------------------------------------

/// The candidate serial of an instance id: its last `\`-separated part, up to
/// the first `&`, trimmed.
pub open spec fn serial_token(instance_id: Seq<char>) -> Seq<char> {
    trim(before_first(after_last(instance_id, '\\'), '&'))
}

/// The USB serial of an instance id, upper-cased; none when its token is empty.
pub open spec fn spec_extract_serial(instance_id: Seq<char>) -> Option<Seq<char>> {
    let t = serial_token(instance_id);
    if t.len() == 0 {
        None
    } else {
        Some(spec_to_uppercase(t))
    }
}

/// The candidate serial of an instance id, before upper-casing.
pub fn serial_token_of(instance_id: &str) -> (r: String)
    ensures
        r@ == serial_token(instance_id@),
{
    let id = chars_of(instance_id);
    let last = after_last_chars(&id, '\\');
    let first = before_first_chars(&last, '&');
    let t = trim_chars(&first);
    string_of(&t)
}

/// Extracts a USB serial from the tail of a Windows instance ID.
pub fn extract_serial(instance_id: &str) -> (r: Option<String>)
    ensures
        match r {
            Some(s) => spec_extract_serial(instance_id@) == Some(s@),
            None => spec_extract_serial(instance_id@) is None,
        },
{
    let token = serial_token_of(instance_id);
    if token.as_str().is_empty() {
        None
    } else {
        Some(to_uppercase(token.as_str()))
    }
}

/// `c` ends or starts a token of an instance id.
pub open spec fn is_sep(c: char) -> bool {
    c == '\\' || c == '&'
}

/// `serial` occurs in `id` at `i` as a whole token: what precedes it is the
/// start of `id`, `\` or `&`, and so is what follows it.
pub open spec fn token_at(id: Seq<char>, serial: Seq<char>, i: int) -> bool {
    &&& occurs_at(id, serial, i)
    &&& (i == 0 || is_sep(id[i - 1]))
    &&& (i + serial.len() == id.len() || is_sep(id[i + serial.len()]))
}

/// `serial` is at least 6 characters long and occurs in `id` as a whole token.
pub open spec fn spec_serial_matches(id: Seq<char>, serial: Seq<char>) -> bool {
    serial.len() >= 6 && exists|i: int| token_at(id, serial, i)
}

pub fn is_sep_char(c: char) -> (r: bool)
    ensures
        r == is_sep(c),
{
    c == '\\' || c == '&'
}

/// Whether `serial` occurs in `id` at `i` as a whole token.
pub fn token_at_chars(id: &Vec<char>, serial: &Vec<char>, i: usize) -> (r: bool)
    ensures
        r == token_at(id@, serial@, i as int),
{
    if !matches_at(id, serial, i) {
        return false;
    }
    let before_ok = i == 0 || is_sep_char(id[i - 1]);
    assert(i + serial.len() <= id.len());
    let after = i + serial.len();
    let after_ok = after == id.len() || is_sep_char(id[after]);
    before_ok && after_ok
}

/// Matches `serial` as a bounded token (edges: `\`, `&`, or string ends),
/// not a raw substring; rejects serials under 6 chars, since some
/// PNPDeviceID formats yield a degenerate near-universal fragment.
pub fn serial_matches(device_id_upper: &str, serial: &str) -> (r: bool)
    ensures
        r == spec_serial_matches(device_id_upper@, serial@),
{
    let id = chars_of(device_id_upper);
    let pat = chars_of(serial);
    if pat.len() < 6 {
        return false;
    }
    let mut start: usize = 0;
    loop
        invariant
            start <= id.len() + 1,
            pat.len() > 0,
            id@ == device_id_upper@,
            pat@ == serial@,
            serial@.len() >= 6,
            forall|j: int| 0 <= j < start ==> !token_at(id@, pat@, j),
        decreases id.len() + 1 - start,
    {
        match find_from(&id, &pat, start) {
            None => {
                assert forall|j: int| !token_at(id@, pat@, j) by {
                    if start <= j {
                        assert(!occurs_at(id@, pat@, j));
                    }
                }
                return false;
            },
            Some(i) => {
                if token_at_chars(&id, &pat, i) {
                    return true;
                }
                start = i + 1;
            },
        }
    }
}

/// True when `wpd_id_upper` is the WPDBUSENUM wrapper of the disk whose
/// upper-cased PnP id is `disk_upper`: it has the form
/// `SWD\WPDBUSENUM\_??_<disk id, '\'->'#'>#{GUID}`, where the rewritten id
/// must not be empty.
pub open spec fn spec_wpd_wraps(wpd_id_upper: Seq<char>, disk_upper: Seq<char>) -> bool {
    let transformed = replace_char(disk_upper, '\\', '#');
    transformed.len() > 0 && starts_with(wpd_id_upper, "SWD\\WPDBUSENUM\\_??_"@ + transformed + "#{"@)
}

/// The WPD wrapper test, given the disk's PnP id already upper-cased.
pub fn wpd_wraps_disk_upper(wpd_device_id_upper: &str, disk_upper: &str) -> (r: bool)
    ensures
        r == spec_wpd_wraps(wpd_device_id_upper@, disk_upper@),
{
    let w = chars_of(wpd_device_id_upper);
    let d = chars_of(disk_upper);
    let transformed = replace_char_chars(&d, '\\', '#');
    if transformed.len() == 0 {
        return false;
    }
    let mut pattern = chars_of("SWD\\WPDBUSENUM\\_??_");
    let ghost prefix = pattern@;
    let mut i: usize = 0;
    while i < transformed.len()
        invariant
            i <= transformed.len(),
            pattern@ == prefix + transformed@.take(i as int),
        decreases transformed.len() - i,
    {
        pattern.push(transformed[i]);
        assert(transformed@.take(i + 1) =~= transformed@.take(i as int).push(transformed@[i as int]));
        i += 1;
    }
    assert(transformed@.take(transformed.len() as int) =~= transformed@);
    pattern.push('#');
    pattern.push('{');
    proof {
        reveal_strlit("#{");
    }
    assert(pattern@ =~= prefix + transformed@ + "#{"@);
    starts_with_chars(&w, &pattern)
}

/// True if `wpd_device_id_upper` is Windows' WPDBUSENUM wrapper around
/// `disk_pnp_device_id` (format: `SWD\WPDBUSENUM\_??_<disk id, '\'->'#'>#{GUID}`),
/// i.e. the same physical disk exposed a second time as a WPD entity.
pub fn wpd_wraps_disk(wpd_device_id_upper: &str, disk_pnp_device_id: &str) -> (r: bool)
    ensures
        r == spec_wpd_wraps(wpd_device_id_upper@, spec_to_uppercase(disk_pnp_device_id@)),
{
    let upper = to_uppercase(disk_pnp_device_id);
    wpd_wraps_disk_upper(wpd_device_id_upper, upper.as_str())
}

// ---------------------------------------------------------------------------
// WMI association references
// ---------------------------------------------------------------------------

/// The `DeviceID` named in a WMI object reference such as
/// `\\HOST\root\cimv2:Win32_DiskPartition.DeviceID="Disk #1, Partition #0"`:
/// the text between `DeviceID="` and the next `"`, with doubled backslashes
/// collapsed.
pub open spec fn spec_extract_device_id(wmi_ref: Seq<char>) -> Option<Seq<char>> {
    match first_occurrence(wmi_ref, "DeviceID=\""@) {
        None => None,
        Some(p) => {
            let rest = wmi_ref.skip(p + 10);
            match first_index_of(rest, '"') {
                None => None,
                Some(q) => Some(collapse_backslashes(rest.take(q))),
            }
        },
    }
}

/// The `DeviceID` that a WMI object reference names.
pub fn extract_device_id(wmi_ref: &str) -> (r: Option<String>)
    ensures
        match r {
            Some(s) => spec_extract_device_id(wmi_ref@) == Some(s@),
            None => spec_extract_device_id(wmi_ref@) is None,
        },
{
    let w = chars_of(wmi_ref);
    let key = chars_of("DeviceID=\"");
    proof {
        reveal_strlit("DeviceID=\"");
    }
    assert(key@.len() == 10);
    let p = match first_occurrence_chars(&w, &key) {
        Some(p) => p,
        None => return None,
    };
    assert(p + key.len() <= w.len());
    let rest = sub_chars(&w, p + 10, w.len());
    assert(rest@ =~= w@.skip(p + 10));
    let q = match first_index_of_chars(&rest, '"') {
        Some(q) => q,
        None => return None,
    };
    let inner = sub_chars(&rest, 0, q);
    assert(inner@ =~= rest@.take(q as int));
    let collapsed = collapse_backslashes_chars(&inner);
    Some(string_of(&collapsed))
}

/// The text of an upper-cased device id after its last `PHYSICALDRIVE`
/// (all of it when there is none).
pub open spec fn drive_number_text(upper: Seq<char>) -> Seq<char> {
    match last_occurrence(upper, "PHYSICALDRIVE"@) {
        Some(i) => upper.skip(i + 13),
        None => upper,
    }
}

/// The drive number of an upper-cased device id such as `\\.\PHYSICALDRIVE1`.
pub fn physical_drive_index_upper(upper: &str) -> (r: Option<i32>)
    ensures
        r == spec_parse_i32(drive_number_text(upper@)),
{
    let u = chars_of(upper);
    let key = chars_of("PHYSICALDRIVE");
    proof {
        reveal_strlit("PHYSICALDRIVE");
    }
    assert(key@.len() == 13);
    let text = match last_occurrence_chars(&u, &key) {
        Some(i) => {
            assert(i + key.len() <= u.len());
            let t = sub_chars(&u, i + 13, u.len());
            assert(t@ =~= u@.skip(i + 13));
            t
        },
        None => u,
    };
    parse_i32_chars(&text)
}

/// The drive number of a device id such as `\\.\PhysicalDrive1`.
pub fn extract_physical_drive_index(device_id: &str) -> (r: Option<i32>)
    ensures
        r == spec_parse_i32(drive_number_text(spec_to_uppercase(device_id@))),
{
    let upper = to_uppercase(device_id);
    physical_drive_index_upper(upper.as_str())
}

} // verus!
