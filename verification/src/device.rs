//! The record shown for each detected device.

use vstd::prelude::*;

verus! {

/// One detected device: where it is attached, how it is labelled and shown,
/// and the details listed in the tooltip.
pub struct DeviceInfo {
    pub port: String,
    pub name: String,
    pub icon: String,
    pub color: String,
    pub vid: String,
    pub pid: String,
    pub manufacturer: String,
    pub description: String,
}

/// The characters of each field of a [`DeviceInfo`].
#[verifier::ext_equal]
pub struct DeviceSpec {
    pub port: Seq<char>,
    pub name: Seq<char>,
    pub icon: Seq<char>,
    pub color: Seq<char>,
    pub vid: Seq<char>,
    pub pid: Seq<char>,
    pub manufacturer: Seq<char>,
    pub description: Seq<char>,
}

impl View for DeviceInfo {
    type V = DeviceSpec;

    open spec fn view(&self) -> DeviceSpec {
        DeviceSpec {
            port: self.port@,
            name: self.name@,
            icon: self.icon@,
            color: self.color@,
            vid: self.vid@,
            pid: self.pid@,
            manufacturer: self.manufacturer@,
            description: self.description@,
        }
    }
}

/// The views of a sequence of devices.
pub open spec fn device_views(v: Seq<DeviceInfo>) -> Seq<DeviceSpec> {
    v.map_values(|d: DeviceInfo| d@)
}

/// The characters of an optional string.
pub open spec fn opt_string_view(o: Option<String>) -> Option<Seq<char>> {
    match o {
        Some(s) => Some(s@),
        None => None,
    }
}

/// The characters of an optional string, or `default` when there is none.
pub open spec fn or_default(o: Option<Seq<char>>, default: Seq<char>) -> Seq<char> {
    match o {
        Some(s) => s,
        None => default,
    }
}

/// A copy of an optional string, or of `default` when there is none.
pub fn string_or(o: &Option<String>, default: &str) -> (r: String)
    ensures
        r@ == or_default(opt_string_view(*o), default@),
{
    match o {
        Some(s) => s.clone(),
        None => default.to_owned(),
    }
}

} // verus!
