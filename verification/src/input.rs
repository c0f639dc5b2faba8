//! Plain models of the values the input side hands the library.

use vstd::prelude::*;

verus! {

/// A human-readable description of one input device.
#[derive(Debug, Clone)]
pub struct DeviceInfo {
    pub name: String,
}

/// One event from an input device: a key press identified by its raw key
/// code, with the device it came from.
#[derive(Debug)]
pub enum AppEvent {
    Key { code: u16, info: DeviceInfo },
}

} // verus!
