//! The Bluetooth support daemon: the records of the devices and adapters it
//! knows of (each with an id, whether it is active, and its MAC address), and
//! the decisions it takes while it walks through the devices around.

use vstd::prelude::*;
use std::collections::HashMap;

verus! {

/// What the daemon knows: whether it is looking up devices, and which
/// devices and adapters it has seen, each marked active or not.
pub struct BtlSupport {
    lookup: bool,
    devices: HashMap<Device, bool>,
    adapters: HashMap<Adapter, bool>,
}

/// A device.
pub struct Device {
    id: u128,
    active: bool,
    mac_addr: String,
}

/// An adapter.
pub struct Adapter {
    id: u128,
    active: bool,
    mac_addr: String,
}

/// An adapter as a scan finds it.
pub struct AdapterReal {
    id: u128,
    active: bool,
    mac_addr: String,
}

/// What the daemon does with a device found by a scan.
#[derive(Debug, PartialEq, Eq)]
pub enum DeviceAction {
    /// The device advertises this name: connect to it and explore its services.
    Explore(String),
    /// The device advertises no name: keep looking.
    KeepLooking,
    /// The device reported no properties at all, a case the daemon does not handle.
    NoProperties,
}

/// Decides what to do with a device, given its properties as reported (if any)
/// and, within them, the name it advertises (if any).
pub fn plan_device(local_name: Option<Option<String>>) -> (r: DeviceAction)
    ensures
        match local_name {
            None => r == DeviceAction::NoProperties,
            Some(None) => r == DeviceAction::KeepLooking,
            Some(Some(n)) => r matches DeviceAction::Explore(m) && m@ == n@,
        },
{
    match local_name {
        None => DeviceAction::NoProperties,
        Some(None) => DeviceAction::KeepLooking,
        Some(Some(n)) => DeviceAction::Explore(n),
    }
}

/// The adapter the daemon uses among `count` found: the last one listed, or
/// none when there is no adapter.
pub fn daemon_adapter(count: usize) -> (r: Option<usize>)
    ensures
        count == 0 ==> r is None,
        count > 0 ==> r == Some((count - 1) as usize),
{
    if count == 0 {
        None
    } else {
        Some(count - 1)
    }
}

/// What the daemon does once it has tried to connect to a device.
#[derive(Debug, Clone, Copy, PartialEq, Eq)]
pub enum DeviceStep {
    /// The connection is made: discover the device's services.
    DiscoverServices,
    /// The connection failed: skip the device.
    SkipDevice,
}

/// Decides the step after a connection attempt: a failed connection skips the
/// device, a connection made leads to its services.
pub fn after_connect_attempt(connected: bool) -> (r: DeviceStep)
    ensures
        r == (if connected { DeviceStep::DiscoverServices } else { DeviceStep::SkipDevice }),
{
    if connected {
        DeviceStep::DiscoverServices
    } else {
        DeviceStep::SkipDevice
    }
}

/// The bit of a characteristic's property flags that says it can notify.
pub const NOTIFY_FLAG: u8 = 0x10;

/// How many notifications the daemon reads from each characteristic it subscribes to.
pub const NOTIFICATIONS_PER_CHARACTERISTIC: usize = 4;

/// Whether the daemon subscribes to a characteristic with these property
/// flags: exactly when it can notify.
pub fn subscribes_to(flags: u8) -> (r: bool)
    ensures
        r == (flags & NOTIFY_FLAG != 0),
{
    flags & NOTIFY_FLAG != 0
}

} // verus!
