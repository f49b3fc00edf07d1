pub mod linux;
pub mod macos;
pub mod windows;

use vstd::prelude::*;

verus! {

/// Where an input event came from.
#[derive(Debug, Clone, Copy, PartialEq, Eq, Structural)]
pub enum InputSource {
    PhysicalHardware,
    SyntheticSoftware,
    Unknown,
}

/// One keyboard or mouse event seen by a platform hook. `timestamp` is a
/// reading of the daemon's monotonic clock, in milliseconds.
#[derive(Debug, Clone)]
pub struct InputEvent {
    pub source: InputSource,
    pub pid: Option<u32>,
    pub device_name: Option<String>,
    pub timestamp: u64,
}

/// Whether the platform lets the daemon install low-level input hooks.
#[derive(Debug, Clone)]
pub struct PermissionStatus {
    pub hooks_available: bool,
    pub elevation_granted: bool,
    pub message: String,
}

/// An input device as the platform lists it.
#[derive(Debug, Clone)]
pub struct InputDeviceInfo {
    pub name: String,
    pub vendor_id: Option<u16>,
    pub product_id: Option<u16>,
    pub bus_type: String,
    pub is_virtual: bool,
}

pub struct DeviceView {
    pub name: Seq<char>,
    pub vendor_id: Option<u16>,
    pub product_id: Option<u16>,
    pub bus_type: Seq<char>,
    pub is_virtual: bool,
}

impl View for InputDeviceInfo {
    type V = DeviceView;

    open spec fn view(&self) -> DeviceView {
        DeviceView {
            name: self.name@,
            vendor_id: self.vendor_id,
            product_id: self.product_id,
            bus_type: self.bus_type@,
            is_virtual: self.is_virtual,
        }
    }
}

/// A remote or secondary desktop session found on the host.
#[derive(Debug, Clone)]
pub struct RemoteSessionInfo {
    pub session_type: String,
    pub identifier: String,
    pub details: String,
}

pub struct SessionView {
    pub session_type: Seq<char>,
    pub identifier: Seq<char>,
    pub details: Seq<char>,
}

impl View for RemoteSessionInfo {
    type V = SessionView;

    open spec fn view(&self) -> SessionView {
        SessionView {
            session_type: self.session_type@,
            identifier: self.identifier@,
            details: self.details@,
        }
    }
}

/// The polling hook threads report physical input when the system idle time
/// went down or is zero.
pub fn input_seen(last_idle_secs: u64, current_idle_secs: u64) -> (r: bool)
    ensures
        r == (current_idle_secs < last_idle_secs || current_idle_secs == 0),
{
    current_idle_secs < last_idle_secs || current_idle_secs == 0
}

} // verus!
