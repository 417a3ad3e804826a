//! Configuration records consumed by the driver core.
use vstd::prelude::*;

verus! {

/// The full configuration document: device identity, pen limits, key
/// bindings and axis transform flags.
#[derive(Debug, Clone)]
pub struct Config {
    /// Name given to the virtual input devices.
    pub xinput_name: String,
    pub vendor_id: u16,
    pub product_id: u16,
    /// Address of the interrupt endpoint that carries the tablet's reports.
    pub interface: u8,
    pub pen: PenConfig,
    pub actions: ActionsConfig,
    pub settings: SettingsConfig,
}

/// Physical limits of the pen digitizer.
#[derive(Debug, Clone, Copy, PartialEq, Eq, Structural)]
pub struct PenConfig {
    pub max_x: u32,
    pub max_y: u32,
    pub max_pressure: u32,
    pub resolution_x: u32,
    pub resolution_y: u32,
}

/// Key bindings, by key name (`"BTN_LEFT"`, `"KEY_A"`); each tablet button
/// entry is a combo of names joined by `+` (`"KEY_LEFTCTRL+KEY_Z"`).
#[derive(Debug, Clone)]
pub struct ActionsConfig {
    pub pen: String,
    pub stylus: String,
    pub pen_touch: String,
    pub tablet_buttons: Vec<String>,
}

/// Axis transform flags.
#[derive(Debug, Clone, Copy, PartialEq, Eq, Structural)]
pub struct SettingsConfig {
    pub swap_axis: bool,
    pub swap_direction_x: bool,
    pub swap_direction_y: bool,
}

/// Which USB device the driver serves, and which endpoint it reads.
#[derive(Debug, Clone, Copy, PartialEq, Eq, Structural)]
pub struct DeviceIdentity {
    pub vendor_id: u16,
    pub product_id: u16,
    pub interface_endpoint: u8,
}

impl Config {
    /// The device identity part of the configuration.
    pub fn identity(&self) -> (r: DeviceIdentity)
        ensures
            r.vendor_id == self.vendor_id,
            r.product_id == self.product_id,
            r.interface_endpoint == self.interface,
    {
        DeviceIdentity {
            vendor_id: self.vendor_id,
            product_id: self.product_id,
            interface_endpoint: self.interface,
        }
    }
}

} // verus!
