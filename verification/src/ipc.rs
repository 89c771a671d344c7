//! The messages the HTML frontend sends to the program.

use vstd::prelude::*;
use crate::hardware::CurvePoint;

verus! {

/// Messages the HTML frontend can send through `window.ipc.postMessage(...)`.
#[derive(Debug)]
pub enum IpcMessage {
    /// Apply a fan curve to a specific fan.
    SetCurve { fan_id: String, points: Vec<CurvePoint> },
    /// Set a fixed speed (0 to 100 %).
    SetSpeed { fan_id: String, rpm_percent: u8 },
    /// Reset a fan to default/automatic control.
    ResetToDefault { fan_id: String },
    /// Rescan all hardware.
    Rescan,
    /// Reset every fan to automatic BIOS control.
    ResetAll,
    /// Rename a fan.
    RenameFan { fan_id: String, label: String },
    /// Save a per-fan curve as part of the Custom profile.
    SaveCustomProfile { fan_id: String, points: Vec<CurvePoint> },
}

} // verus!
