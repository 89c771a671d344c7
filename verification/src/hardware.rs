//! Fan model types and the logic of the hardware backends.

pub mod controller;
pub mod curve;
pub mod error;
pub mod linux;
pub mod types;
pub mod windows;

pub use types::{CurvePoint, FanInfo, FanMode, FanType};
