//! Fan control logic: curves, controller state, and the decisions of the
//! hardware backends, with the hardware access itself left to the caller.

pub mod hardware;
pub mod text;
pub mod table;
pub mod order;
pub mod gpu_nvml;
pub mod ipc;
pub mod setup;
pub mod config;
