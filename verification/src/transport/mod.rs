//! Ways to reach the controller.
pub mod ble;
pub mod ble_latency;
pub mod captured;
pub mod laws;
pub mod startup;
pub mod usb;
