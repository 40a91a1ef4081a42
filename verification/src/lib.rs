//! Device selection, listing and driver-protocol logic of the WCH-Link USB
//! device layer, with its contracts proved by Verus.
//!
//! The USB transfers themselves (enumerating devices, opening them, bulk
//! reads and writes, driver I/O controls) happen outside this library; it is
//! handed what they produced as plain values and decides what to do with it.

pub mod error;
pub mod text;
pub mod usb_device;

pub use error::Error;
