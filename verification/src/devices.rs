//! Which devices are supported, and how to talk to each.
pub mod capabilities;
pub mod table;

pub use crate::devices::capabilities::Capabilities;
pub use crate::devices::table::{all, lookup, DeviceEntry, DeviceKind, PollRateKind, VENDOR_ID};
