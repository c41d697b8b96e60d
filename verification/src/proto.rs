//! The Razer wire protocol: one 90-byte report in each direction.
//!
//! Everything here is about bytes. Nothing in this module knows of a device
//! node, and nothing in it chooses a transaction id: the constructors in
//! [`cmd`] leave byte 1 at zero, and [`crate::hid::Session`] stamps it from the
//! device table when a report is sent.
pub mod cmd;
pub mod crc;
pub mod error;
pub mod parse;
pub mod report;

pub use crate::proto::crc::{crc, verify_crc};
pub use crate::proto::error::ProtoError;
pub use crate::proto::report::{
    DeviceMode, LedId, PollRate, RazerReport, Rgb, Status, Storage, ARGS_LEN, REPORT_LEN,
};
