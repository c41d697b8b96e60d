//! Finding a device's `hidraw` node and exchanging feature reports with it.
//!
//! The traits [`FeatureTransport`], [`Clock`] and [`SysfsSource`] are the edge
//! to the operating system. Each carries a specification predicate per method
//! that says which outcomes its implementation admits; an implementation that
//! says nothing admits every outcome. The contracts of [`Session`] and of
//! enumeration are stated over those predicates, so they hold for every
//! implementation, and are exact for the in-memory ones in [`mock`].
pub mod enumerate;
pub mod error;
pub mod laws;
pub mod mock;
pub mod operation_laws;
pub mod session;
pub mod sysfs;
pub mod transport;

pub use crate::hid::enumerate::{find_device, list_razer_nodes, HidrawNode};
pub use crate::hid::error::HidError;
pub use crate::hid::mock::{MockClock, MockSysfs, MockTransport};
pub use crate::hid::session::{Clock, Session};
pub use crate::hid::sysfs::{RealSysfs, SysfsSource, UsbInterfaceInfo};
pub use crate::hid::transport::{FeatureTransport, HardwareOptIn, RawInfo, HIDRAW_BUF_LEN};
