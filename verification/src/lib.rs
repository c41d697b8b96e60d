//! Userspace driver for Razer HID peripherals.
//!
//! The wire protocol ([`proto`]), the device table ([`devices`]), enumeration
//! and transactions over `hidraw` ([`hid`]), and the decisions behind the
//! `razerd` command line and its metrics endpoint ([`daemon`]). Nothing here
//! performs I/O: system calls, sockets and the terminal belong to the program
//! around the library.
pub mod text;
pub mod time;
pub mod proto;
pub mod devices;
pub mod hid;
pub mod daemon;
