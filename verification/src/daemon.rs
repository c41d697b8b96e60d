//! The decisions behind `razerd`: its command line and its metrics endpoint.
pub mod args;
pub mod device_mode;
pub mod host;
pub mod http;
pub mod info;
pub mod list;
pub mod metrics;
pub mod table;
