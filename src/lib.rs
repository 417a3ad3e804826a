//! Userspace driver core for a USB graphics tablet: packet translation,
//! device-session lifecycle, endpoint selection and the control channel.

pub mod config;
pub mod keys;
pub mod translator;
pub mod edges;
pub mod reader;
pub mod session;
pub mod channel;
