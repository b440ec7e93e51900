//! Enumeration of a host's network interfaces and of the addresses bound to
//! each of them, normalised into one record structure for every platform.

pub mod text;
pub mod codec;
pub mod common;
pub mod types;
pub mod classifier;
pub mod listing;
pub mod os;
pub mod linux;
pub mod win;
pub mod tables;

pub use crate::codec::{ip_to_string, mac_to_string};
