//! Verified protocol logic for polling temperature sensors that share a
//! single open-drain signal wire.
//!
//! The crate holds the decisions of the bus protocol (checksums, device
//! enumeration, the acquisition round and the scheduling cycle) as pure
//! functions with machine-checked contracts. Pin toggling, delays and log
//! output belong to the firmware that drives these functions.

pub mod address;
pub mod bits;
pub mod crc;
pub mod dry_run;
pub mod error;
pub mod order;
pub mod resolution;
pub mod round;
pub mod sample;
pub mod schedule;
pub mod search;
pub mod sim;
pub mod wire;
