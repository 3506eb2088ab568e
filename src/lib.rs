//! Encoding of the bulk write instruction of a multi-drop actuator bus.
//!
//! A bulk write addresses several devices in one broadcast instruction, each
//! with its own register address and payload. The library validates the
//! per-device write descriptors and serializes them into one parameter block.
pub mod endian;
pub mod bulk_write;
pub mod bus;
pub mod layout;
