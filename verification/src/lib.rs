//! A minimal synchronous client model for reading and writing one
//! 32-bit-float tag on an EtherNet/IP-connected controller.
//!
//! The crate validates tag addresses against the controller's tag-path
//! grammar, models typed values as {type tag, raw bits}, and drives a
//! verified in-memory controller through `connect`, `read_f32` and
//! `write_f32`. Float values are carried as their IEEE-754 binary32 bit
//! patterns, so every rule about them is exact.

pub mod client;
pub mod controller;
pub mod errors;
pub mod host;
pub mod laws;
pub mod tag;
pub mod value;

pub use client::ConnectionHandle;
pub use client::PATH_SEGMENT_ERROR;
pub use client::connect;
pub use client::read_f32;
pub use client::write_f32;
pub use controller::MockController;
pub use errors::ConnectionError;
pub use errors::TagError;
pub use host::HostAddr;
pub use host::parse_host;
pub use tag::Address;
pub use tag::Segment;
pub use tag::parse_tag;
pub use value::REAL_TYPE_CODE;
pub use value::TypedValue;
pub use value::decode_real;
