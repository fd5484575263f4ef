//! Verified core of an H.264 Annex-B live-streaming server.
//!
//! The library reframes a raw Annex-B byte stream into discrete access
//! units, fans them out to any number of registered sinks with a late-join
//! catch-up protocol, and supervises the lifecycle of the capture session.
//! All I/O (process spawning, sockets, timers) lives outside this crate;
//! the modules here hold the data structures and decision logic, each with
//! a proved contract.

pub mod bytes;
pub mod camera;
pub mod fanout;
pub mod h264;
pub mod registry;
pub mod snapshot;
pub mod supervisor;
pub mod text;
