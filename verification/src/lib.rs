//! Core of a DDC/CI monitor-control tool: parsing a monitor's
//! self-described capability string into a typed feature table,
//! projecting the Input Select feature into named input sources,
//! and the command model for switching inputs on a physical monitor.
//!
//! Everything that talks to the operating system (monitor enumeration,
//! the DDC/CI transport, the tray UI) lives outside this crate; the
//! library works on the plain values those collaborators hand over.

pub mod input;
pub mod model;
pub mod parse;
pub mod registry;
pub mod session;
