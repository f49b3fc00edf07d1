//! Detection rules of a workstation guard daemon: configuration allowlists,
//! the physical-input heartbeat, the hook fallback and the detector that
//! turns sensor readings into violation reports.

pub mod config;
pub mod engine;
pub mod platform;
pub mod text;
