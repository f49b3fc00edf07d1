pub mod detector;
pub mod fallback;
pub mod heartbeat;
