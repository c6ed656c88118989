//! A shared pixel canvas for many concurrent clients: the grid itself, the
//! registry of connected clients, per-client throttling of submissions and
//! the fan-out of accepted updates to every participant.

pub mod canvas;
pub mod clock;
pub mod hub;
pub mod laws;
pub mod lifecycle;
pub mod limiter;
pub mod registry;
pub mod rejection;
