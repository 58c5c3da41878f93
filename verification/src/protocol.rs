//! The Phoenix Channels v2 wire protocol.
pub mod frame;

pub use frame::PhoenixFrame;
