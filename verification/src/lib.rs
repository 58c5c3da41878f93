//! Client-side core of the Glia agent SDK: the JSON model carried by
//! Phoenix Channels v2 frames, frame construction and decoding, agent
//! event classification, connection options and the session state machine.
pub mod json;
pub mod text;
pub mod protocol;
pub mod events;
pub mod error;
pub mod options;
pub mod client;
pub mod transport;

pub use client::GliaClient;
pub use error::GliaError;
pub use events::{DynamicTool, GliaEvent, RunPayload};
pub use json::Json;
pub use options::GliaOptions;
pub use protocol::PhoenixFrame;
