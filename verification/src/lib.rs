//! Core logic of a chat-platform translation bot.
//!
//! The crate covers the four components of the translation path: the
//! language identifier (backed by the `lingua` detector), the wire codec
//! for the remote translation service (JSON envelope and base64 payload
//! transport), the attachment pipeline's resource-handling state machine,
//! and the interactive session controller that drives one translation
//! request from trigger to final reply.  Everything that performs I/O
//! (HTTP, filesystem, the chat platform itself) lives outside this crate
//! and is driven through the state machines defined here.

pub mod b64;
pub mod json;
pub mod language_detection;
pub mod languages;
pub mod pipeline;
pub mod session;
pub mod text;
pub mod translation;
pub mod types;
