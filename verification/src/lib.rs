//! The decision logic of a terminal coding agent: a JSON model, the
//! accumulation of streamed model output, the conversation history sent
//! back to the model, the tool-call plumbing and the state of the
//! terminal interface. Network, terminal and file I/O live outside.
pub mod json;
pub mod tools;
pub mod events;
pub mod stream;
pub mod agent;
pub mod specs;
pub mod interface;
pub mod laws;
