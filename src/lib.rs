//! A verified relay for chat completions streamed as server-sent events.
//!
//! The relay accumulates the bytes of a streamed HTTP body, frames them into
//! lines, recognises `data: ` lines, decodes the JSON chunk each one carries,
//! and turns the result into a sequence of [`event::StreamEvent`]s that ends in
//! exactly one terminal event.
pub mod event;
pub mod text;
pub mod chunk;
pub mod relay;
pub mod laws;
