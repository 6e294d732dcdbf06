//! A small library for serving markdown documents as HTML.
//!
//! The two verified subsystems are the markdown rendering engine — a
//! block-level state machine with an inline-formatting pass — and a
//! bounded worker-pool model that dispatches submitted jobs first-in
//! first-out and supports a cooperative shutdown.

pub mod escape;
pub mod inline;
pub mod laws;
pub mod pool;
pub mod render;
pub mod request;
pub mod text;
