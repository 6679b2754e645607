//! Deterministic colors for chat identifiers.
//!
//! A message is resolved to an RGB triple along one of three paths, in a
//! fixed priority order: an explicit literal (`"12 34 56"`), a request for a
//! random color (`"random"`), or a stable hash of the message itself.

pub mod color;
pub mod dispatch;
pub mod hashing;
pub mod literal;
pub mod text;

pub use color::Color;
