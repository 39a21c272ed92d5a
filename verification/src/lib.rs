//! A tamper-evident record of a two-player chess game: a chain of signed
//! blocks that either player, or any observer, can check from its bytes alone.

pub mod block;
pub mod crypto;
pub mod error;
pub mod laws;
pub mod model;
pub mod rules;
pub mod wire;
