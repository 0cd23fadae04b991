//! A sponge construction over an abstract permutation engine, with a tag
//! that binds the declared shape of every interaction.
//!
//! - `api`: sponge operations, I/O patterns and their 128-bit tag.
//! - `sponge`: the engine interface and the generic `start`, `absorb`,
//!   `squeeze` and `finish` protocol over it.
//! - `engine`: a small deterministic engine over integers modulo 2^61 - 1.
pub mod api;
pub mod sponge;
pub mod engine;
