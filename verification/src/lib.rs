//! Passphrase generation by the XKCD method: a configurable number of
//! dictionary words, a random subset of them capitalized, and random digit
//! and symbol tokens inserted at random positions.

pub mod assembler;
pub mod config;
pub mod random;
pub mod source;
pub mod text;
