//! A verified codec and randomizer for a fixed-format game level table.
//!
//! The on-disk format is a sequence of 64-byte big-endian records, one per
//! level. This crate decodes and encodes that format losslessly, checks a
//! table against the game's empirical validity rules, and can synthesize a
//! whole table from a seed while enforcing those rules by construction.

pub mod codec;
pub mod constrained;
pub mod engine;
pub mod level;
pub mod rng;
pub mod validate;
