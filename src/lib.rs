//! Paced replay of captured terminal transcripts.
//!
//! The library decides what is written and where the pauses go; the caller
//! performs the writes (each followed by a flush) and the sleeps.

pub mod buffer;
pub mod capture;
pub mod delay;
pub mod engine;
pub mod scan;

pub mod timeline;
pub mod prompt;
pub mod laws;
