//! An expect-style engine for driving an interactive subprocess.
//!
//! The library holds the decision core of a write/read-and-match loop:
//! compiling a pattern set, decoding the child's output bytes into
//! characters, accumulating those characters, picking the first pattern
//! (by list position) that the accumulated text satisfies, and deciding
//! when a deadline has passed. Spawning the child and moving bytes over
//! its pipes is left to the caller, which feeds what it read into a
//! [`utf8::Utf8Decoder`] and an [`engine::Engine`].

pub mod engine;
pub mod errors;
pub mod laws;
pub mod matcher;
pub mod utf8;
