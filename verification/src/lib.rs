//! Versioned output naming and preflight safety for non-destructive video
//! trims.
//!
//! The heart of the library is the deterministic filename scheme that encodes
//! a trim lineage as a chain of version numbers (`movie_1_2.mp4` is the second
//! trim of the first trim of `movie.mp4`), together with the preflight checks
//! that run before an external cutting tool is invoked: time-range validation,
//! output-size estimation, and a free-space guard with a safety margin.
//!
//! All filesystem and subprocess work is left to the caller; the functions
//! here take plain values (file names, directory listings, volume tables,
//! probe output) and return plain values, so every decision the scheme makes
//! is verified.

pub mod error;
pub mod naming;
pub mod orchestrate;
pub mod probe;
pub mod space;
pub mod strops;
pub mod text;
pub mod validate;
