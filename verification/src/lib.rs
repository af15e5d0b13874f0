//! A verified reader for Wavefront OBJ geometry files and their MTL
//! material libraries.
//!
//! The parsers work on lines of bytes handed in by the caller; opening
//! and reading files is left to the surrounding program.  Numeric fields
//! that the format writes as decimal floats are kept as their validated
//! source tokens; turning a token into a machine float is the consumer's
//! step.

pub mod assoc;
pub mod mesh;
pub mod model;
pub mod mtl;
pub mod numbers;
pub mod text;
