//! Volume-average extraction from OpenFOAM-style field files.
//!
//! The library locates the `internalField` entry inside a raw byte buffer,
//! decides between the uniform and nonuniform representations, extracts the
//! data region, and hands back the numeric tokens it accepts.  Everything on
//! bytes is verified; turning tokens into floating-point values and averaging
//! them is left to the caller, which holds the buffer and the numbers.

pub mod extract;
pub mod number;
pub mod scan;
pub mod tokenize;
pub mod uniform;
