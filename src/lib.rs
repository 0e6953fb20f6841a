//! A container that bundles a model's metadata document and its binary
//! artifact into one byte buffer, and unpacks it again.
pub mod format;
pub mod laws;
