//! ARM64 instruction text.
pub mod arm64;
