//! Byte Lang: a compiler for a small systems language that emits ARM64 assembly.
use vstd::prelude::*;

pub mod text;
pub mod datatypes;

verus! {
} // verus!
