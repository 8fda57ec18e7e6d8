//! Symbolic execution over an abstract view of LLVM IR: slices are explored
//! path by path, each path yields a trace of symbolic effects, and traces are
//! turned into feature records.

pub mod metadata;
pub mod value;
pub mod memory;
pub mod ir;
pub mod state;
pub mod environment;
pub mod execution;
pub mod smt;
pub mod scheduler;
pub mod trace;
pub mod features;
