//! An out-of-tree native backend: lowers a verified module to NASM
//! assembly for x86-64 (System V AMD64).
//!
//! Every SSA value lives in a stack slot, so the size and alignment of a
//! type decide how it is moved; [`layout`] computes them and decides which
//! types the backend supports at all.

pub mod error;
pub mod codegen;
pub mod layout;

pub use codegen::compile;
pub use error::BackendError;
