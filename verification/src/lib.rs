//! Integer tensor operations over an abstract backend.
//!
//! A backend supplies a small set of native operations on opaque tensor
//! handles; every other operation is built once from those and proved against
//! a mathematical model of a tensor: a shape and one value per multi-index.

pub mod arange;
pub mod backend;
pub mod error;
pub mod extremes;
pub mod grid;
pub mod laws;
pub mod layout;
pub mod ops;
pub mod ranges;
pub mod shape;
