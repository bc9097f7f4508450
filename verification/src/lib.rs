//! A reverse-mode automatic-differentiation engine over scalar values.
//!
//! Arithmetic operations build a directed acyclic computation graph inside an
//! arena ([`allocator::Allocator`]); a backward pass then propagates the
//! gradient of a chosen root to every node the root depends on, in reverse
//! creation order. A small feed-forward network layer ([`nn`]) is built on top
//! of the engine's public operations.

pub mod allocator;
pub mod engine;
pub mod laws;
pub mod nn;
pub mod operators;
