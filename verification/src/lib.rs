//! A push-based dataflow composition library.
//!
//! Independent producers of values are wired through chains of transforming
//! and synchronizing nodes to consumers.  A graph owns an arena of nodes;
//! sending a value into a node propagates it depth-first through the fan-out
//! tree, synchronously, on the calling thread.  The propagation of every
//! `send` is captured by a mathematical semantics (`semantics::deliver`),
//! and the executable engine is proved to follow it exactly.

pub mod consumer;
pub mod producer;
pub mod ops;
pub mod val;
pub mod node;
pub mod semantics;
pub mod laws;
