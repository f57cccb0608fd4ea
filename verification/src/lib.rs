//! A self-describing bit-tree data layer.
//!
//! The crate models a recursive binary tree (`Node`) summarising a raw bit
//! sequence, a deterministic entropy bit stream, the state-evolution operator
//! folding an incoming tree into the current one, a length-prefixed frame log
//! of tree snapshots, and the port-derivation rule of the discovery mesh.

pub mod bits;
pub mod entropy;
pub mod evolve;
pub mod mesh;
pub mod node;
pub mod store;
