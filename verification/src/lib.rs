//! An interactive node-and-edge graph editor core: a directed-graph store
//! with mirrored adjacency lists, geometric hit-testing, a modal gesture
//! state machine, and a deterministic text serializer.
//!
//! The host (window system, renderer, font handling) is out of scope: it
//! delivers pointer and keyboard events as plain values and receives a
//! drawable snapshot plus a serialized string back.

pub mod geometry;
pub mod graph;
pub mod hit;
pub mod machine;
pub mod serialize;
