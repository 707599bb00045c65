//! A hot-reloadable graph of GPU shading stages, with the small
//! bracketed description language that builds it.
//!
//! The library holds the compute-graph data structure and its per-frame
//! forward pass, the multi-valued uniform-binding protocol, the feedback
//! buffers that let a stage read its own previous frame, the lexically
//! scoped build environment, the interpreter that compiles a textual
//! description into a graph, and the debounced reload state machine.
//! Pixel resources are carried by identity; compiling shading sources
//! and issuing draw calls are the embedding application's work, driven
//! by the render plan each forward pass returns.
pub mod env;
pub mod graph;
pub mod interp;
pub mod node;
pub mod numeric;
pub mod reload;
pub mod sexp;
pub mod strings;
pub mod uniform;
pub mod val;

use vstd::prelude::*;

verus! {

/// Handle that represents a particular node in the context of a shader
/// graph: an index into the graph's node table. Totally determined by
/// that index; stable for the lifetime of one built graph and
/// meaningless across rebuilds.
#[derive(Debug, Clone, Copy, PartialEq, Eq, Structural, PartialOrd, Ord, Hash)]
pub struct NodeId(pub usize);

} // verus!
