//! An OSCQuery control surface library: a hierarchical namespace of typed
//! parameters that can be introspected as JSON and driven by OSC messages.
//!
//! The crate verifies the namespace tree, the parameter model, the
//! per-attribute JSON rendering, the HOST_INFO flag schema and the
//! per-session subscription rules.  Sockets, threads and wire codecs live
//! outside the library and hand it plain values.

pub mod json;
pub mod node;
pub mod osc;
pub mod param;
pub mod root;
pub mod service;
pub mod value;

use vstd::prelude::*;

verus! {

} // verus!
