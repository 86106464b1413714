//! Flattening of nested heterogeneous container values into an ordered list
//! of leaves plus a structural descriptor, and reconstruction of an
//! equivalent value from such a descriptor and a fresh list of leaves, with a
//! runtime registry of custom container types scoped by namespace.

pub mod flatten;
pub mod laws;
pub mod registry;
pub mod sorting;
pub mod tree;
pub mod treespec;
pub mod unflatten;
