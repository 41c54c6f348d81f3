//! A structured index of the functions and classes of a source tree, kept in
//! step with the tree by content fingerprints.
pub mod text;
pub mod model;
pub mod resolve;
pub mod paths;
pub mod sync;
pub mod tree;
pub mod extract;
pub mod snapshot;
pub mod index;
