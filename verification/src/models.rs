//! The network as it is read, the network as it is indexed, and the
//! drawing that is made of it.

pub mod axis;
pub mod collision;
pub mod density;
pub mod filter;
pub mod graph;
pub mod input;
pub mod ladder;
pub mod output;
pub mod path;
