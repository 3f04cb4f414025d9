//! Endpoints, their addresses and the cluster map that holds them.

pub mod address;
pub mod cluster;
pub mod endpoint;
pub mod token_index;
