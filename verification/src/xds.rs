//! The control-plane resource model: resource kinds, their wire type
//! identifiers, and the envelope codec.

pub mod message;
pub mod proto;
pub mod resource;
pub mod wire;
