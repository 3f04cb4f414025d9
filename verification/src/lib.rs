//! The packet-routing core of a UDP proxy.
//!
//! [`xds`] holds the control-plane resource model: the four kinds of
//! resource, the identifier of each kind, and the envelopes in which
//! resources are received and sent. [`filters`] holds the two token routers,
//! which pick the endpoints that a packet is forwarded to, and the per-packet
//! context that they work on. [`net`] holds what the routers consult:
//! endpoints with their tokens, the cluster map and its token index.
//!
//! What a function returns or changes is stated in its contract and proved.
//! The bytes of the wire format are read and written by `prost`; what is
//! taken on trust about it stands in [`xds::wire`].

pub mod codec;
pub mod filters;
pub mod net;
pub mod text;
pub mod xds;
