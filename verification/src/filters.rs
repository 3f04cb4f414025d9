//! Filters and the per-packet context that they read and write.

use std::sync::Arc;

use vstd::prelude::*;

use crate::net::address::EndpointAddress;
use crate::net::cluster::ClusterMap;
use crate::net::endpoint::metadata::DynamicMetadata;

pub mod capture;
pub mod token_router;

verus! {

/// The state of one packet on its way through the filters.
#[derive(Debug)]
pub struct ReadContext {
    /// The snapshot of the cluster map that this packet is routed against.
    pub endpoints: Arc<ClusterMap>,
    /// Where the packet is to be forwarded: filled in by a router.
    pub destinations: Vec<EndpointAddress>,
    /// Where the packet came from.
    pub source: EndpointAddress,
    /// The content of the packet.
    pub contents: Vec<u8>,
    /// What earlier filters learned about the packet.
    pub metadata: DynamicMetadata,
}

impl ReadContext {
    /// The context of a packet that has not passed any filter yet: no
    /// destination and no metadata.
    pub fn new(endpoints: Arc<ClusterMap>, source: EndpointAddress, contents: Vec<u8>) -> (ctx:
        ReadContext)
        ensures
            ctx.endpoints == endpoints,
            ctx.source == source,
            ctx.contents == contents,
            ctx.destinations@ == Seq::<EndpointAddress>::empty(),
            ctx.metadata@ == Map::<Seq<char>, crate::net::endpoint::metadata::ValueView>::empty(),
    {
        ReadContext {
            endpoints,
            destinations: Vec::new(),
            source,
            contents,
            metadata: DynamicMetadata::new(),
        }
    }
}

/// Why a filter could not be created.
#[derive(Debug)]
pub enum CreationError {
    /// The filter needs a configuration and was given none.
    MissingConfig(String),
}

/// Why a filter did not pass a packet on.
#[derive(Debug)]
pub enum FilterError {
    /// A token router found no destination.
    TokenRouter(token_router::Error),
}

impl FilterError {
    /// The filter error of a token router's error.
    pub fn new(error: token_router::Error) -> (wrapped: FilterError)
        ensures
            wrapped == FilterError::TokenRouter(error),
    {
        FilterError::TokenRouter(error)
    }

    /// The text of this error.
    pub fn to_string(&self) -> (text: String)
        ensures
            self matches FilterError::TokenRouter(error) && text@ == error@.message(),
    {
        match self {
            FilterError::TokenRouter(error) => error.to_string(),
        }
    }
}

} // verus!
