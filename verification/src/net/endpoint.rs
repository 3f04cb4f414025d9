//! Endpoints and what is known about them.

use vstd::prelude::*;

use crate::net::address::{EndpointAddress, EndpointAddressView};
use crate::text::bytes_eq;

pub mod locality;
pub mod metadata;

verus! {

/// What is known about an endpoint: the tokens that route packets to it.
///
/// The tokens form a set: how often and in which place a token is listed
/// makes no difference.
#[derive(Debug)]
pub struct Metadata {
    pub tokens: Vec<Vec<u8>>,
}

impl Metadata {
    /// The set of tokens of the endpoint.
    pub open spec fn token_set(&self) -> Set<Seq<u8>> {
        Set::new(
            |token: Seq<u8>|
                exists|i: int| 0 <= i < self.tokens@.len() && self.tokens@[i]@ == token,
        )
    }

    /// Metadata without any token.
    pub fn new() -> (metadata: Metadata)
        ensures
            metadata.token_set() == Set::<Seq<u8>>::empty(),
    {
        let metadata = Metadata { tokens: Vec::new() };
        assert(metadata.token_set() =~= Set::<Seq<u8>>::empty());
        metadata
    }

    /// Whether `token` is one of the endpoint's tokens: some listed token
    /// holds the same bytes.
    pub fn contains(&self, token: &[u8]) -> (found: bool)
        ensures
            found == self.token_set().contains(token@),
    {
        let mut i: usize = 0;
        while i < self.tokens.len()
            invariant
                i <= self.tokens@.len(),
                forall|j: int| 0 <= j < i ==> self.tokens@[j]@ != token@,
            decreases self.tokens@.len() - i,
        {
            if bytes_eq(self.tokens[i].as_slice(), token) {
                return true;
            }
            i += 1;
        }
        false
    }
}

/// A backend that packets can be forwarded to.
#[derive(Debug)]
pub struct Endpoint {
    pub address: EndpointAddress,
    pub metadata: Metadata,
}

/// What an endpoint holds: its address and its set of tokens.
pub ghost struct EndpointView {
    pub address: EndpointAddressView,
    pub tokens: Set<Seq<u8>>,
}

impl View for Endpoint {
    type V = EndpointView;

    open spec fn view(&self) -> EndpointView {
        EndpointView { address: self.address@, tokens: self.metadata.token_set() }
    }
}

impl Endpoint {
    /// An endpoint at `address` without any token.
    pub fn new(address: EndpointAddress) -> (endpoint: Endpoint)
        ensures
            endpoint@ == (EndpointView { address: address@, tokens: Set::empty() }),
    {
        Endpoint { address, metadata: Metadata::new() }
    }

    /// An endpoint at `address` with the given metadata.
    pub fn with_metadata(address: EndpointAddress, metadata: Metadata) -> (endpoint: Endpoint)
        ensures
            endpoint.address == address,
            endpoint.metadata == metadata,
    {
        Endpoint { address, metadata }
    }
}

/// The addresses of the endpoints that hold `token`, in the order in which
/// the endpoints stand.
pub open spec fn addresses_with_token(endpoints: Seq<EndpointView>, token: Seq<u8>) -> Seq<
    EndpointAddressView,
>
    decreases endpoints.len(),
{
    if endpoints.len() == 0 {
        Seq::empty()
    } else {
        let before = addresses_with_token(endpoints.drop_last(), token);
        if endpoints.last().tokens.contains(token) {
            before.push(endpoints.last().address)
        } else {
            before
        }
    }
}

/// What a list of endpoints holds.
pub open spec fn endpoints_view(endpoints: Seq<Endpoint>) -> Seq<EndpointView> {
    Seq::new(endpoints.len(), |i: int| endpoints[i]@)
}

/// What a list of addresses holds.
pub open spec fn addresses_view(addresses: Seq<EndpointAddress>) -> Seq<EndpointAddressView> {
    Seq::new(addresses.len(), |i: int| addresses[i]@)
}

/// The addresses found for a token are those of the endpoints that hold the
/// token, in the order of the endpoints: the list of endpoints, filtered by
/// the token, and of each endpoint that is left its address.
pub proof fn lemma_addresses_are_those_of_the_holders(endpoints: Seq<EndpointView>, token: Seq<u8>)
    ensures
        addresses_with_token(endpoints, token) == endpoints.filter(
            |endpoint: EndpointView| endpoint.tokens.contains(token),
        ).map_values(|endpoint: EndpointView| endpoint.address),
    decreases endpoints.len(),
{
    let holds = |endpoint: EndpointView| endpoint.tokens.contains(token);
    let address = |endpoint: EndpointView| endpoint.address;
    reveal(Seq::filter);
    if endpoints.len() == 0 {
        assert(endpoints.filter(holds).map_values(address) =~= Seq::empty());
    } else {
        lemma_addresses_are_those_of_the_holders(endpoints.drop_last(), token);
        let before = endpoints.drop_last().filter(holds);
        if holds(endpoints.last()) {
            assert(before.push(endpoints.last()).map_values(address) =~= before.map_values(
                address,
            ).push(endpoints.last().address));
        }
    }
}

/// Where no endpoint holds the token, no address is found.
pub proof fn lemma_no_holder_no_address(endpoints: Seq<EndpointView>, token: Seq<u8>)
    requires
        forall|i: int| 0 <= i < endpoints.len() ==> !endpoints[i].tokens.contains(token),
    ensures
        addresses_with_token(endpoints, token) == Seq::<EndpointAddressView>::empty(),
    decreases endpoints.len(),
{
    if endpoints.len() > 0 {
        lemma_no_holder_no_address(endpoints.drop_last(), token);
    }
}

/// Where an endpoint holds the token, an address is found.
pub proof fn lemma_holder_gives_address(endpoints: Seq<EndpointView>, token: Seq<u8>, at: int)
    requires
        0 <= at < endpoints.len(),
        endpoints[at].tokens.contains(token),
    ensures
        addresses_with_token(endpoints, token).contains(endpoints[at].address),
    decreases endpoints.len(),
{
    let found = addresses_with_token(endpoints, token);
    if at == endpoints.len() - 1 {
        assert(found[found.len() - 1] == endpoints[at].address);
    } else {
        lemma_holder_gives_address(endpoints.drop_last(), token, at);
        let before = addresses_with_token(endpoints.drop_last(), token);
        let k = choose|k: int| 0 <= k < before.len() && before[k] == endpoints[at].address;
        assert(found[k] == endpoints[at].address);
    }
}

} // verus!
