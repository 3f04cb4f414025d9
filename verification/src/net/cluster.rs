//! The cluster map: the endpoints of each cluster, and for each cluster an
//! index from token to the addresses to forward to.

use vstd::prelude::*;

use crate::net::address::{EndpointAddress, EndpointAddressView};
use crate::net::endpoint::locality::{Locality, LocalityView};
use crate::net::endpoint::{
    addresses_view, addresses_with_token, endpoints_view, lemma_no_holder_no_address, Endpoint,
    EndpointView,
};
use crate::net::token_index::TokenIndex;

verus! {

/// The endpoints of one cluster, with their token index.
///
/// The index is built by [`EndpointSet::build_token_map`] and stays as it is
/// until it is built again.
#[derive(Debug)]
pub struct EndpointSet {
    endpoints: Vec<Endpoint>,
    token_map: TokenIndex,
}

/// What an endpoint set holds: its endpoints in their order, and its token
/// index.
pub ghost struct EndpointSetView {
    pub endpoints: Seq<EndpointView>,
    pub token_map: Map<Seq<u8>, Seq<EndpointAddressView>>,
}

impl EndpointSetView {
    /// The addresses that the index gives for `token`: none where the index
    /// has no entry for it.
    pub open spec fn addresses_for(self, token: Seq<u8>) -> Seq<EndpointAddressView> {
        if self.token_map.contains_key(token) {
            self.token_map[token]
        } else {
            Seq::empty()
        }
    }
}

/// The addresses of the endpoints that hold `token`, in their order.
fn collect_addresses(endpoints: &Vec<Endpoint>, token: &[u8]) -> (found: Vec<EndpointAddress>)
    ensures
        addresses_view(found@) == addresses_with_token(endpoints_view(endpoints@), token@),
{
    let mut found: Vec<EndpointAddress> = Vec::new();
    let mut i: usize = 0;
    assert(endpoints_view(endpoints@).take(0) =~= Seq::<EndpointView>::empty());
    assert(addresses_view(found@) =~= Seq::<EndpointAddressView>::empty());
    while i < endpoints.len()
        invariant
            i <= endpoints@.len(),
            addresses_view(found@) == addresses_with_token(
                endpoints_view(endpoints@).take(i as int),
                token@,
            ),
        decreases endpoints@.len() - i,
    {
        let ghost before = addresses_view(found@);
        assert(endpoints_view(endpoints@).take(i + 1).drop_last() =~= endpoints_view(
            endpoints@,
        ).take(i as int));
        if endpoints[i].metadata.contains(token) {
            found.push(endpoints[i].address.clone());
            assert(addresses_view(found@) =~= before.push(endpoints@[i as int].address@));
        }
        i += 1;
    }
    assert(endpoints_view(endpoints@).take(i as int) =~= endpoints_view(endpoints@));
    found
}

impl View for EndpointSet {
    type V = EndpointSetView;

    closed spec fn view(&self) -> EndpointSetView {
        EndpointSetView {
            endpoints: endpoints_view(self.endpoints@),
            token_map: self.token_map@,
        }
    }
}

impl EndpointSet {
    /// The set of the given endpoints, in their order, with an empty index.
    pub fn new(endpoints: Vec<Endpoint>) -> (set: EndpointSet)
        ensures
            set@.endpoints == endpoints_view(endpoints@),
            set@.token_map == Map::<Seq<u8>, Seq<EndpointAddressView>>::empty(),
    {
        EndpointSet { endpoints, token_map: TokenIndex::new() }
    }

    /// The number of endpoints.
    pub fn len(&self) -> (count: usize)
        ensures
            count == self@.endpoints.len(),
    {
        self.endpoints.len()
    }

    /// The endpoint at place `i`.
    pub fn endpoint(&self, i: usize) -> (endpoint: &Endpoint)
        requires
            i < self@.endpoints.len(),
        ensures
            endpoint@ == self@.endpoints[i as int],
    {
        &self.endpoints[i]
    }

    /// Builds the index anew from the endpoints: afterwards it gives, for
    /// every token, the addresses of the endpoints that hold the token.
    pub fn build_token_map(&mut self)
        ensures
            final(self)@.endpoints == old(self)@.endpoints,
            forall|token: Seq<u8>| #[trigger]
                final(self)@.addresses_for(token) == addresses_with_token(
                    old(self)@.endpoints,
                    token,
                ),
    {
        let mut index = TokenIndex::new();
        let mut i: usize = 0;
        while i < self.endpoints.len()
            invariant
                *self == *old(self),
                i <= self.endpoints@.len(),
                forall|token: Seq<u8>|
                    index@.contains_key(token) ==> #[trigger] index@[token]
                        == addresses_with_token(endpoints_view(self.endpoints@), token),
                forall|e: int, t: int|
                    0 <= e < i && 0 <= t < self.endpoints@[e].metadata.tokens@.len()
                        ==> index@.contains_key(#[trigger] self.endpoints@[e].metadata.tokens@[t]@),
            decreases self.endpoints@.len() - i,
        {
            let mut j: usize = 0;
            while j < self.endpoints[i].metadata.tokens.len()
                invariant
                    *self == *old(self),
                    i < self.endpoints@.len(),
                    j <= self.endpoints@[i as int].metadata.tokens@.len(),
                    forall|token: Seq<u8>|
                        index@.contains_key(token) ==> #[trigger] index@[token]
                            == addresses_with_token(endpoints_view(self.endpoints@), token),
                    forall|e: int, t: int|
                        0 <= e < i && 0 <= t < self.endpoints@[e].metadata.tokens@.len()
                            ==> index@.contains_key(
                            #[trigger] self.endpoints@[e].metadata.tokens@[t]@,
                        ),
                    forall|t: int|
                        0 <= t < j ==> index@.contains_key(
                            #[trigger] self.endpoints@[i as int].metadata.tokens@[t]@,
                        ),
                decreases self.endpoints@[i as int].metadata.tokens@.len() - j,
            {
                let token = &self.endpoints[i].metadata.tokens[j];
                if index.get(token.as_slice()).is_none() {
                    let addresses = collect_addresses(&self.endpoints, token.as_slice());
                    index.insert(vstd::slice::slice_to_vec(token.as_slice()), addresses);
                }
                j += 1;
            }
            i += 1;
        }
        self.token_map = index;
        assert forall|token: Seq<u8>| #[trigger]
            self@.addresses_for(token) == addresses_with_token(
                old(self)@.endpoints,
                token,
            ) by {
            if !index@.contains_key(token) {
                assert forall|e: int| 0 <= e < self.endpoints@.len() implies !endpoints_view(
                    self.endpoints@,
                )[e].tokens.contains(token) by {
                    if self.endpoints@[e].metadata.token_set().contains(token) {
                        let t = choose|t: int|
                            0 <= t < self.endpoints@[e].metadata.tokens@.len()
                                && self.endpoints@[e].metadata.tokens@[t]@ == token;
                        assert(index@.contains_key(self.endpoints@[e].metadata.tokens@[t]@));
                    }
                }
                lemma_no_holder_no_address(endpoints_view(self.endpoints@), token);
            }
        }
    }

    /// Appends to `addresses` the addresses that the index gives for `token`.
    pub fn addresses_for_token(&self, token: &[u8], addresses: &mut Vec<EndpointAddress>)
        ensures
            addresses_view(final(addresses)@) == addresses_view(old(addresses)@)
                + self@.addresses_for(token@),
    {
        match self.token_map.get(token) {
            Some(listed) => {
                let mut i: usize = 0;
                assert(addresses_view(listed@).take(0) =~= Seq::<EndpointAddressView>::empty());
                assert(addresses_view(addresses@) =~= addresses_view(old(addresses)@)
                    + addresses_view(listed@).take(0));
                while i < listed.len()
                    invariant
                        i <= listed@.len(),
                        addresses_view(addresses@) == addresses_view(old(addresses)@)
                            + addresses_view(listed@).take(i as int),
                    decreases listed@.len() - i,
                {
                    let ghost before = addresses_view(addresses@);
                    addresses.push(listed[i].clone());
                    assert(addresses_view(addresses@) =~= before.push(listed@[i as int]@));
                    assert(addresses_view(listed@).take(i + 1) =~= addresses_view(listed@).take(
                        i as int,
                    ).push(listed@[i as int]@));
                    i += 1;
                }
                assert(addresses_view(listed@).take(i as int) =~= addresses_view(listed@));
            },
            None => {
                assert(addresses_view(addresses@) =~= addresses_view(old(addresses)@)
                    + self@.addresses_for(token@));
            },
        }
    }
}

/// What one cluster of the map holds.
pub ghost struct ClusterView {
    pub locality: Option<LocalityView>,
    pub set: EndpointSetView,
}

/// What a list of clusters holds.
spec fn clusters_view(clusters: Seq<(Option<Locality>, EndpointSet)>) -> Seq<ClusterView> {
    Seq::new(
        clusters.len(),
        |i: int|
            ClusterView {
                locality: match clusters[i].0 {
                    Some(locality) => Some(locality@),
                    None => None,
                },
                set: clusters[i].1@,
            },
    )
}

/// The place of the first cluster at `locality`, if there is one.
pub open spec fn cluster_at(clusters: Seq<ClusterView>, locality: Option<LocalityView>) -> Option<
    int,
> {
    if exists|i: int| 0 <= i < clusters.len() && clusters[i].locality == locality {
        Some(
            choose|i: int|
                0 <= i < clusters.len() && clusters[i].locality == locality && forall|j: int|
                    0 <= j < i ==> clusters[j].locality != locality,
        )
    } else {
        None
    }
}

/// Whether `after` is the cluster `before` with its token index built anew:
/// the index gives, for every token, the addresses of the endpoints that hold
/// the token.
pub open spec fn index_rebuilt(after: ClusterView, before: ClusterView) -> bool {
    &&& after.locality == before.locality
    &&& after.set.endpoints == before.set.endpoints
    &&& forall|token: Seq<u8>| #[trigger]
        after.set.addresses_for(token) == addresses_with_token(before.set.endpoints, token)
}

/// The clusters known to the proxy, in the order in which they are walked:
/// the order in which their localities were first inserted.
#[derive(Debug)]
pub struct ClusterMap {
    clusters: Vec<(Option<Locality>, EndpointSet)>,
}

impl View for ClusterMap {
    type V = Seq<ClusterView>;

    closed spec fn view(&self) -> Seq<ClusterView> {
        clusters_view(self.clusters@)
    }
}

impl ClusterMap {
    /// A map without any cluster.
    pub fn new() -> (map: ClusterMap)
        ensures
            map@ == Seq::<ClusterView>::empty(),
    {
        let map = ClusterMap { clusters: Vec::new() };
        assert(map@ =~= Seq::<ClusterView>::empty());
        map
    }

    /// The number of clusters.
    pub fn len(&self) -> (count: usize)
        ensures
            count == self@.len(),
    {
        self.clusters.len()
    }

    /// The endpoints of the cluster at place `i`.
    pub fn cluster(&self, i: usize) -> (set: &EndpointSet)
        requires
            i < self@.len(),
        ensures
            set@ == self@[i as int].set,
    {
        &self.clusters[i].1
    }

    /// Makes `endpoints`, with an empty index, the endpoints of the cluster
    /// at `locality`: in place of the first cluster at that locality, or
    /// else as a new last cluster.
    pub fn insert(&mut self, locality: Option<Locality>, endpoints: Vec<Endpoint>)
        ensures
            ({
                let cluster = ClusterView {
                    locality: match locality {
                        Some(l) => Some(l@),
                        None => None,
                    },
                    set: EndpointSetView {
                        endpoints: endpoints_view(endpoints@),
                        token_map: Map::empty(),
                    },
                };
                match cluster_at(old(self)@, cluster.locality) {
                    Some(at) => final(self)@ == old(self)@.update(at, cluster),
                    None => final(self)@ == old(self)@.push(cluster),
                }
            }),
    {
        let ghost wanted: Option<LocalityView> = match &locality {
            Some(l) => Some(l@),
            None => None,
        };
        let set = EndpointSet::new(endpoints);
        let mut i: usize = 0;
        while i < self.clusters.len()
            invariant
                *self == *old(self),
                set@ == (EndpointSetView {
                    endpoints: endpoints_view(endpoints@),
                    token_map: Map::empty(),
                }),
                i <= self.clusters@.len(),
                wanted == match locality {
                    Some(l) => Some(l@),
                    None => None,
                },
                forall|j: int| 0 <= j < i ==> self@[j].locality != wanted,
            decreases self.clusters@.len() - i,
        {
            let same = match (&self.clusters[i].0, &locality) {
                (Some(a), Some(b)) => a.eq(b),
                (None, None) => true,
                _ => false,
            };
            assert(same == (self@[i as int].locality == wanted));
            if same {
                let ghost at = cluster_at(old(self)@, wanted).unwrap();
                assert(at == i);
                let ghost cluster = ClusterView { locality: wanted, set: set@ };
                assert(cluster.set == (EndpointSetView {
                    endpoints: endpoints_view(endpoints@),
                    token_map: Map::empty(),
                }));
                self.clusters.set(i, (locality, set));
                assert(self@[i as int] == cluster);
                assert forall|k: int| 0 <= k < self@.len() implies self@[k] == old(self)@.update(
                    at,
                    cluster,
                )[k] by {
                    if k != i {
                        assert(self.clusters@[k] == old(self).clusters@[k]);
                    }
                }
                assert(self@ =~= old(self)@.update(at, cluster));
                return ;
            }
            i += 1;
        }
        let ghost cluster = ClusterView { locality: wanted, set: set@ };
        self.clusters.push((locality, set));
        assert(self@[i as int] == cluster);
        assert(self@ =~= old(self)@.push(cluster));
    }

    /// Makes `endpoints` the endpoints of the cluster without a locality.
    pub fn insert_default(&mut self, endpoints: Vec<Endpoint>)
        ensures
            ({
                let cluster = ClusterView {
                    locality: None,
                    set: EndpointSetView {
                        endpoints: endpoints_view(endpoints@),
                        token_map: Map::empty(),
                    },
                };
                match cluster_at(old(self)@, None) {
                    Some(at) => final(self)@ == old(self)@.update(at, cluster),
                    None => final(self)@ == old(self)@.push(cluster),
                }
            }),
    {
        self.insert(None, endpoints)
    }

    /// Builds the token index of every cluster anew from its endpoints.
    pub fn build_token_maps(&mut self)
        ensures
            final(self)@.len() == old(self)@.len(),
            forall|i: int|
                0 <= i < old(self)@.len() ==> index_rebuilt(
                    #[trigger] final(self)@[i],
                    old(self)@[i],
                ),
    {
        let mut clusters: Vec<(Option<Locality>, EndpointSet)> = Vec::new();
        core::mem::swap(&mut self.clusters, &mut clusters);
        let ghost all = clusters@;
        let mut built: Vec<(Option<Locality>, EndpointSet)> = Vec::new();
        for entry in it: clusters.into_iter()
            invariant
                it.seq() == all,
                built@.len() == it.index(),
                forall|i: int|
                    0 <= i < built@.len() ==> index_rebuilt(
                        #[trigger] clusters_view(built@)[i],
                        clusters_view(all)[i],
                    ),
        {
            let ghost at = built@.len() as int;
            assert(entry == all[at]);
            let (locality, mut set) = entry;
            set.build_token_map();
            let ghost before = built@;
            built.push((locality, set));
            assert forall|i: int| 0 <= i < before.len() implies clusters_view(built@)[i]
                == clusters_view(before)[i] by {
                assert(built@[i] == before[i]);
            }
            assert(built@[at] == (locality, set));
            assert(clusters_view(built@)[at].set == set@);
            assert(clusters_view(all)[at].set == all[at].1@);
            assert(index_rebuilt(clusters_view(built@)[at], clusters_view(all)[at]));
            assert forall|i: int| 0 <= i < built@.len() implies index_rebuilt(
                #[trigger] clusters_view(built@)[i],
                clusters_view(all)[i],
            ) by {
                if i < at {
                    assert(clusters_view(built@)[i] == clusters_view(before)[i]);
                }
            }
        }
        self.clusters = built;
    }
}

} // verus!
