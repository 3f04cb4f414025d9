//! Routers that forward a packet to the endpoints that hold the packet's
//! token.

use vstd::prelude::*;
use vstd::string::StringExecFns;

use crate::codec::base64;
use crate::filters::capture::CAPTURED_BYTES;
use crate::filters::{CreationError, FilterError, ReadContext};
use crate::net::address::{EndpointAddress, EndpointAddressView};
use crate::net::cluster::{ClusterMap, ClusterView};
use crate::net::endpoint::metadata::{DynamicMetadata, Key, Value, ValueView};
use crate::net::endpoint::{addresses_view, addresses_with_token};
use crate::xds::message::{parsed, Message, RoundTrip};

pub mod proto;

verus! {

/// The configuration of a token router.
#[derive(Debug)]
pub struct Config {
    /// The metadata key under which the packet's token is expected.
    pub metadata_key: Key,
}

impl View for Config {
    type V = Seq<char>;

    open spec fn view(&self) -> Seq<char> {
        self.metadata_key@
    }
}

/// The key that a router reads when its configuration names none: the key
/// under which the capture filter stores what it captured.
pub fn default_metadata_key() -> (key: Key)
    ensures
        key@ == CAPTURED_BYTES@,
{
    Key::from_static(CAPTURED_BYTES)
}

impl Default for Config {
    fn default() -> (config: Config)
        ensures
            config@ == CAPTURED_BYTES@,
    {
        Config { metadata_key: default_metadata_key() }
    }
}

impl Clone for Config {
    fn clone(&self) -> (copy: Config)
        ensures
            copy@ == self@,
    {
        Config { metadata_key: self.metadata_key.clone() }
    }
}

impl PartialEq for Config {
    fn eq(&self, other: &Config) -> (same: bool) {
        self.metadata_key.eq(&other.metadata_key)
    }
}

impl Eq for Config {}

impl vstd::std_specs::cmp::PartialEqSpecImpl for Config {
    open spec fn obeys_eq_spec() -> bool {
        true
    }

    open spec fn eq_spec(&self, other: &Config) -> bool {
        self@ == other@
    }
}

/// Why a configuration could not be taken from its wire form.
#[derive(Debug)]
pub struct ConvertProtoConfigError {
    /// What is wrong.
    pub reason: String,
    /// The field that is wrong, where it is one field.
    pub field: Option<String>,
}

/// The wire form of a configuration: the key is always sent.
pub open spec fn wire_form(config: Seq<char>) -> Option<Seq<char>> {
    Some(config)
}

/// The configuration that a wire form stands for: where the key is left
/// out, the default key.
pub open spec fn config_of(wire: Option<Seq<char>>) -> Seq<char> {
    match wire {
        Some(key) => key,
        None => CAPTURED_BYTES@,
    }
}

/// A configuration comes back unchanged from its wire form, also when the
/// wire form is sent as bytes in between.
pub proof fn lemma_config_survives_wire_form(config: Seq<char>, bytes: Vec<u8>)
    requires
        bytes@ == proto::TokenRouter::encoded(wire_form(config)),
    ensures
        config_of(wire_form(config)) == config,
        parsed::<proto::TokenRouter>(bytes@, proto::TokenRouter::empty()) == Some(
            wire_form(config),
        ),
{
    broadcast use vstd::std_specs::vec::axiom_spec_len;

    assert(bytes@.len() == bytes.len());
    proto::TokenRouter::lemma_round_trip(wire_form(config));
}

/// A wire form without a key, sent as bytes, stands for the default
/// configuration.
pub proof fn lemma_absent_key_is_default()
    ensures
        proto::TokenRouter::encoded(None) == Seq::<u8>::empty(),
        parsed::<proto::TokenRouter>(Seq::empty(), proto::TokenRouter::empty()) matches Some(
            wire,
        ) && config_of(wire) == CAPTURED_BYTES@,
{
}

impl From<Config> for proto::TokenRouter {
    fn from(config: Config) -> (wire: proto::TokenRouter)
        ensures
            wire@ == wire_form(config@),
    {
        proto::TokenRouter { metadata_key: Some(config.metadata_key.to_string()) }
    }
}

impl vstd::std_specs::convert::FromSpecImpl<Config> for proto::TokenRouter {
    open spec fn obeys_from_spec() -> bool {
        false
    }

    open spec fn from_spec(config: Config) -> proto::TokenRouter {
        choose|wire: proto::TokenRouter| wire@ == wire_form(config@)
    }
}

impl TryFrom<proto::TokenRouter> for Config {
    type Error = ConvertProtoConfigError;

    fn try_from(wire: proto::TokenRouter) -> (converted: Result<Config, ConvertProtoConfigError>)
        ensures
            converted matches Ok(config) && config@ == config_of(wire@),
    {
        Ok(
            Config {
                metadata_key: match wire.metadata_key {
                    Some(key) => Key::new(key),
                    None => default_metadata_key(),
                },
            },
        )
    }
}

impl vstd::std_specs::convert::TryFromSpecImpl<proto::TokenRouter> for Config {
    open spec fn obeys_try_from_spec() -> bool {
        false
    }

    open spec fn try_from_spec(wire: proto::TokenRouter) -> Result<
        Config,
        ConvertProtoConfigError,
    > {
        Ok(choose|config: Config| config@ == config_of(wire@))
    }
}

/// Why a router did not find a destination.
#[derive(Debug)]
pub enum Error {
    /// The metadata holds nothing under the key.
    NoTokenFound(Key),
    /// The metadata holds, under the key, a value that is no byte string.
    InvalidType(Key, Value),
    /// No endpoint is reached by the token, given here as base64 text.
    NoEndpointMatch(Key, String),
}

/// What a router's error holds.
pub ghost enum ErrorView {
    NoTokenFound(Seq<char>),
    InvalidType(Seq<char>, ValueView),
    NoEndpointMatch(Seq<char>, Seq<char>),
}

impl View for Error {
    type V = ErrorView;

    open spec fn view(&self) -> ErrorView {
        match self {
            Error::NoTokenFound(key) => ErrorView::NoTokenFound(key@),
            Error::InvalidType(key, value) => ErrorView::InvalidType(key@, value@),
            Error::NoEndpointMatch(key, token) => ErrorView::NoEndpointMatch(key@, token@),
        }
    }
}

/// The text that `{:?}` gives for a metadata value.
pub uninterp spec fn value_debug_text(value: ValueView) -> Seq<char>;

/// The standard library's `{:?}` formatting of a metadata value, through the
/// derived `Debug`: the text depends on the value alone.
#[verifier::external_body]
fn debug_text(value: &Value) -> (text: String)
    ensures
        text@ == value_debug_text(value@),
{
    format!("{:?}", value)
}

impl ErrorView {
    /// The text of the error.
    pub open spec fn message(self) -> Seq<char> {
        match self {
            ErrorView::NoTokenFound(key) => "no routing token found for `"@ + key + "`"@,
            ErrorView::InvalidType(key, value) => "key `"@ + key
                + "` was found but wasn't bytes, found "@ + value_debug_text(value),
            ErrorView::NoEndpointMatch(key, token) => "no endpoint matched token `"@ + token
                + "` from `"@ + key + "`"@,
        }
    }
}

impl Error {
    /// The text of this error.
    pub fn to_string(&self) -> (text: String)
        ensures
            text@ == self@.message(),
    {
        match self {
            Error::NoTokenFound(key) => {
                let mut text = "no routing token found for `".to_owned();
                text.append(key.as_str());
                text.append("`");
                text
            },
            Error::InvalidType(key, value) => {
                let mut text = "key `".to_owned();
                text.append(key.as_str());
                text.append("` was found but wasn't bytes, found ");
                let found = debug_text(value);
                text.append(found.as_str());
                text
            },
            Error::NoEndpointMatch(key, token) => {
                let mut text = "no endpoint matched token `".to_owned();
                text.append(token.as_str());
                text.append("` from `");
                text.append(key.as_str());
                text.append("`");
                text
            },
        }
    }
}

/// The token that a router finds for a packet, or why it finds none: the
/// metadata must hold a byte string under the key.
pub open spec fn token_under(key: Seq<char>, metadata: Map<Seq<char>, ValueView>) -> Result<
    Seq<u8>,
    ErrorView,
> {
    if !metadata.contains_key(key) {
        Err(ErrorView::NoTokenFound(key))
    } else {
        match metadata[key] {
            ValueView::Bytes(token) => Ok(token),
            other => Err(ErrorView::InvalidType(key, other)),
        }
    }
}

/// What routing a packet comes to: the addresses to forward to, of which
/// there is at least one, or the error.
pub open spec fn routed(
    key: Seq<char>,
    metadata: Map<Seq<char>, ValueView>,
    token_addresses: spec_fn(Seq<u8>) -> Seq<EndpointAddressView>,
) -> Result<Seq<EndpointAddressView>, ErrorView> {
    match token_under(key, metadata) {
        Err(error) => Err(error),
        Ok(token) => if token_addresses(token).len() == 0 {
            Err(ErrorView::NoEndpointMatch(key, base64::encoded(token)))
        } else {
            Ok(token_addresses(token))
        },
    }
}

/// Whether a router that was to come to `outcome` has done so: on success
/// the addresses are the packet's destinations and nothing else in the
/// context has changed; on failure the error is returned and the context is
/// as it was.
pub open spec fn routing_done(
    outcome: Result<Seq<EndpointAddressView>, ErrorView>,
    before: ReadContext,
    after: ReadContext,
    result: Result<(), FilterError>,
) -> bool {
    match outcome {
        Ok(addresses) => {
            &&& result is Ok
            &&& addresses_view(after.destinations@) == addresses
            &&& after == (ReadContext { destinations: after.destinations, ..before })
        },
        Err(error) => {
            &&& result matches Err(FilterError::TokenRouter(found))
            &&& found@ == error
            &&& after == before
        },
    }
}

/// A filter that picks the destinations of a packet by the packet's token.
pub trait Router: Sized {
    /// The metadata key under which this router expects the token.
    spec fn metadata_key(&self) -> Seq<char>;

    /// The addresses that this router's strategy finds for a token in a
    /// cluster map.
    spec fn token_addresses(clusters: Seq<ClusterView>, token: Seq<u8>) -> Seq<EndpointAddressView>;

    /// Routes one packet: reads the token from the metadata and writes the
    /// addresses found for it into the destinations. A packet is never
    /// passed on without a destination.
    fn sync_read(&self, ctx: &mut ReadContext) -> (result: Result<(), FilterError>)
        ensures
            routing_done(
                routed(
                    self.metadata_key(),
                    old(ctx).metadata@,
                    |token: Seq<u8>| Self::token_addresses(old(ctx).endpoints@, token),
                ),
                *old(ctx),
                *final(ctx),
                result
            ),
            result is Ok ==> final(ctx).destinations@.len() > 0,
    ;

    /// The router that reads the default key.
    fn new() -> (router: Self)
        ensures
            router.metadata_key() == CAPTURED_BYTES@,
    ;
}

/// The token of the packet, read from the metadata.
fn read_token<'a>(key: &Key, metadata: &'a DynamicMetadata) -> (found: Result<&'a Vec<u8>, Error>)
    ensures
        match found {
            Ok(token) => token_under(key@, metadata@) == Ok::<Seq<u8>, ErrorView>(token@),
            Err(error) => token_under(key@, metadata@) == Err::<Seq<u8>, ErrorView>(error@),
        },
{
    match metadata.get(key) {
        Some(Value::Bytes(token)) => Ok(token),
        Some(value) => Err(Error::InvalidType(key.clone(), value.clone())),
        None => Err(Error::NoTokenFound(key.clone())),
    }
}

/// The addresses of the endpoints that hold `token`: cluster after cluster,
/// and in each cluster endpoint after endpoint, in the order of the map.
pub open spec fn addresses_across(clusters: Seq<ClusterView>, token: Seq<u8>) -> Seq<
    EndpointAddressView,
>
    decreases clusters.len(),
{
    if clusters.len() == 0 {
        Seq::empty()
    } else {
        addresses_across(clusters.drop_last(), token) + addresses_with_token(
            clusters.last().set.endpoints,
            token,
        )
    }
}

/// The addresses that the token index of the first cluster gives whose
/// index gives any for `token`: the clusters behind it are not asked.
pub open spec fn first_indexed(clusters: Seq<ClusterView>, token: Seq<u8>) -> Seq<
    EndpointAddressView,
>
    decreases clusters.len(),
{
    if clusters.len() == 0 {
        Seq::empty()
    } else if clusters.first().set.addresses_for(token).len() > 0 {
        clusters.first().set.addresses_for(token)
    } else {
        first_indexed(clusters.drop_first(), token)
    }
}

/// The hashed router takes the first cluster whose index knows the token:
/// where the index of the cluster at `at` gives an address and no index
/// before it does, the addresses are those that this index gives, whatever
/// the clusters behind it hold.
pub proof fn lemma_first_index_wins(clusters: Seq<ClusterView>, token: Seq<u8>, at: int)
    requires
        0 <= at < clusters.len(),
        clusters[at].set.addresses_for(token).len() > 0,
        forall|i: int| 0 <= i < at ==> clusters[i].set.addresses_for(token).len() == 0,
    ensures
        first_indexed(clusters, token) == clusters[at].set.addresses_for(token),
        first_indexed(clusters, token) == first_indexed(clusters.take(at + 1), token),
    decreases clusters.len(),
{
    if at > 0 {
        assert(clusters[0].set.addresses_for(token).len() == 0);
        assert forall|i: int| 0 <= i < at - 1 implies clusters.drop_first()[i].set.addresses_for(
            token,
        ).len() == 0 by {
            assert(clusters.drop_first()[i] == clusters[i + 1]);
        }
        lemma_first_index_wins(clusters.drop_first(), token, at - 1);
        assert(clusters.take(at + 1).drop_first() =~= clusters.drop_first().take(at));
    } else {
        assert(clusters.take(1).first() == clusters.first());
    }
}

/// Where no index knows the token, the hashed router finds no address.
pub proof fn lemma_no_index_no_address(clusters: Seq<ClusterView>, token: Seq<u8>)
    requires
        forall|i: int| 0 <= i < clusters.len() ==> clusters[i].set.addresses_for(token).len() == 0,
    ensures
        first_indexed(clusters, token) == Seq::<EndpointAddressView>::empty(),
    decreases clusters.len(),
{
    if clusters.len() > 0 {
        assert forall|i: int|
            0 <= i < clusters.len() - 1 implies clusters.drop_first()[i].set.addresses_for(
            token,
        ).len() == 0 by {
            assert(clusters.drop_first()[i] == clusters[i + 1]);
        }
        lemma_no_index_no_address(clusters.drop_first(), token);
    }
}

/// What the linear router finds is what it finds in the first cluster,
/// followed by what it finds in the clusters behind it.
pub proof fn lemma_scan_starts_with_first_cluster(clusters: Seq<ClusterView>, token: Seq<u8>)
    requires
        clusters.len() > 0,
    ensures
        addresses_across(clusters, token) == addresses_with_token(
            clusters.first().set.endpoints,
            token,
        ) + addresses_across(clusters.drop_first(), token),
    decreases clusters.len(),
{
    let first = addresses_with_token(clusters.first().set.endpoints, token);
    let last = addresses_with_token(clusters.last().set.endpoints, token);
    if clusters.len() == 1 {
        assert(clusters.drop_last() =~= Seq::<ClusterView>::empty());
        assert(clusters.drop_first() =~= Seq::<ClusterView>::empty());
        assert(clusters.first() == clusters.last());
        assert(addresses_across(clusters.drop_last(), token) =~= Seq::<
            EndpointAddressView,
        >::empty());
        assert(addresses_across(clusters.drop_first(), token) =~= Seq::<
            EndpointAddressView,
        >::empty());
        assert(addresses_across(clusters, token) =~= first + Seq::<EndpointAddressView>::empty());
    } else {
        lemma_scan_starts_with_first_cluster(clusters.drop_last(), token);
        assert(clusters.drop_last().drop_first() =~= clusters.drop_first().drop_last());
        assert(clusters.drop_last().first() == clusters.first());
        assert(clusters.drop_first().last() == clusters.last());
        assert(addresses_across(clusters, token) =~= first + (addresses_across(
            clusters.drop_first().drop_last(),
            token,
        ) + last));
    }
}

/// With indexes that are up to date, the two routers agree on whether a
/// token reaches an endpoint, and the hashed router finds the first
/// addresses that the linear router finds: those in the first cluster with
/// an endpoint that holds the token.
pub proof fn lemma_index_finds_what_scan_finds_first(clusters: Seq<ClusterView>, token: Seq<u8>)
    requires
        forall|i: int|
            0 <= i < clusters.len() ==> (#[trigger] clusters[i]).set.addresses_for(token)
                == addresses_with_token(clusters[i].set.endpoints, token),
    ensures
        first_indexed(clusters, token).len() <= addresses_across(clusters, token).len(),
        first_indexed(clusters, token) == addresses_across(clusters, token).take(
            first_indexed(clusters, token).len() as int,
        ),
        first_indexed(clusters, token).len() == 0 <==> addresses_across(clusters, token).len() == 0,
    decreases clusters.len(),
{
    if clusters.len() > 0 {
        let first = addresses_with_token(clusters.first().set.endpoints, token);
        let behind = addresses_across(clusters.drop_first(), token);
        lemma_scan_starts_with_first_cluster(clusters, token);
        assert(clusters[0].set.addresses_for(token) == first);
        if first.len() > 0 {
            assert((first + behind).take(first.len() as int) =~= first);
        } else {
            assert forall|i: int| 0 <= i < clusters.drop_first().len() implies (
            #[trigger] clusters.drop_first()[i]).set.addresses_for(token) == addresses_with_token(
                clusters.drop_first()[i].set.endpoints,
                token,
            ) by {
                assert(clusters.drop_first()[i] == clusters[i + 1]);
            }
            lemma_index_finds_what_scan_finds_first(clusters.drop_first(), token);
            assert(first + behind =~= behind);
        }
    } else {
        assert(addresses_across(clusters, token).take(0) =~= Seq::<EndpointAddressView>::empty());
    }
}

/// Scans every endpoint of every cluster for `token`.
fn scan_endpoints(clusters: &ClusterMap, token: &[u8]) -> (found: Vec<EndpointAddress>)
    ensures
        addresses_view(found@) == addresses_across(clusters@, token@),
{
    let mut found: Vec<EndpointAddress> = Vec::new();
    let mut c: usize = 0;
    assert(clusters@.take(0) =~= Seq::<ClusterView>::empty());
    assert(addresses_view(found@) =~= Seq::<EndpointAddressView>::empty());
    while c < clusters.len()
        invariant
            c <= clusters@.len(),
            addresses_view(found@) == addresses_across(clusters@.take(c as int), token@),
        decreases clusters@.len() - c,
    {
        let set = clusters.cluster(c);
        let ghost endpoints = clusters@[c as int].set.endpoints;
        let ghost before = addresses_view(found@);
        let mut e: usize = 0;
        assert(endpoints.take(0) =~= Seq::empty());
        assert(addresses_view(found@) =~= before + addresses_with_token(endpoints.take(0), token@));
        while e < set.len()
            invariant
                e <= endpoints.len(),
                endpoints == set@.endpoints,
                addresses_view(found@) == before + addresses_with_token(
                    endpoints.take(e as int),
                    token@,
                ),
            decreases endpoints.len() - e,
        {
            let endpoint = set.endpoint(e);
            let ghost so_far = addresses_view(found@);
            assert(endpoints.take(e + 1).drop_last() =~= endpoints.take(e as int));
            if endpoint.metadata.contains(token) {
                found.push(endpoint.address.clone());
                assert(addresses_view(found@) =~= so_far.push(endpoint.address@));
            }
            e += 1;
            assert(addresses_view(found@) =~= before + addresses_with_token(
                endpoints.take(e as int),
                token@,
            ));
        }
        assert(endpoints.take(e as int) =~= endpoints);
        assert(clusters@.take(c + 1).drop_last() =~= clusters@.take(c as int));
        c += 1;
    }
    assert(clusters@.take(c as int) =~= clusters@);
    found
}

/// Asks the token index of cluster after cluster for `token`, up to the
/// first cluster whose index gives an address.
fn ask_indexes(clusters: &ClusterMap, token: &[u8]) -> (found: Vec<EndpointAddress>)
    ensures
        addresses_view(found@) == first_indexed(clusters@, token@),
{
    let mut found: Vec<EndpointAddress> = Vec::new();
    let mut c: usize = 0;
    assert(clusters@.skip(0) =~= clusters@);
    assert(addresses_view(found@) =~= Seq::<EndpointAddressView>::empty());
    while c < clusters.len()
        invariant
            c <= clusters@.len(),
            found@.len() == 0,
            first_indexed(clusters@, token@) == first_indexed(clusters@.skip(c as int), token@),
        decreases clusters@.len() - c,
    {
        assert(clusters@.skip(c as int).drop_first() =~= clusters@.skip(c + 1));
        assert(addresses_view(found@) =~= Seq::<EndpointAddressView>::empty());
        clusters.cluster(c).addresses_for_token(token, &mut found);
        assert(addresses_view(found@) =~= clusters@[c as int].set.addresses_for(token@));
        if !found.is_empty() {
            return found;
        }
        c += 1;
    }
    assert(addresses_view(found@) =~= Seq::<EndpointAddressView>::empty());
    found
}

/// Writes the addresses found for a token into the context, or fails where
/// there is none.
fn forward_to(
    key: &Key,
    token: &[u8],
    found: Vec<EndpointAddress>,
    destinations: &mut Vec<EndpointAddress>,
) -> (result: Result<(), FilterError>)
    ensures
        match result {
            Ok(()) => found@.len() > 0 && *final(destinations) == found,
            Err(FilterError::TokenRouter(error)) => {
                &&& found@.len() == 0
                &&& error@ == ErrorView::NoEndpointMatch(key@, base64::encoded(token@))
                &&& *final(destinations) == *old(destinations)
            },
        },
{
    if found.is_empty() {
        Err(FilterError::new(Error::NoEndpointMatch(key.clone(), base64::encode(token))))
    } else {
        *destinations = found;
        Ok(())
    }
}

/// The router that scans every endpoint for the packet's token.
#[derive(Debug)]
pub struct TokenRouter {
    config: Config,
}

impl TokenRouter {
    /// The name under which this filter is registered.
    pub const NAME: &'static str = "quilkin.filters.token_router.v1alpha1.TokenRouter";

    /// The router with the given configuration.
    pub fn new(config: Config) -> (router: TokenRouter)
        ensures
            router.metadata_key() == config@,
    {
        TokenRouter { config }
    }

    /// The router with the given configuration, or with the default one
    /// where none is given. It never fails.
    pub fn try_from_config(config: Option<Config>) -> (created: Result<TokenRouter, CreationError>)
        ensures
            created matches Ok(router) && router.metadata_key() == (match config {
                Some(given) => given@,
                None => CAPTURED_BYTES@,
            }),
    {
        match config {
            Some(given) => Ok(TokenRouter::new(given)),
            None => Ok(TokenRouter::new(Config::default())),
        }
    }

    /// The router with the given configuration, or with the default one
    /// where none is given.
    pub fn from_config(config: Option<Config>) -> (router: TokenRouter)
        ensures
            router.metadata_key() == (match config {
                Some(given) => given@,
                None => CAPTURED_BYTES@,
            }),
    {
        match config {
            Some(given) => TokenRouter::new(given),
            None => TokenRouter::new(Config::default()),
        }
    }
}

impl Router for TokenRouter {
    closed spec fn metadata_key(&self) -> Seq<char> {
        self.config@
    }

    open spec fn token_addresses(clusters: Seq<ClusterView>, token: Seq<u8>) -> Seq<
        EndpointAddressView,
    > {
        addresses_across(clusters, token)
    }

    fn sync_read(&self, ctx: &mut ReadContext) -> (result: Result<(), FilterError>) {
        match read_token(&self.config.metadata_key, &ctx.metadata) {
            Ok(token) => {
                let found = scan_endpoints(&ctx.endpoints, token.as_slice());
                forward_to(
                    &self.config.metadata_key,
                    token.as_slice(),
                    found,
                    &mut ctx.destinations,
                )
            },
            Err(error) => Err(FilterError::new(error)),
        }
    }

    fn new() -> (router: TokenRouter) {
        TokenRouter::from_config(None)
    }
}

/// The router that asks the token index of each cluster for the packet's
/// token.
#[derive(Debug)]
pub struct HashedTokenRouter {
    config: Config,
}

impl HashedTokenRouter {
    /// The name under which this filter is registered.
    pub const NAME: &'static str = "quilkin.filters.token_router.v1alpha1.HashedTokenRouter";

    /// The router with the given configuration.
    pub fn new(config: Config) -> (router: HashedTokenRouter)
        ensures
            router.metadata_key() == config@,
    {
        HashedTokenRouter { config }
    }

    /// The router with the given configuration, or with the default one
    /// where none is given. It never fails.
    pub fn try_from_config(config: Option<Config>) -> (created: Result<
        HashedTokenRouter,
        CreationError,
    >)
        ensures
            created matches Ok(router) && router.metadata_key() == (match config {
                Some(given) => given@,
                None => CAPTURED_BYTES@,
            }),
    {
        match config {
            Some(given) => Ok(HashedTokenRouter::new(given)),
            None => Ok(HashedTokenRouter::new(Config::default())),
        }
    }

    /// The router with the given configuration, or with the default one
    /// where none is given.
    pub fn from_config(config: Option<Config>) -> (router: HashedTokenRouter)
        ensures
            router.metadata_key() == (match config {
                Some(given) => given@,
                None => CAPTURED_BYTES@,
            }),
    {
        match config {
            Some(given) => HashedTokenRouter::new(given),
            None => HashedTokenRouter::new(Config::default()),
        }
    }
}

impl Router for HashedTokenRouter {
    closed spec fn metadata_key(&self) -> Seq<char> {
        self.config@
    }

    open spec fn token_addresses(clusters: Seq<ClusterView>, token: Seq<u8>) -> Seq<
        EndpointAddressView,
    > {
        first_indexed(clusters, token)
    }

    fn sync_read(&self, ctx: &mut ReadContext) -> (result: Result<(), FilterError>) {
        match read_token(&self.config.metadata_key, &ctx.metadata) {
            Ok(token) => {
                let found = ask_indexes(&ctx.endpoints, token.as_slice());
                forward_to(
                    &self.config.metadata_key,
                    token.as_slice(),
                    found,
                    &mut ctx.destinations,
                )
            },
            Err(error) => Err(FilterError::new(error)),
        }
    }

    fn new() -> (router: HashedTokenRouter) {
        HashedTokenRouter::from_config(None)
    }
}

} // verus!
