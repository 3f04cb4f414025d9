//! Resources: their kinds, the wire type identifier of each kind, and the
//! envelopes in which they are sent.

use vstd::prelude::*;
use vstd::string::StringExecFns;

use crate::net::address::SocketAddr;
use crate::net::endpoint::locality::Locality;
use crate::text::str_eq;
use crate::xds::message::{decode, EncodeError, Malformed, Message, RoundTrip, parsed};
use crate::xds::proto::{
    Cluster, ClusterView, Datacenter, DatacenterView, FilterChain, FilterChainView, Listener,
    ListenerView,
};

verus! {

/// Type identifier of a cluster resource.
pub const CLUSTER_TYPE: &'static str = "type.googleapis.com/quilkin.config.v1alpha1.Cluster";

/// Type identifier of a listener resource.
pub const LISTENER_TYPE: &'static str = "type.googleapis.com/envoy.config.listener.v3.Listener";

/// Type identifier of a datacenter resource.
pub const DATACENTER_TYPE: &'static str = "type.googleapis.com/quilkin.config.v1alpha1.Datacenter";

/// Type identifier of a filter chain resource.
pub const FILTER_CHAIN_TYPE: &'static str =
    "type.googleapis.com/quilkin.config.v1alpha1.FilterChain";

/// The kinds of resource that the control plane exchanges.
#[derive(Clone, Copy, Debug, PartialEq, Eq, Structural, Hash, PartialOrd, Ord)]
pub enum ResourceType {
    Cluster,
    Listener,
    FilterChain,
    Datacenter,
}

/// The identifier of each resource kind.
pub open spec fn type_url_of(kind: ResourceType) -> Seq<char> {
    match kind {
        ResourceType::Cluster => CLUSTER_TYPE@,
        ResourceType::Listener => LISTENER_TYPE@,
        ResourceType::Datacenter => DATACENTER_TYPE@,
        ResourceType::FilterChain => FILTER_CHAIN_TYPE@,
    }
}

/// The resource kind that an identifier names, if it names one.
pub open spec fn resource_type_of(url: Seq<char>) -> Option<ResourceType> {
    if url == CLUSTER_TYPE@ {
        Some(ResourceType::Cluster)
    } else if url == LISTENER_TYPE@ {
        Some(ResourceType::Listener)
    } else if url == FILTER_CHAIN_TYPE@ {
        Some(ResourceType::FilterChain)
    } else if url == DATACENTER_TYPE@ {
        Some(ResourceType::Datacenter)
    } else {
        None
    }
}

/// No two resource kinds share an identifier: the identifier of a kind names
/// that kind and no other.
pub proof fn lemma_type_url_names_its_kind(kind: ResourceType)
    ensures
        resource_type_of(type_url_of(kind)) == Some(kind),
{
    reveal_strlit("type.googleapis.com/quilkin.config.v1alpha1.Cluster");
    reveal_strlit("type.googleapis.com/envoy.config.listener.v3.Listener");
    reveal_strlit("type.googleapis.com/quilkin.config.v1alpha1.Datacenter");
    reveal_strlit("type.googleapis.com/quilkin.config.v1alpha1.FilterChain");
    assert(CLUSTER_TYPE@.len() == 51);
    assert(LISTENER_TYPE@.len() == 53);
    assert(DATACENTER_TYPE@.len() == 54);
    assert(FILTER_CHAIN_TYPE@.len() == 55);
}

/// A string that names a resource kind is the identifier of that kind.
pub proof fn lemma_named_kind_has_that_url(url: Seq<char>)
    ensures
        resource_type_of(url) matches Some(kind) ==> type_url_of(kind) == url,
{
}

impl ResourceType {
    /// Every resource kind, in the order in which callers enumerate them.
    pub const VARIANTS: [ResourceType; 4] = [
        ResourceType::Cluster,
        ResourceType::Listener,
        ResourceType::FilterChain,
        ResourceType::Datacenter,
    ];

    /// Every resource kind, in the order in which callers enumerate them.
    pub fn variants() -> (all: [ResourceType; 4])
        ensures
            all@ == seq![
                ResourceType::Cluster,
                ResourceType::Listener,
                ResourceType::FilterChain,
                ResourceType::Datacenter,
            ],
    {
        Self::VARIANTS
    }

    /// The type identifier of this resource kind.
    pub fn type_url(&self) -> (url: &'static str)
        ensures
            url@ == type_url_of(*self),
    {
        match self {
            ResourceType::Cluster => CLUSTER_TYPE,
            ResourceType::Listener => LISTENER_TYPE,
            ResourceType::Datacenter => DATACENTER_TYPE,
            ResourceType::FilterChain => FILTER_CHAIN_TYPE,
        }
    }

    /// The type identifier of this resource kind, as an owned string.
    pub fn to_string(&self) -> (url: String)
        ensures
            url@ == type_url_of(*self),
    {
        self.type_url().to_owned()
    }

    /// Puts a message into an envelope under the identifier of this
    /// resource kind. The buffer is made as long as the wire form of the
    /// message is. It fails where the wire form is longer than a buffer can
    /// be, and only there.
    pub fn encode_to_any<M: Message>(self, message: &M) -> (sealed: Result<Envelope, EncodeError>)
        ensures
            match sealed {
                Ok(any) => {
                    &&& any.type_url@ == type_url_of(self)
                    &&& any.value@ == M::encoded(message@)
                    &&& any.value@.len() <= isize::MAX
                },
                Err(error) => {
                    &&& M::encoded(message@).len() > isize::MAX
                    &&& error.remaining() == isize::MAX
                    &&& error.required_capacity() == if M::encoded(message@).len() <= usize::MAX {
                        M::encoded(message@).len() as usize
                    } else {
                        usize::MAX
                    }
                },
            },
    {
        let remaining = isize::MAX as usize;
        match message.encoded_len() {
            Some(required) => {
                if required > remaining {
                    Err(EncodeError::new(required, remaining))
                } else {
                    let mut buf: Vec<u8> = Vec::with_capacity(required);
                    message.encode_raw(&mut buf);
                    assert(buf@ =~= M::encoded(message@));
                    Ok(Envelope { type_url: self.type_url().to_owned(), value: buf })
                }
            },
            None => Err(EncodeError::new(usize::MAX, remaining)),
        }
    }
}

/// The error for a type identifier that names no resource kind: it holds
/// the identifier.
#[derive(Debug)]
pub struct UnknownResourceType(String);

impl View for UnknownResourceType {
    type V = Seq<char>;

    closed spec fn view(&self) -> Seq<char> {
        self.0@
    }
}

impl UnknownResourceType {
    /// The identifier that names no resource kind.
    pub fn type_url(&self) -> (url: &str)
        ensures
            url@ == self@,
    {
        self.0.as_str()
    }

    /// The text of this error.
    pub fn to_string(&self) -> (text: String)
        ensures
            text@ == "Unknown resource type: "@ + self@,
    {
        let mut text = "Unknown resource type: ".to_owned();
        text.append(self.0.as_str());
        text
    }
}

/// The status of an outside call.
#[verifier::external_type_specification]
#[verifier::external_body]
pub struct ExStatus(tonic::Status);

/// The status that `tonic::Status::invalid_argument` makes of a message.
pub uninterp spec fn invalid_argument_status(message: Seq<char>) -> tonic::Status;

/// `tonic::Status::invalid_argument`: the status of the invalid-argument
/// class with the given message; it depends on the message alone.
#[verifier::external_body]
fn invalid_argument(message: String) -> (status: tonic::Status)
    ensures
        status == invalid_argument_status(message@),
{
    tonic::Status::invalid_argument(message)
}

impl From<UnknownResourceType> for tonic::Status {
    /// The status with which a call that named no resource kind is answered:
    /// of the invalid-argument class, with the text of the error as its
    /// message.
    fn from(error: UnknownResourceType) -> (status: tonic::Status)
        ensures
            status == invalid_argument_status("Unknown resource type: "@ + error@),
    {
        invalid_argument(error.to_string())
    }
}

impl vstd::std_specs::convert::FromSpecImpl<UnknownResourceType> for tonic::Status {
    open spec fn obeys_from_spec() -> bool {
        false
    }

    open spec fn from_spec(error: UnknownResourceType) -> tonic::Status {
        arbitrary()
    }
}

impl TryFrom<&str> for ResourceType {
    type Error = UnknownResourceType;

    /// The resource kind that the identifier names. Identifiers are compared
    /// character by character; any other string is rejected.
    fn try_from(url: &str) -> (found: Result<ResourceType, UnknownResourceType>)
        ensures
            match resource_type_of(url@) {
                Some(kind) => found == Ok::<ResourceType, UnknownResourceType>(kind),
                None => found matches Err(unknown) && unknown@ == url@,
            },
    {
        if str_eq(url, CLUSTER_TYPE) {
            Ok(ResourceType::Cluster)
        } else if str_eq(url, LISTENER_TYPE) {
            Ok(ResourceType::Listener)
        } else if str_eq(url, FILTER_CHAIN_TYPE) {
            Ok(ResourceType::FilterChain)
        } else if str_eq(url, DATACENTER_TYPE) {
            Ok(ResourceType::Datacenter)
        } else {
            Err(UnknownResourceType(url.to_owned()))
        }
    }
}

impl vstd::std_specs::convert::TryFromSpecImpl<&str> for ResourceType {
    open spec fn obeys_try_from_spec() -> bool {
        false
    }

    open spec fn try_from_spec(url: &str) -> Result<ResourceType, UnknownResourceType> {
        match resource_type_of(url@) {
            Some(kind) => Ok(kind),
            None => Err(choose|unknown: UnknownResourceType| unknown@ == url@),
        }
    }
}

impl TryFrom<String> for ResourceType {
    type Error = UnknownResourceType;

    fn try_from(url: String) -> (found: Result<ResourceType, UnknownResourceType>)
        ensures
            match resource_type_of(url@) {
                Some(kind) => found == Ok::<ResourceType, UnknownResourceType>(kind),
                None => found matches Err(unknown) && unknown@ == url@,
            },
    {
        ResourceType::try_from(url.as_str())
    }
}

impl vstd::std_specs::convert::TryFromSpecImpl<String> for ResourceType {
    open spec fn obeys_try_from_spec() -> bool {
        false
    }

    open spec fn try_from_spec(url: String) -> Result<ResourceType, UnknownResourceType> {
        match resource_type_of(url@) {
            Some(kind) => Ok(kind),
            None => Err(choose|unknown: UnknownResourceType| unknown@ == url@),
        }
    }
}

impl TryFrom<&String> for ResourceType {
    type Error = UnknownResourceType;

    fn try_from(url: &String) -> (found: Result<ResourceType, UnknownResourceType>)
        ensures
            match resource_type_of(url@) {
                Some(kind) => found == Ok::<ResourceType, UnknownResourceType>(kind),
                None => found matches Err(unknown) && unknown@ == url@,
            },
    {
        ResourceType::try_from(url.as_str())
    }
}

impl vstd::std_specs::convert::TryFromSpecImpl<&String> for ResourceType {
    open spec fn obeys_try_from_spec() -> bool {
        false
    }

    open spec fn try_from_spec(url: &String) -> Result<ResourceType, UnknownResourceType> {
        match resource_type_of(url@) {
            Some(kind) => Ok(kind),
            None => Err(choose|unknown: UnknownResourceType| unknown@ == url@),
        }
    }
}

impl std::str::FromStr for ResourceType {
    type Err = UnknownResourceType;

    fn from_str(url: &str) -> (found: Result<ResourceType, UnknownResourceType>)
        ensures
            match resource_type_of(url@) {
                Some(kind) => found == Ok::<ResourceType, UnknownResourceType>(kind),
                None => found matches Err(unknown) && unknown@ == url@,
            },
    {
        ResourceType::try_from(url)
    }
}

/// A typed container of an encoded resource: the identifier of the kind and
/// the wire form of the message.
#[derive(Debug)]
pub struct Envelope {
    pub type_url: String,
    pub value: Vec<u8>,
}

/// Why an envelope holds no resource.
#[derive(Debug)]
pub enum ResourceError {
    /// The identifier of the envelope names no resource kind.
    UnknownResourceType(UnknownResourceType),
    /// The bytes of the envelope are not a message of the kind that the
    /// identifier names.
    Decode(Malformed),
}

impl ResourceError {
    /// The text of this error: that of the error that it holds.
    pub fn to_string(&self) -> (text: String)
        ensures
            text@ == match self {
                ResourceError::UnknownResourceType(unknown) => "Unknown resource type: "@
                    + unknown@,
                ResourceError::Decode(malformed) => malformed@,
            },
    {
        match self {
            ResourceError::UnknownResourceType(unknown) => unknown.to_string(),
            ResourceError::Decode(malformed) => malformed.to_string(),
        }
    }
}

/// A configuration resource: one message of one of the four kinds.
#[derive(Debug)]
pub enum Resource {
    Cluster(Box<Cluster>),
    Datacenter(Box<Datacenter>),
    Listener(Box<Listener>),
    FilterChain(FilterChain),
}

/// What a resource holds.
pub ghost enum ResourceView {
    Cluster(ClusterView),
    Datacenter(DatacenterView),
    Listener(ListenerView),
    FilterChain(FilterChainView),
}

impl View for Resource {
    type V = ResourceView;

    open spec fn view(&self) -> ResourceView {
        match self {
            Resource::Cluster(cluster) => ResourceView::Cluster(cluster@),
            Resource::Datacenter(datacenter) => ResourceView::Datacenter(datacenter@),
            Resource::Listener(listener) => ResourceView::Listener(listener@),
            Resource::FilterChain(chain) => ResourceView::FilterChain(chain@),
        }
    }
}

impl ResourceView {
    /// The kind of the resource.
    pub open spec fn resource_type(self) -> ResourceType {
        match self {
            ResourceView::Cluster(_) => ResourceType::Cluster,
            ResourceView::Listener(_) => ResourceType::Listener,
            ResourceView::FilterChain(_) => ResourceType::FilterChain,
            ResourceView::Datacenter(_) => ResourceType::Datacenter,
        }
    }

    /// The name of the resource: the text of a cluster's locality, empty
    /// where the cluster has none; the name of a listener; the ICAO code of a
    /// datacenter. A filter chain has no name.
    pub open spec fn name(self) -> Seq<char> {
        match self {
            ResourceView::Cluster(cluster) => match cluster.locality {
                Some(locality) => locality.text(),
                None => Seq::empty(),
            },
            ResourceView::Listener(listener) => listener.name,
            ResourceView::FilterChain(_) => Seq::empty(),
            ResourceView::Datacenter(datacenter) => datacenter.icao_code,
        }
    }

    /// The wire form of the message that the resource holds.
    pub open spec fn payload(self) -> Seq<u8> {
        match self {
            ResourceView::Cluster(cluster) => Cluster::encoded(cluster),
            ResourceView::Listener(listener) => Listener::encoded(listener),
            ResourceView::FilterChain(chain) => FilterChain::encoded(chain),
            ResourceView::Datacenter(datacenter) => Datacenter::encoded(datacenter),
        }
    }
}

/// Why an envelope holds no resource.
pub ghost enum Rejection {
    /// The identifier names no resource kind.
    UnknownResourceType(Seq<char>),
    /// The bytes are not a message of the kind.
    Malformed,
}

/// The resource that an envelope holds: the identifier decides the kind, and
/// the bytes are read as a message of that kind.
pub open spec fn resource_in(type_url: Seq<char>, value: Seq<u8>) -> Result<
    ResourceView,
    Rejection,
> {
    match resource_type_of(type_url) {
        None => Err(Rejection::UnknownResourceType(type_url)),
        Some(ResourceType::Cluster) => match parsed::<Cluster>(value, Cluster::empty()) {
            Some(cluster) => Ok(ResourceView::Cluster(cluster)),
            None => Err(Rejection::Malformed),
        },
        Some(ResourceType::Listener) => match parsed::<Listener>(value, Listener::empty()) {
            Some(listener) => Ok(ResourceView::Listener(listener)),
            None => Err(Rejection::Malformed),
        },
        Some(ResourceType::Datacenter) => match parsed::<Datacenter>(value, Datacenter::empty()) {
            Some(datacenter) => Ok(ResourceView::Datacenter(datacenter)),
            None => Err(Rejection::Malformed),
        },
        Some(ResourceType::FilterChain) => match parsed::<FilterChain>(
            value,
            FilterChain::empty(),
        ) {
            Some(chain) => Ok(ResourceView::FilterChain(chain)),
            None => Err(Rejection::Malformed),
        },
    }
}

/// Whether `result` is what reading an envelope comes to.
pub open spec fn read_as(
    result: Result<Resource, ResourceError>,
    outcome: Result<ResourceView, Rejection>,
) -> bool {
    match outcome {
        Ok(resource) => result matches Ok(read) && read@ == resource,
        Err(Rejection::UnknownResourceType(url)) => result matches Err(
            ResourceError::UnknownResourceType(unknown),
        ) && unknown@ == url,
        Err(Rejection::Malformed) => result matches Err(ResourceError::Decode(_)),
    }
}

/// The kind of a resource that was read from an envelope is the kind that
/// the identifier of the envelope names.
pub proof fn lemma_kind_is_that_of_the_identifier(type_url: Seq<char>, value: Seq<u8>)
    ensures
        resource_in(type_url, value) matches Ok(resource) ==> resource_type_of(type_url) == Some(
            resource.resource_type(),
        ) && type_url_of(resource.resource_type()) == type_url,
        resource_type_of(type_url) is None ==> resource_in(type_url, value) == Err::<
            ResourceView,
            Rejection,
        >(Rejection::UnknownResourceType(type_url)),
{
    lemma_named_kind_has_that_url(type_url);
}

/// A resource comes back unchanged from its envelope: an envelope that holds
/// the wire form of the resource's message under the identifier of the
/// resource's kind is read as that resource.
pub proof fn lemma_resource_round_trip(resource: ResourceView, any: Envelope)
    requires
        any.type_url@ == type_url_of(resource.resource_type()),
        any.value@ == resource.payload(),
    ensures
        resource_in(any.type_url@, any.value@) == Ok::<ResourceView, Rejection>(resource),
{
    broadcast use vstd::std_specs::vec::axiom_spec_len;

    assert(any.value@.len() == any.value.len());
    lemma_type_url_names_its_kind(resource.resource_type());
    match resource {
        ResourceView::Cluster(cluster) => Cluster::lemma_round_trip(cluster),
        ResourceView::Listener(listener) => Listener::lemma_round_trip(listener),
        ResourceView::FilterChain(chain) => FilterChain::lemma_round_trip(chain),
        ResourceView::Datacenter(datacenter) => Datacenter::lemma_round_trip(datacenter),
    }
}

impl Clone for Resource {
    fn clone(&self) -> (copy: Resource)
        ensures
            copy@ == self@,
    {
        match self {
            Resource::Cluster(cluster) => Resource::Cluster(Box::new((**cluster).clone())),
            Resource::Datacenter(datacenter) => Resource::Datacenter(
                Box::new((**datacenter).clone()),
            ),
            Resource::Listener(listener) => Resource::Listener(Box::new((**listener).clone())),
            Resource::FilterChain(chain) => Resource::FilterChain(chain.clone()),
        }
    }
}

impl Resource {
    /// The name of this resource.
    pub fn name(&self) -> (name: String)
        ensures
            name@ == self@.name(),
    {
        match self {
            Resource::Cluster(cluster) => match &cluster.locality {
                Some(locality) => Locality::from(locality.clone()).to_string(),
                None => String::new(),
            },
            Resource::Listener(listener) => listener.name.clone(),
            Resource::FilterChain(_chain) => String::new(),
            Resource::Datacenter(datacenter) => datacenter.icao_code.clone(),
        }
    }

    /// The kind of this resource.
    pub fn resource_type(&self) -> (kind: ResourceType)
        ensures
            kind == self@.resource_type(),
    {
        match self {
            Resource::Cluster(_) => ResourceType::Cluster,
            Resource::Listener(_) => ResourceType::Listener,
            Resource::FilterChain(_) => ResourceType::FilterChain,
            Resource::Datacenter(_) => ResourceType::Datacenter,
        }
    }

    /// Sets the host of a datacenter to the text of the canonical form of
    /// the IP address of `addr`. Any other resource stays as it is.
    pub fn add_host_to_datacenter(&mut self, addr: SocketAddr)
        ensures
            match old(self)@ {
                ResourceView::Datacenter(datacenter) => final(self)@ == ResourceView::Datacenter(
                    DatacenterView { host: addr.ip@.canonical().text(), ..datacenter },
                ),
                _ => *final(self) == *old(self),
            },
    {
        match self {
            Resource::Datacenter(datacenter) => {
                datacenter.host = addr.ip().to_canonical().to_string();
            },
            _ => {},
        }
    }

    /// The type identifier of the kind of this resource.
    pub fn type_url(&self) -> (url: &'static str)
        ensures
            url@ == type_url_of(self@.resource_type()),
    {
        self.resource_type().type_url()
    }

    /// Reads the resource that an envelope holds. An identifier that names
    /// no resource kind is rejected with that identifier; bytes that are not
    /// a message of the kind are rejected as malformed.
    pub fn from_any(any: Envelope) -> (read: Result<Resource, ResourceError>)
        ensures
            read_as(read, resource_in(any.type_url@, any.value@)),
    {
        match ResourceType::try_from(any.type_url.as_str()) {
            Ok(ResourceType::Cluster) => match decode::<Cluster>(any.value.as_slice()) {
                Ok(cluster) => Ok(Resource::Cluster(Box::new(cluster))),
                Err(malformed) => Err(ResourceError::Decode(malformed)),
            },
            Ok(ResourceType::Listener) => match decode::<Listener>(any.value.as_slice()) {
                Ok(listener) => Ok(Resource::Listener(Box::new(listener))),
                Err(malformed) => Err(ResourceError::Decode(malformed)),
            },
            Ok(ResourceType::Datacenter) => match decode::<Datacenter>(any.value.as_slice()) {
                Ok(datacenter) => Ok(Resource::Datacenter(Box::new(datacenter))),
                Err(malformed) => Err(ResourceError::Decode(malformed)),
            },
            Ok(ResourceType::FilterChain) => match decode::<FilterChain>(any.value.as_slice()) {
                Ok(chain) => Ok(Resource::FilterChain(chain)),
                Err(malformed) => Err(ResourceError::Decode(malformed)),
            },
            Err(unknown) => Err(ResourceError::UnknownResourceType(unknown)),
        }
    }
}

impl TryFrom<Envelope> for Resource {
    type Error = ResourceError;

    /// Reads the resource that an envelope holds, as [`Resource::from_any`]
    /// does.
    fn try_from(any: Envelope) -> (read: Result<Resource, ResourceError>)
        ensures
            read_as(read, resource_in(any.type_url@, any.value@)),
    {
        Resource::from_any(any)
    }
}

impl vstd::std_specs::convert::TryFromSpecImpl<Envelope> for Resource {
    open spec fn obeys_try_from_spec() -> bool {
        false
    }

    open spec fn try_from_spec(any: Envelope) -> Result<Resource, ResourceError> {
        choose|read: Result<Resource, ResourceError>|
            read_as(read, resource_in(any.type_url@, any.value@))
    }
}

} // verus!
