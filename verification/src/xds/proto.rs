//! The messages that resources are made of, with their wire forms.

use vstd::prelude::*;
use vstd::utf8::encode_utf8;

use crate::net::endpoint::locality as net;
use crate::net::endpoint::locality::LocalityView;
use crate::xds::message::{
    add_len, embedded_merged, encode_embedded, encode_optional_string, encode_plain_string,
    encoded_len_embedded, encoded_len_optional_string, encoded_len_plain_string,
    lemma_parsed_step, merge_embedded, optional_string, parsed, plain_string, Message, RoundTrip,
};
use crate::xds::wire::{
    decode_string, delimited_field, key_bytes, lemma_delimited_parsed, lemma_string_parsed,
    located, skip_field, skipped, string_field, string_parsed, varint, LENGTH_DELIMITED,
};

verus! {

/// Reading a string field that was written, and then the rest, is reading
/// the rest into the message that the field gives.
pub proof fn lemma_string_step<M: Message>(
    tag: u32,
    value: Seq<char>,
    rest: Seq<u8>,
    message: M::V,
    next: M::V,
)
    requires
        1 <= tag <= 0x1fff_ffff,
        encode_utf8(value).len() <= u64::MAX,
        forall|bytes: Seq<u8>|
            string_parsed(LENGTH_DELIMITED, bytes) is Some && string_parsed(
                LENGTH_DELIMITED,
                bytes,
            ).unwrap().0 == value ==> #[trigger] M::merged(message, tag, LENGTH_DELIMITED, bytes)
                == Some((next, string_parsed(LENGTH_DELIMITED, bytes).unwrap().1)),
    ensures
        parsed::<M>(string_field(tag, value) + rest, message) == parsed::<M>(rest, next),
{
    let body = varint(encode_utf8(value).len()) + encode_utf8(value);
    lemma_string_parsed(value, rest);
    assert(body + rest =~= varint(encode_utf8(value).len()) + encode_utf8(value) + rest);
    let taken = body.len();
    assert(string_parsed(LENGTH_DELIMITED, body + rest) == Some((value, taken)));
    assert(M::merged(message, tag, LENGTH_DELIMITED, body + rest) == Some((next, taken)));
    lemma_parsed_step::<M>(tag, LENGTH_DELIMITED, body, rest, message, next);
    assert(string_field(tag, value) + rest =~= key_bytes(tag, LENGTH_DELIMITED) + body + rest);
}

/// Reading a string field that is left out where the string is empty, and
/// then the rest, is reading the rest into the message that the field
/// gives.
pub proof fn lemma_plain_string_step<M: Message>(
    tag: u32,
    value: Seq<char>,
    rest: Seq<u8>,
    message: M::V,
    next: M::V,
)
    requires
        1 <= tag <= 0x1fff_ffff,
        encode_utf8(value).len() <= u64::MAX,
        value.len() == 0 ==> next == message,
        forall|bytes: Seq<u8>|
            string_parsed(LENGTH_DELIMITED, bytes) is Some && string_parsed(
                LENGTH_DELIMITED,
                bytes,
            ).unwrap().0 == value ==> #[trigger] M::merged(message, tag, LENGTH_DELIMITED, bytes)
                == Some((next, string_parsed(LENGTH_DELIMITED, bytes).unwrap().1)),
    ensures
        parsed::<M>(plain_string(tag, value) + rest, message) == parsed::<M>(rest, next),
{
    if value.len() == 0 {
        assert(plain_string(tag, value) + rest =~= rest);
    } else {
        lemma_string_step::<M>(tag, value, rest, message, next);
    }
}

/// A string without characters is the empty string.
pub proof fn lemma_empty_string(value: Seq<char>)
    ensures
        value.len() == 0 ==> value == Seq::<char>::empty(),
{
    if value.len() == 0 {
        assert(value =~= Seq::<char>::empty());
    }
}

/// The location of a cluster, as it is sent.
#[derive(Debug)]
pub struct Locality {
    pub region: String,
    pub zone: String,
    pub sub_zone: String,
}

impl View for Locality {
    type V = LocalityView;

    open spec fn view(&self) -> LocalityView {
        LocalityView { region: self.region@, zone: self.zone@, sub_zone: self.sub_zone@ }
    }
}

impl Clone for Locality {
    fn clone(&self) -> (copy: Locality)
        ensures
            copy@ == self@,
    {
        Locality {
            region: self.region.clone(),
            zone: self.zone.clone(),
            sub_zone: self.sub_zone.clone(),
        }
    }
}

impl From<Locality> for net::Locality {
    /// The locality that a locality message stands for.
    fn from(message: Locality) -> (locality: net::Locality)
        ensures
            locality@ == message@,
    {
        net::Locality { region: message.region, zone: message.zone, sub_zone: message.sub_zone }
    }
}

impl vstd::std_specs::convert::FromSpecImpl<Locality> for net::Locality {
    open spec fn obeys_from_spec() -> bool {
        true
    }

    open spec fn from_spec(message: Locality) -> net::Locality {
        net::Locality { region: message.region, zone: message.zone, sub_zone: message.sub_zone }
    }
}

impl Message for Locality {
    open spec fn empty() -> LocalityView {
        LocalityView { region: Seq::empty(), zone: Seq::empty(), sub_zone: Seq::empty() }
    }

    open spec fn encoded(message: LocalityView) -> Seq<u8> {
        plain_string(1, message.region) + plain_string(2, message.zone) + plain_string(
            3,
            message.sub_zone,
        )
    }

    open spec fn merged(message: LocalityView, tag: u32, wire_type: u8, bytes: Seq<u8>) -> Option<
        (LocalityView, nat),
    > {
        if tag == 1 {
            match string_parsed(wire_type, bytes) {
                Some((text, taken)) => Some((LocalityView { region: text, ..message }, taken)),
                None => None,
            }
        } else if tag == 2 {
            match string_parsed(wire_type, bytes) {
                Some((text, taken)) => Some((LocalityView { zone: text, ..message }, taken)),
                None => None,
            }
        } else if tag == 3 {
            match string_parsed(wire_type, bytes) {
                Some((text, taken)) => Some((LocalityView { sub_zone: text, ..message }, taken)),
                None => None,
            }
        } else {
            match skipped(wire_type, tag, bytes) {
                Some(taken) => Some((message, taken)),
                None => None,
            }
        }
    }

    fn empty_message() -> (message: Locality) {
        Locality { region: String::new(), zone: String::new(), sub_zone: String::new() }
    }

    fn encoded_len(&self) -> (len: Option<usize>) {
        add_len(
            add_len(
                Some(encoded_len_plain_string(1, &self.region)),
                Some(encoded_len_plain_string(2, &self.zone)),
            ),
            Some(encoded_len_plain_string(3, &self.sub_zone)),
        )
    }

    fn encode_raw(&self, buf: &mut Vec<u8>) {
        encode_plain_string(1, &self.region, buf);
        encode_plain_string(2, &self.zone, buf);
        encode_plain_string(3, &self.sub_zone, buf);
        assert(buf@ =~= old(buf)@ + Self::encoded(self@));
    }

    fn merge_field<'a>(&mut self, tag: u32, wire_type: u8, buf: &'a [u8]) -> (read: Result<
        &'a [u8],
        prost::DecodeError,
    >) {
        if tag == 1 {
            match decode_string(wire_type, buf) {
                Ok((text, rest)) => {
                    self.region = text;
                    Ok(rest)
                },
                Err(error) => Err(located(error, "Locality", "region")),
            }
        } else if tag == 2 {
            match decode_string(wire_type, buf) {
                Ok((text, rest)) => {
                    self.zone = text;
                    Ok(rest)
                },
                Err(error) => Err(located(error, "Locality", "zone")),
            }
        } else if tag == 3 {
            match decode_string(wire_type, buf) {
                Ok((text, rest)) => {
                    self.sub_zone = text;
                    Ok(rest)
                },
                Err(error) => Err(located(error, "Locality", "sub_zone")),
            }
        } else {
            skip_field(wire_type, tag, buf)
        }
    }
}

impl RoundTrip for Locality {
    proof fn lemma_round_trip(message: LocalityView) {
        let region = plain_string(1, message.region);
        let zone = plain_string(2, message.zone);
        let sub_zone = plain_string(3, message.sub_zone);
        let first = LocalityView { region: message.region, ..Self::empty() };
        let second = LocalityView { zone: message.zone, ..first };
        assert(Self::encoded(message) =~= region + (zone + sub_zone));
        lemma_empty_string(message.region);
        lemma_empty_string(message.zone);
        lemma_empty_string(message.sub_zone);
        lemma_plain_string_step::<Locality>(
            1,
            message.region,
            zone + sub_zone,
            Self::empty(),
            first,
        );
        lemma_plain_string_step::<Locality>(2, message.zone, sub_zone, first, second);
        assert(sub_zone =~= sub_zone + Seq::<u8>::empty());
        lemma_plain_string_step::<Locality>(
            3,
            message.sub_zone,
            Seq::<u8>::empty(),
            second,
            message,
        );
    }
}

/// A cluster, as it is sent: where it is located, if that is known.
#[derive(Debug)]
pub struct Cluster {
    pub locality: Option<Locality>,
}

/// What a cluster message holds.
pub ghost struct ClusterView {
    pub locality: Option<LocalityView>,
}

impl View for Cluster {
    type V = ClusterView;

    open spec fn view(&self) -> ClusterView {
        ClusterView {
            locality: match self.locality {
                Some(locality) => Some(locality@),
                None => None,
            },
        }
    }
}

impl Clone for Cluster {
    fn clone(&self) -> (copy: Cluster)
        ensures
            copy@ == self@,
    {
        Cluster {
            locality: match &self.locality {
                Some(locality) => Some(locality.clone()),
                None => None,
            },
        }
    }
}

impl Message for Cluster {
    open spec fn empty() -> ClusterView {
        ClusterView { locality: None }
    }

    open spec fn encoded(message: ClusterView) -> Seq<u8> {
        match message.locality {
            Some(locality) => delimited_field(1, Locality::encoded(locality)),
            None => Seq::empty(),
        }
    }

    open spec fn merged(message: ClusterView, tag: u32, wire_type: u8, bytes: Seq<u8>) -> Option<
        (ClusterView, nat),
    > {
        if tag == 1 {
            let before = match message.locality {
                Some(locality) => locality,
                None => Locality::empty(),
            };
            match embedded_merged::<Locality>(before, wire_type, bytes) {
                Some((locality, taken)) => Some((ClusterView { locality: Some(locality) }, taken)),
                None => None,
            }
        } else {
            match skipped(wire_type, tag, bytes) {
                Some(taken) => Some((message, taken)),
                None => None,
            }
        }
    }

    fn empty_message() -> (message: Cluster) {
        Cluster { locality: None }
    }

    fn encoded_len(&self) -> (len: Option<usize>) {
        match &self.locality {
            Some(locality) => encoded_len_embedded(1, locality),
            None => Some(0),
        }
    }

    fn encode_raw(&self, buf: &mut Vec<u8>) {
        match &self.locality {
            Some(locality) => {
                encode_embedded(1, locality, buf);
            },
            None => {
                assert(buf@ =~= old(buf)@ + Seq::<u8>::empty());
            },
        }
    }

    fn merge_field<'a>(&mut self, tag: u32, wire_type: u8, buf: &'a [u8]) -> (read: Result<
        &'a [u8],
        prost::DecodeError,
    >) {
        if tag == 1 {
            let mut locality = match self.locality.take() {
                Some(locality) => locality,
                None => Locality::empty_message(),
            };
            match merge_embedded(&mut locality, wire_type, buf) {
                Ok(rest) => {
                    self.locality = Some(locality);
                    Ok(rest)
                },
                Err(error) => Err(located(error, "Cluster", "locality")),
            }
        } else {
            skip_field(wire_type, tag, buf)
        }
    }
}

impl RoundTrip for Cluster {
    proof fn lemma_round_trip(message: ClusterView) {
        match message.locality {
            Some(locality) => {
                let body = Locality::encoded(locality);
                let value = varint(body.len()) + body;
                let none = Seq::<u8>::empty();
                lemma_delimited_parsed(body, none);
                assert(value + none =~= varint(body.len()) + body + none);
                Locality::lemma_round_trip(locality);
                lemma_parsed_step::<Cluster>(
                    1,
                    LENGTH_DELIMITED,
                    value,
                    none,
                    Self::empty(),
                    message,
                );
                assert(Self::encoded(message) =~= key_bytes(1, LENGTH_DELIMITED) + value + none);
            },
            None => {},
        }
    }
}

/// A listener, as it is sent.
#[derive(Debug)]
pub struct Listener {
    pub name: String,
}

/// What a listener message holds.
pub ghost struct ListenerView {
    pub name: Seq<char>,
}

impl View for Listener {
    type V = ListenerView;

    open spec fn view(&self) -> ListenerView {
        ListenerView { name: self.name@ }
    }
}

impl Clone for Listener {
    fn clone(&self) -> (copy: Listener)
        ensures
            copy@ == self@,
    {
        Listener { name: self.name.clone() }
    }
}

impl Message for Listener {
    open spec fn empty() -> ListenerView {
        ListenerView { name: Seq::empty() }
    }

    open spec fn encoded(message: ListenerView) -> Seq<u8> {
        plain_string(1, message.name)
    }

    open spec fn merged(message: ListenerView, tag: u32, wire_type: u8, bytes: Seq<u8>) -> Option<
        (ListenerView, nat),
    > {
        if tag == 1 {
            match string_parsed(wire_type, bytes) {
                Some((text, taken)) => Some((ListenerView { name: text }, taken)),
                None => None,
            }
        } else {
            match skipped(wire_type, tag, bytes) {
                Some(taken) => Some((message, taken)),
                None => None,
            }
        }
    }

    fn empty_message() -> (message: Listener) {
        Listener { name: String::new() }
    }

    fn encoded_len(&self) -> (len: Option<usize>) {
        Some(encoded_len_plain_string(1, &self.name))
    }

    fn encode_raw(&self, buf: &mut Vec<u8>) {
        encode_plain_string(1, &self.name, buf);
    }

    fn merge_field<'a>(&mut self, tag: u32, wire_type: u8, buf: &'a [u8]) -> (read: Result<
        &'a [u8],
        prost::DecodeError,
    >) {
        if tag == 1 {
            match decode_string(wire_type, buf) {
                Ok((text, rest)) => {
                    self.name = text;
                    Ok(rest)
                },
                Err(error) => Err(located(error, "Listener", "name")),
            }
        } else {
            skip_field(wire_type, tag, buf)
        }
    }
}

impl RoundTrip for Listener {
    proof fn lemma_round_trip(message: ListenerView) {
        let none = Seq::<u8>::empty();
        lemma_empty_string(message.name);
        assert(Self::encoded(message) =~= plain_string(1, message.name) + none);
        lemma_plain_string_step::<Listener>(1, message.name, none, Self::empty(), message);
    }
}

/// A datacenter, as it is sent.
#[derive(Debug)]
pub struct Datacenter {
    /// The address of the host, as text; empty as long as it is not known.
    pub host: String,
    /// The ICAO code of the nearest airport.
    pub icao_code: String,
}

/// What a datacenter message holds.
pub ghost struct DatacenterView {
    pub host: Seq<char>,
    pub icao_code: Seq<char>,
}

impl View for Datacenter {
    type V = DatacenterView;

    open spec fn view(&self) -> DatacenterView {
        DatacenterView { host: self.host@, icao_code: self.icao_code@ }
    }
}

impl Clone for Datacenter {
    fn clone(&self) -> (copy: Datacenter)
        ensures
            copy@ == self@,
    {
        Datacenter { host: self.host.clone(), icao_code: self.icao_code.clone() }
    }
}

impl Message for Datacenter {
    open spec fn empty() -> DatacenterView {
        DatacenterView { host: Seq::empty(), icao_code: Seq::empty() }
    }

    open spec fn encoded(message: DatacenterView) -> Seq<u8> {
        plain_string(1, message.host) + plain_string(3, message.icao_code)
    }

    open spec fn merged(message: DatacenterView, tag: u32, wire_type: u8, bytes: Seq<u8>) -> Option<
        (DatacenterView, nat),
    > {
        if tag == 1 {
            match string_parsed(wire_type, bytes) {
                Some((text, taken)) => Some((DatacenterView { host: text, ..message }, taken)),
                None => None,
            }
        } else if tag == 3 {
            match string_parsed(wire_type, bytes) {
                Some((text, taken)) => Some((DatacenterView { icao_code: text, ..message }, taken)),
                None => None,
            }
        } else {
            match skipped(wire_type, tag, bytes) {
                Some(taken) => Some((message, taken)),
                None => None,
            }
        }
    }

    fn empty_message() -> (message: Datacenter) {
        Datacenter { host: String::new(), icao_code: String::new() }
    }

    fn encoded_len(&self) -> (len: Option<usize>) {
        add_len(
            Some(encoded_len_plain_string(1, &self.host)),
            Some(encoded_len_plain_string(3, &self.icao_code)),
        )
    }

    fn encode_raw(&self, buf: &mut Vec<u8>) {
        encode_plain_string(1, &self.host, buf);
        encode_plain_string(3, &self.icao_code, buf);
        assert(buf@ =~= old(buf)@ + Self::encoded(self@));
    }

    fn merge_field<'a>(&mut self, tag: u32, wire_type: u8, buf: &'a [u8]) -> (read: Result<
        &'a [u8],
        prost::DecodeError,
    >) {
        if tag == 1 {
            match decode_string(wire_type, buf) {
                Ok((text, rest)) => {
                    self.host = text;
                    Ok(rest)
                },
                Err(error) => Err(located(error, "Datacenter", "host")),
            }
        } else if tag == 3 {
            match decode_string(wire_type, buf) {
                Ok((text, rest)) => {
                    self.icao_code = text;
                    Ok(rest)
                },
                Err(error) => Err(located(error, "Datacenter", "icao_code")),
            }
        } else {
            skip_field(wire_type, tag, buf)
        }
    }
}

impl RoundTrip for Datacenter {
    proof fn lemma_round_trip(message: DatacenterView) {
        let none = Seq::<u8>::empty();
        let icao_code = plain_string(3, message.icao_code);
        let first = DatacenterView { host: message.host, ..Self::empty() };
        lemma_empty_string(message.host);
        lemma_empty_string(message.icao_code);
        lemma_plain_string_step::<Datacenter>(1, message.host, icao_code, Self::empty(), first);
        assert(icao_code =~= icao_code + none);
        lemma_plain_string_step::<Datacenter>(3, message.icao_code, none, first, message);
    }
}

/// The configuration of one filter, as it is sent.
#[derive(Debug)]
pub struct Filter {
    /// The name under which the filter is registered.
    pub name: String,
    /// A label that tells this filter from others of its kind.
    pub label: Option<String>,
    /// The filter's own configuration, as text.
    pub config: Option<String>,
}

/// What a filter message holds.
pub ghost struct FilterView {
    pub name: Seq<char>,
    pub label: Option<Seq<char>>,
    pub config: Option<Seq<char>>,
}

/// What an optional string holds.
pub open spec fn optional_view(value: Option<String>) -> Option<Seq<char>> {
    match value {
        Some(value) => Some(value@),
        None => None,
    }
}

impl View for Filter {
    type V = FilterView;

    open spec fn view(&self) -> FilterView {
        FilterView {
            name: self.name@,
            label: optional_view(self.label),
            config: optional_view(self.config),
        }
    }
}

/// A copy of an optional string.
fn clone_optional(value: &Option<String>) -> (copy: Option<String>)
    ensures
        optional_view(copy) == optional_view(*value),
{
    match value {
        Some(value) => Some(value.clone()),
        None => None,
    }
}

impl Clone for Filter {
    fn clone(&self) -> (copy: Filter)
        ensures
            copy@ == self@,
    {
        Filter {
            name: self.name.clone(),
            label: clone_optional(&self.label),
            config: clone_optional(&self.config),
        }
    }
}

impl Message for Filter {
    open spec fn empty() -> FilterView {
        FilterView { name: Seq::empty(), label: None, config: None }
    }

    open spec fn encoded(message: FilterView) -> Seq<u8> {
        plain_string(1, message.name) + optional_string(2, message.label) + optional_string(
            3,
            message.config,
        )
    }

    open spec fn merged(message: FilterView, tag: u32, wire_type: u8, bytes: Seq<u8>) -> Option<
        (FilterView, nat),
    > {
        if tag == 1 {
            match string_parsed(wire_type, bytes) {
                Some((text, taken)) => Some((FilterView { name: text, ..message }, taken)),
                None => None,
            }
        } else if tag == 2 {
            match string_parsed(wire_type, bytes) {
                Some((text, taken)) => Some((FilterView { label: Some(text), ..message }, taken)),
                None => None,
            }
        } else if tag == 3 {
            match string_parsed(wire_type, bytes) {
                Some((text, taken)) => Some((FilterView { config: Some(text), ..message }, taken)),
                None => None,
            }
        } else {
            match skipped(wire_type, tag, bytes) {
                Some(taken) => Some((message, taken)),
                None => None,
            }
        }
    }

    fn empty_message() -> (message: Filter) {
        Filter { name: String::new(), label: None, config: None }
    }

    fn encoded_len(&self) -> (len: Option<usize>) {
        add_len(
            add_len(
                Some(encoded_len_plain_string(1, &self.name)),
                Some(encoded_len_optional_string(2, &self.label)),
            ),
            Some(encoded_len_optional_string(3, &self.config)),
        )
    }

    fn encode_raw(&self, buf: &mut Vec<u8>) {
        encode_plain_string(1, &self.name, buf);
        encode_optional_string(2, &self.label, buf);
        encode_optional_string(3, &self.config, buf);
        assert(buf@ =~= old(buf)@ + Self::encoded(self@));
    }

    fn merge_field<'a>(&mut self, tag: u32, wire_type: u8, buf: &'a [u8]) -> (read: Result<
        &'a [u8],
        prost::DecodeError,
    >) {
        if tag == 1 {
            match decode_string(wire_type, buf) {
                Ok((text, rest)) => {
                    self.name = text;
                    Ok(rest)
                },
                Err(error) => Err(located(error, "Filter", "name")),
            }
        } else if tag == 2 {
            match decode_string(wire_type, buf) {
                Ok((text, rest)) => {
                    self.label = Some(text);
                    Ok(rest)
                },
                Err(error) => Err(located(error, "Filter", "label")),
            }
        } else if tag == 3 {
            match decode_string(wire_type, buf) {
                Ok((text, rest)) => {
                    self.config = Some(text);
                    Ok(rest)
                },
                Err(error) => Err(located(error, "Filter", "config")),
            }
        } else {
            skip_field(wire_type, tag, buf)
        }
    }
}

impl RoundTrip for Filter {
    proof fn lemma_round_trip(message: FilterView) {
        let none = Seq::<u8>::empty();
        let label = optional_string(2, message.label);
        let config = optional_string(3, message.config);
        let first = FilterView { name: message.name, ..Self::empty() };
        let second = FilterView { label: message.label, ..first };
        lemma_empty_string(message.name);
        assert(Self::encoded(message) =~= plain_string(1, message.name) + (label + config));
        lemma_plain_string_step::<Filter>(1, message.name, label + config, Self::empty(), first);
        match message.label {
            Some(text) => {
                lemma_string_step::<Filter>(2, text, config, first, second);
            },
            None => {
                assert(label + config =~= config);
            },
        }
        assert(config =~= config + none);
        match message.config {
            Some(text) => {
                lemma_string_step::<Filter>(3, text, none, second, message);
            },
            None => {},
        }
    }
}

/// An ordered list of filter configurations, as it is sent.
#[derive(Debug)]
pub struct FilterChain {
    pub filters: Vec<Filter>,
}

/// What a filter chain message holds.
pub ghost struct FilterChainView {
    pub filters: Seq<FilterView>,
}

/// What a list of filters holds.
pub open spec fn filters_view(filters: Seq<Filter>) -> Seq<FilterView> {
    Seq::new(filters.len(), |i: int| filters[i]@)
}

/// The wire form of a list of filters: one embedded message for each, in
/// their order.
pub open spec fn filters_encoded(filters: Seq<FilterView>) -> Seq<u8>
    decreases filters.len(),
{
    if filters.len() == 0 {
        Seq::empty()
    } else {
        delimited_field(1, Filter::encoded(filters.first())) + filters_encoded(
            filters.drop_first(),
        )
    }
}

/// A filter more at the end is an embedded message more at the end.
pub proof fn lemma_filters_encoded_push(filters: Seq<FilterView>, last: FilterView)
    ensures
        filters_encoded(filters.push(last)) == filters_encoded(filters) + delimited_field(
            1,
            Filter::encoded(last),
        ),
    decreases filters.len(),
{
    let field = delimited_field(1, Filter::encoded(last));
    if filters.len() == 0 {
        let one = filters.push(last);
        assert(one.first() == last);
        assert(one.drop_first() =~= Seq::<FilterView>::empty());
        assert(filters_encoded(one.drop_first()) =~= Seq::<u8>::empty());
        assert(filters_encoded(one) =~= field);
        assert(filters_encoded(filters) + field =~= field);
    } else {
        assert(filters.push(last).drop_first() =~= filters.drop_first().push(last));
        lemma_filters_encoded_push(filters.drop_first(), last);
        assert(filters_encoded(filters.push(last)) =~= filters_encoded(filters) + field);
    }
}

impl View for FilterChain {
    type V = FilterChainView;

    open spec fn view(&self) -> FilterChainView {
        FilterChainView { filters: filters_view(self.filters@) }
    }
}

impl Clone for FilterChain {
    fn clone(&self) -> (copy: FilterChain)
        ensures
            copy@ == self@,
    {
        let mut filters: Vec<Filter> = Vec::new();
        let mut i: usize = 0;
        while i < self.filters.len()
            invariant
                i <= self.filters@.len(),
                filters@.len() == i,
                forall|j: int| 0 <= j < i ==> filters@[j]@ == self.filters@[j]@,
            decreases self.filters@.len() - i,
        {
            filters.push(self.filters[i].clone());
            i += 1;
        }
        assert(filters_view(filters@) =~= filters_view(self.filters@));
        FilterChain { filters }
    }
}

impl Message for FilterChain {
    open spec fn empty() -> FilterChainView {
        FilterChainView { filters: Seq::empty() }
    }

    open spec fn encoded(message: FilterChainView) -> Seq<u8> {
        filters_encoded(message.filters)
    }

    open spec fn merged(message: FilterChainView, tag: u32, wire_type: u8, bytes: Seq<u8>) -> Option<
        (FilterChainView, nat),
    > {
        if tag == 1 {
            match embedded_merged::<Filter>(Filter::empty(), wire_type, bytes) {
                Some((filter, taken)) => Some(
                    (FilterChainView { filters: message.filters.push(filter) }, taken),
                ),
                None => None,
            }
        } else {
            match skipped(wire_type, tag, bytes) {
                Some(taken) => Some((message, taken)),
                None => None,
            }
        }
    }

    fn empty_message() -> (message: FilterChain) {
        let message = FilterChain { filters: Vec::new() };
        assert(message@.filters =~= Seq::<FilterView>::empty());
        message
    }

    fn encoded_len(&self) -> (len: Option<usize>) {
        let mut len: Option<usize> = Some(0);
        let mut i: usize = 0;
        assert(filters_view(self.filters@).take(0) =~= Seq::<FilterView>::empty());
        while i < self.filters.len()
            invariant
                i <= self.filters@.len(),
                match len {
                    Some(len) => len == filters_encoded(
                        filters_view(self.filters@).take(i as int),
                    ).len(),
                    None => filters_encoded(filters_view(self.filters@).take(i as int)).len()
                        > usize::MAX,
                },
            decreases self.filters@.len() - i,
        {
            proof {
                let before = filters_view(self.filters@).take(i as int);
                assert(filters_view(self.filters@).take(i + 1) =~= before.push(
                    self.filters@[i as int]@,
                ));
                lemma_filters_encoded_push(before, self.filters@[i as int]@);
            }
            len = add_len(len, encoded_len_embedded(1, &self.filters[i]));
            i += 1;
        }
        assert(filters_view(self.filters@).take(i as int) =~= filters_view(self.filters@));
        len
    }

    fn encode_raw(&self, buf: &mut Vec<u8>) {
        let mut i: usize = 0;
        assert(filters_view(self.filters@).take(0) =~= Seq::<FilterView>::empty());
        assert(buf@ =~= old(buf)@ + Seq::<u8>::empty());
        while i < self.filters.len()
            invariant
                i <= self.filters@.len(),
                filters_encoded(filters_view(self.filters@)).len() <= usize::MAX,
                buf@ == old(buf)@ + filters_encoded(filters_view(self.filters@).take(i as int)),
            decreases self.filters@.len() - i,
        {
            proof {
                let before = filters_view(self.filters@).take(i as int);
                assert(filters_view(self.filters@).take(i + 1) =~= before.push(
                    self.filters@[i as int]@,
                ));
                lemma_filters_encoded_push(before, self.filters@[i as int]@);
                lemma_filters_encoded_part(filters_view(self.filters@), i as int);
            }
            encode_embedded(1, &self.filters[i], buf);
            assert(buf@ =~= old(buf)@ + filters_encoded(
                filters_view(self.filters@).take(i + 1),
            ));
            i += 1;
        }
        assert(filters_view(self.filters@).take(i as int) =~= filters_view(self.filters@));
    }

    fn merge_field<'a>(&mut self, tag: u32, wire_type: u8, buf: &'a [u8]) -> (read: Result<
        &'a [u8],
        prost::DecodeError,
    >) {
        if tag == 1 {
            let mut filter = Filter::empty_message();
            match merge_embedded(&mut filter, wire_type, buf) {
                Ok(rest) => {
                    self.filters.push(filter);
                    assert(self@.filters =~= old(self)@.filters.push(filter@));
                    Ok(rest)
                },
                Err(error) => Err(located(error, "FilterChain", "filters")),
            }
        } else {
            skip_field(wire_type, tag, buf)
        }
    }
}

/// The embedded message of each filter is no longer than the wire form of
/// the list.
pub proof fn lemma_filters_encoded_part(filters: Seq<FilterView>, at: int)
    requires
        0 <= at < filters.len(),
    ensures
        Filter::encoded(filters[at]).len() <= delimited_field(
            1,
            Filter::encoded(filters[at]),
        ).len() <= filters_encoded(filters).len(),
    decreases filters.len(),
{
    if at > 0 {
        lemma_filters_encoded_part(filters.drop_first(), at - 1);
    }
}

/// Reading the embedded message of a filter, and then the rest, is reading
/// the rest into the message with that filter added.
pub proof fn lemma_filter_step(before: Seq<FilterView>, filter: FilterView, rest: Seq<u8>)
    requires
        Filter::encoded(filter).len() <= u64::MAX,
    ensures
        parsed::<FilterChain>(
            delimited_field(1, Filter::encoded(filter)) + rest,
            FilterChainView { filters: before },
        ) == parsed::<FilterChain>(rest, FilterChainView { filters: before.push(filter) }),
{
    let body = Filter::encoded(filter);
    let value = varint(body.len()) + body;
    lemma_delimited_parsed(body, rest);
    assert(value + rest =~= varint(body.len()) + body + rest);
    Filter::lemma_round_trip(filter);
    assert(embedded_merged::<Filter>(Filter::empty(), LENGTH_DELIMITED, value + rest) == Some(
        (filter, value.len()),
    ));
    lemma_parsed_step::<FilterChain>(
        1,
        LENGTH_DELIMITED,
        value,
        rest,
        FilterChainView { filters: before },
        FilterChainView { filters: before.push(filter) },
    );
    assert(delimited_field(1, body) + rest =~= key_bytes(1, LENGTH_DELIMITED) + value + rest);
}

/// Reading the wire form of a list of filters adds the filters, in their
/// order, to those that the message holds.
pub proof fn lemma_filters_parsed(before: Seq<FilterView>, filters: Seq<FilterView>)
    requires
        filters_encoded(filters).len() <= u64::MAX,
    ensures
        parsed::<FilterChain>(filters_encoded(filters), FilterChainView { filters: before })
            == Some(FilterChainView { filters: before + filters }),
    decreases filters.len(),
{
    if filters.len() == 0 {
        assert(before + filters =~= before);
    } else {
        let first = filters.first();
        lemma_filters_encoded_part(filters, 0);
        lemma_filter_step(before, first, filters_encoded(filters.drop_first()));
        lemma_filters_parsed(before.push(first), filters.drop_first());
        assert(before.push(first) + filters.drop_first() =~= before + filters);
    }
}

impl RoundTrip for FilterChain {
    proof fn lemma_round_trip(message: FilterChainView) {
        lemma_filters_parsed(Seq::empty(), message.filters);
        assert(Seq::<FilterView>::empty() + message.filters =~= message.filters);
    }
}

} // verus!
