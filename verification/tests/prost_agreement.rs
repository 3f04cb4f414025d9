use prost::bytes::{Buf, BufMut};
use prost::encoding::{self, DecodeContext, WireType};
use prost::{DecodeError, Message as ProstMessage};

use quilkin::xds::message::{decode, Message};
use quilkin::xds::proto::{Cluster, Datacenter, Filter, FilterChain, Listener, Locality};

// The messages as `prost` itself reads and writes them, with the field
// handling that its derive would write.

#[derive(Clone, Debug, Default, PartialEq)]
struct ProstLocality {
    region: String,
    zone: String,
    sub_zone: String,
}

#[derive(Clone, Debug, Default, PartialEq)]
struct ProstCluster {
    locality: Option<ProstLocality>,
}

#[derive(Clone, Debug, Default, PartialEq)]
struct ProstListener {
    name: String,
}

#[derive(Clone, Debug, Default, PartialEq)]
struct ProstDatacenter {
    host: String,
    icao_code: String,
}

#[derive(Clone, Debug, Default, PartialEq)]
struct ProstFilter {
    name: String,
    label: Option<String>,
    config: Option<String>,
}

#[derive(Clone, Debug, Default, PartialEq)]
struct ProstFilterChain {
    filters: Vec<ProstFilter>,
}

fn at(mut error: DecodeError, message: &'static str, field: &'static str) -> DecodeError {
    error.push(message, field);
    error
}

impl ProstMessage for ProstLocality {
    fn encode_raw(&self, buf: &mut impl BufMut) {
        if !self.region.is_empty() {
            encoding::string::encode(1, &self.region, buf);
        }
        if !self.zone.is_empty() {
            encoding::string::encode(2, &self.zone, buf);
        }
        if !self.sub_zone.is_empty() {
            encoding::string::encode(3, &self.sub_zone, buf);
        }
    }

    fn merge_field(
        &mut self,
        tag: u32,
        wire_type: WireType,
        buf: &mut impl Buf,
        ctx: DecodeContext,
    ) -> Result<(), DecodeError> {
        match tag {
            1 => encoding::string::merge(wire_type, &mut self.region, buf, ctx)
                .map_err(|e| at(e, "Locality", "region")),
            2 => encoding::string::merge(wire_type, &mut self.zone, buf, ctx)
                .map_err(|e| at(e, "Locality", "zone")),
            3 => encoding::string::merge(wire_type, &mut self.sub_zone, buf, ctx)
                .map_err(|e| at(e, "Locality", "sub_zone")),
            _ => encoding::skip_field(wire_type, tag, buf, ctx),
        }
    }

    fn encoded_len(&self) -> usize {
        let mut len = 0;
        if !self.region.is_empty() {
            len += encoding::string::encoded_len(1, &self.region);
        }
        if !self.zone.is_empty() {
            len += encoding::string::encoded_len(2, &self.zone);
        }
        if !self.sub_zone.is_empty() {
            len += encoding::string::encoded_len(3, &self.sub_zone);
        }
        len
    }

    fn clear(&mut self) {
        *self = Self::default();
    }
}

impl ProstMessage for ProstCluster {
    fn encode_raw(&self, buf: &mut impl BufMut) {
        if let Some(locality) = &self.locality {
            encoding::message::encode(1, locality, buf);
        }
    }

    fn merge_field(
        &mut self,
        tag: u32,
        wire_type: WireType,
        buf: &mut impl Buf,
        ctx: DecodeContext,
    ) -> Result<(), DecodeError> {
        match tag {
            1 => encoding::message::merge(
                wire_type,
                self.locality.get_or_insert_with(Default::default),
                buf,
                ctx,
            )
            .map_err(|e| at(e, "Cluster", "locality")),
            _ => encoding::skip_field(wire_type, tag, buf, ctx),
        }
    }

    fn encoded_len(&self) -> usize {
        self.locality
            .as_ref()
            .map_or(0, |locality| encoding::message::encoded_len(1, locality))
    }

    fn clear(&mut self) {
        *self = Self::default();
    }
}

impl ProstMessage for ProstListener {
    fn encode_raw(&self, buf: &mut impl BufMut) {
        if !self.name.is_empty() {
            encoding::string::encode(1, &self.name, buf);
        }
    }

    fn merge_field(
        &mut self,
        tag: u32,
        wire_type: WireType,
        buf: &mut impl Buf,
        ctx: DecodeContext,
    ) -> Result<(), DecodeError> {
        match tag {
            1 => encoding::string::merge(wire_type, &mut self.name, buf, ctx)
                .map_err(|e| at(e, "Listener", "name")),
            _ => encoding::skip_field(wire_type, tag, buf, ctx),
        }
    }

    fn encoded_len(&self) -> usize {
        if self.name.is_empty() {
            0
        } else {
            encoding::string::encoded_len(1, &self.name)
        }
    }

    fn clear(&mut self) {
        *self = Self::default();
    }
}

impl ProstMessage for ProstDatacenter {
    fn encode_raw(&self, buf: &mut impl BufMut) {
        if !self.host.is_empty() {
            encoding::string::encode(1, &self.host, buf);
        }
        if !self.icao_code.is_empty() {
            encoding::string::encode(3, &self.icao_code, buf);
        }
    }

    fn merge_field(
        &mut self,
        tag: u32,
        wire_type: WireType,
        buf: &mut impl Buf,
        ctx: DecodeContext,
    ) -> Result<(), DecodeError> {
        match tag {
            1 => encoding::string::merge(wire_type, &mut self.host, buf, ctx)
                .map_err(|e| at(e, "Datacenter", "host")),
            3 => encoding::string::merge(wire_type, &mut self.icao_code, buf, ctx)
                .map_err(|e| at(e, "Datacenter", "icao_code")),
            _ => encoding::skip_field(wire_type, tag, buf, ctx),
        }
    }

    fn encoded_len(&self) -> usize {
        let mut len = 0;
        if !self.host.is_empty() {
            len += encoding::string::encoded_len(1, &self.host);
        }
        if !self.icao_code.is_empty() {
            len += encoding::string::encoded_len(3, &self.icao_code);
        }
        len
    }

    fn clear(&mut self) {
        *self = Self::default();
    }
}

impl ProstMessage for ProstFilter {
    fn encode_raw(&self, buf: &mut impl BufMut) {
        if !self.name.is_empty() {
            encoding::string::encode(1, &self.name, buf);
        }
        if let Some(label) = &self.label {
            encoding::string::encode(2, label, buf);
        }
        if let Some(config) = &self.config {
            encoding::string::encode(3, config, buf);
        }
    }

    fn merge_field(
        &mut self,
        tag: u32,
        wire_type: WireType,
        buf: &mut impl Buf,
        ctx: DecodeContext,
    ) -> Result<(), DecodeError> {
        match tag {
            1 => encoding::string::merge(wire_type, &mut self.name, buf, ctx)
                .map_err(|e| at(e, "Filter", "name")),
            2 => encoding::string::merge(
                wire_type,
                self.label.get_or_insert_with(Default::default),
                buf,
                ctx,
            )
            .map_err(|e| at(e, "Filter", "label")),
            3 => encoding::string::merge(
                wire_type,
                self.config.get_or_insert_with(Default::default),
                buf,
                ctx,
            )
            .map_err(|e| at(e, "Filter", "config")),
            _ => encoding::skip_field(wire_type, tag, buf, ctx),
        }
    }

    fn encoded_len(&self) -> usize {
        let mut len = 0;
        if !self.name.is_empty() {
            len += encoding::string::encoded_len(1, &self.name);
        }
        if let Some(label) = &self.label {
            len += encoding::string::encoded_len(2, label);
        }
        if let Some(config) = &self.config {
            len += encoding::string::encoded_len(3, config);
        }
        len
    }

    fn clear(&mut self) {
        *self = Self::default();
    }
}

impl ProstMessage for ProstFilterChain {
    fn encode_raw(&self, buf: &mut impl BufMut) {
        encoding::message::encode_repeated(1, &self.filters, buf);
    }

    fn merge_field(
        &mut self,
        tag: u32,
        wire_type: WireType,
        buf: &mut impl Buf,
        ctx: DecodeContext,
    ) -> Result<(), DecodeError> {
        match tag {
            1 => encoding::message::merge_repeated(wire_type, &mut self.filters, buf, ctx)
                .map_err(|e| at(e, "FilterChain", "filters")),
            _ => encoding::skip_field(wire_type, tag, buf, ctx),
        }
    }

    fn encoded_len(&self) -> usize {
        encoding::message::encoded_len_repeated(1, &self.filters)
    }

    fn clear(&mut self) {
        *self = Self::default();
    }
}

// The same values in both forms.

fn locality_of(m: &Locality) -> ProstLocality {
    ProstLocality {
        region: m.region.clone(),
        zone: m.zone.clone(),
        sub_zone: m.sub_zone.clone(),
    }
}

fn cluster_of(m: &Cluster) -> ProstCluster {
    ProstCluster {
        locality: m.locality.as_ref().map(locality_of),
    }
}

fn listener_of(m: &Listener) -> ProstListener {
    ProstListener {
        name: m.name.clone(),
    }
}

fn datacenter_of(m: &Datacenter) -> ProstDatacenter {
    ProstDatacenter {
        host: m.host.clone(),
        icao_code: m.icao_code.clone(),
    }
}

fn filter_of(m: &Filter) -> ProstFilter {
    ProstFilter {
        name: m.name.clone(),
        label: m.label.clone(),
        config: m.config.clone(),
    }
}

fn chain_of(m: &FilterChain) -> ProstFilterChain {
    ProstFilterChain {
        filters: m.filters.iter().map(filter_of).collect(),
    }
}

/// A source of numbers that is the same in every run.
struct Numbers(u64);

impl Numbers {
    fn next(&mut self) -> u64 {
        self.0 ^= self.0 << 13;
        self.0 ^= self.0 >> 7;
        self.0 ^= self.0 << 17;
        self.0
    }

    fn below(&mut self, bound: u64) -> u64 {
        self.next() % bound
    }

    fn text(&mut self) -> String {
        let pieces = ["", "a", "eu", "west", "\u{e9}", "\u{4e16}\u{754c}", "x:y", "0"];
        let mut text = String::new();
        for _ in 0..self.below(4) {
            text.push_str(pieces[self.below(pieces.len() as u64) as usize]);
        }
        if self.below(16) == 0 {
            text.push_str(&"long".repeat(40));
        }
        text
    }

    fn maybe_text(&mut self) -> Option<String> {
        if self.below(2) == 0 {
            None
        } else {
            Some(self.text())
        }
    }

    fn bytes(&mut self) -> Vec<u8> {
        let interesting = [
            0x00, 0x01, 0x02, 0x03, 0x0a, 0x12, 0x1a, 0x08, 0x10, 0x18, 0x0b, 0x0c, 0x13, 0x14,
            0x0d, 0x09, 0x7f, 0x80, 0x81, 0xff, 0xc3, 0x28, 0x41,
        ];
        let len = self.below(12) as usize;
        (0..len)
            .map(|_| {
                if self.below(4) == 0 {
                    self.below(256) as u8
                } else {
                    interesting[self.below(interesting.len() as u64) as usize]
                }
            })
            .collect()
    }
}

/// Byte strings around a wire form: the wire form, what is left of it when
/// it is cut short, and what becomes of it when one byte is changed.
fn around(wire: &[u8], numbers: &mut Numbers) -> Vec<Vec<u8>> {
    let mut all = vec![wire.to_vec()];
    for cut in 0..wire.len().min(24) {
        all.push(wire[..cut].to_vec());
    }
    for _ in 0..24 {
        if wire.is_empty() {
            break;
        }
        let mut changed = wire.to_vec();
        let at = numbers.below(wire.len() as u64) as usize;
        changed[at] = numbers.below(256) as u8;
        all.push(changed);
    }
    let mut extended = wire.to_vec();
    extended.extend(numbers.bytes());
    all.push(extended);
    all
}

/// Whether the library and `prost` reject alike. Both name the field in
/// which they fail, from the outermost message inwards. What they found
/// wrong may be told differently where a field runs over the end of its
/// embedded message: `prost` reads on behind that end and fails there or on
/// the length, the library finds the field cut short.
fn same_rejection(ours: &str, theirs: &str, field: &str) -> bool {
    let start = format!("failed to decode Protobuf message: {}: ", field);
    ours == theirs
        || (ours.starts_with(&start) || ours.contains(&format!(": {}: ", field)))
            && (theirs.starts_with(&start) || theirs.contains(&format!(": {}: ", field)))
}

#[test]
fn locality_is_read_and_written_as_prost_does() {
    let mut numbers = Numbers(0x2545_f491_4f6c_dd1d);
    for round in 0..400 {
        let message = Locality {
            region: numbers.text(),
            zone: numbers.text(),
            sub_zone: numbers.text(),
        };
        let theirs = locality_of(&message);
        let mut wire = Vec::new();
        message.encode_raw(&mut wire);
        assert_eq!(wire, theirs.encode_to_vec(), "round {}", round);
        assert_eq!(message.encoded_len(), Some(theirs.encoded_len()));

        let mut candidates = around(&wire, &mut numbers);
        candidates.push(numbers.bytes());
        for bytes in candidates {
            match (decode::<Locality>(&bytes), ProstLocality::decode(&bytes[..])) {
                (Ok(ours), Ok(theirs)) => assert_eq!(locality_of(&ours), theirs, "{:?}", bytes),
                (Err(ours), Err(theirs)) => {
                    assert_eq!(ours.to_string(), theirs.to_string(), "{:?}", bytes)
                }
                (ours, theirs) => panic!("{:?}: {:?} against {:?}", bytes, ours, theirs),
            }
        }
    }
}

#[test]
fn cluster_is_read_and_written_as_prost_does() {
    let mut numbers = Numbers(0x9e37_79b9_7f4a_7c15);
    for round in 0..400 {
        let message = Cluster {
            locality: if numbers.below(4) == 0 {
                None
            } else {
                Some(Locality {
                    region: numbers.text(),
                    zone: numbers.text(),
                    sub_zone: numbers.text(),
                })
            },
        };
        let theirs = cluster_of(&message);
        let mut wire = Vec::new();
        message.encode_raw(&mut wire);
        assert_eq!(wire, theirs.encode_to_vec(), "round {}", round);
        assert_eq!(message.encoded_len(), Some(theirs.encoded_len()));

        let mut candidates = around(&wire, &mut numbers);
        // the same field twice: the second is read into the first
        let mut twice = wire.clone();
        twice.extend_from_slice(&wire);
        candidates.push(twice);
        let mut inner = numbers.bytes();
        let mut framed = vec![0x0a, inner.len() as u8];
        framed.append(&mut inner);
        candidates.push(framed);
        candidates.push(numbers.bytes());
        for bytes in candidates {
            match (decode::<Cluster>(&bytes), ProstCluster::decode(&bytes[..])) {
                (Ok(ours), Ok(theirs)) => assert_eq!(cluster_of(&ours), theirs, "{:?}", bytes),
                (Err(ours), Err(theirs)) => assert!(
                    same_rejection(&ours.to_string(), &theirs.to_string(), "Cluster.locality"),
                    "{:?}: {} against {}",
                    bytes,
                    ours.to_string(),
                    theirs
                ),
                (ours, theirs) => panic!("{:?}: {:?} against {:?}", bytes, ours, theirs),
            }
        }
    }
}

#[test]
fn listener_and_datacenter_are_read_and_written_as_prost_does() {
    let mut numbers = Numbers(0x1234_5678_9abc_def1);
    for round in 0..400 {
        let listener = Listener {
            name: numbers.text(),
        };
        let mut wire = Vec::new();
        listener.encode_raw(&mut wire);
        assert_eq!(wire, listener_of(&listener).encode_to_vec(), "round {}", round);
        let mut candidates = around(&wire, &mut numbers);
        candidates.push(numbers.bytes());
        for bytes in candidates {
            match (decode::<Listener>(&bytes), ProstListener::decode(&bytes[..])) {
                (Ok(ours), Ok(theirs)) => assert_eq!(listener_of(&ours), theirs, "{:?}", bytes),
                (Err(ours), Err(theirs)) => {
                    assert_eq!(ours.to_string(), theirs.to_string(), "{:?}", bytes)
                }
                (ours, theirs) => panic!("{:?}: {:?} against {:?}", bytes, ours, theirs),
            }
        }

        let datacenter = Datacenter {
            host: numbers.text(),
            icao_code: numbers.text(),
        };
        let mut wire = Vec::new();
        datacenter.encode_raw(&mut wire);
        assert_eq!(wire, datacenter_of(&datacenter).encode_to_vec());
        assert_eq!(
            datacenter.encoded_len(),
            Some(datacenter_of(&datacenter).encoded_len())
        );
        let mut candidates = around(&wire, &mut numbers);
        candidates.push(numbers.bytes());
        for bytes in candidates {
            match (decode::<Datacenter>(&bytes), ProstDatacenter::decode(&bytes[..])) {
                (Ok(ours), Ok(theirs)) => {
                    assert_eq!(datacenter_of(&ours), theirs, "{:?}", bytes)
                }
                (Err(ours), Err(theirs)) => {
                    assert_eq!(ours.to_string(), theirs.to_string(), "{:?}", bytes)
                }
                (ours, theirs) => panic!("{:?}: {:?} against {:?}", bytes, ours, theirs),
            }
        }
    }
}

#[test]
fn filter_chain_is_read_and_written_as_prost_does() {
    let mut numbers = Numbers(0x0fed_cba9_8765_4321);
    for round in 0..300 {
        let message = FilterChain {
            filters: (0..numbers.below(4))
                .map(|_| Filter {
                    name: numbers.text(),
                    label: numbers.maybe_text(),
                    config: numbers.maybe_text(),
                })
                .collect(),
        };
        let theirs = chain_of(&message);
        let mut wire = Vec::new();
        message.encode_raw(&mut wire);
        assert_eq!(wire, theirs.encode_to_vec(), "round {}", round);
        assert_eq!(message.encoded_len(), Some(theirs.encoded_len()));

        let mut candidates = around(&wire, &mut numbers);
        let mut inner = numbers.bytes();
        let mut framed = vec![0x0a, inner.len() as u8];
        framed.append(&mut inner);
        candidates.push(framed);
        candidates.push(numbers.bytes());
        for bytes in candidates {
            match (decode::<FilterChain>(&bytes), ProstFilterChain::decode(&bytes[..])) {
                (Ok(ours), Ok(theirs)) => assert_eq!(chain_of(&ours), theirs, "{:?}", bytes),
                (Err(ours), Err(theirs)) => assert!(
                    same_rejection(&ours.to_string(), &theirs.to_string(), "FilterChain.filters"),
                    "{:?}: {} against {}",
                    bytes,
                    ours.to_string(),
                    theirs
                ),
                (ours, theirs) => panic!("{:?}: {:?} against {:?}", bytes, ours, theirs),
            }
        }
    }
}
