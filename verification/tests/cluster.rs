use quilkin::net::address::{AddressKind, EndpointAddress, IpAddr, Ipv4Addr};
use quilkin::net::cluster::{ClusterMap, EndpointSet};
use quilkin::net::endpoint::locality::Locality;
use quilkin::net::endpoint::metadata::{DynamicMetadata, Key, Value};
use quilkin::net::endpoint::{Endpoint, Metadata};
use quilkin::text::{bytes_eq, str_eq};

fn address(port: u16) -> EndpointAddress {
    EndpointAddress::new(AddressKind::Ip(IpAddr::V4(Ipv4Addr::new(10, 0, 0, 1))), port)
}

fn endpoint(port: u16, tokens: &[&[u8]]) -> Endpoint {
    Endpoint::with_metadata(
        address(port),
        Metadata {
            tokens: tokens.iter().map(|token| token.to_vec()).collect(),
        },
    )
}

fn addresses_for(set: &EndpointSet, token: &[u8]) -> Vec<EndpointAddress> {
    let mut found = Vec::new();
    set.addresses_for_token(token, &mut found);
    found
}

#[test]
fn tokens_are_compared_byte_by_byte() {
    let metadata = Metadata {
        tokens: vec![b"abc".to_vec(), b"".to_vec(), vec![0, 255]],
    };
    assert!(metadata.contains(b"abc"));
    assert!(metadata.contains(b""));
    assert!(metadata.contains(&[0, 255]));
    assert!(!metadata.contains(b"ab"));
    assert!(!metadata.contains(b"abcd"));
    assert!(!metadata.contains(b"ABC"));
    assert!(!metadata.contains(&[0]));
    assert!(!Metadata::new().contains(b""));
    assert!(!Endpoint::new(address(1)).metadata.contains(b"abc"));
}

#[test]
fn strings_and_bytes_are_compared_exactly() {
    assert!(bytes_eq(b"", b""));
    assert!(bytes_eq(b"abc", b"abc"));
    assert!(!bytes_eq(b"abc", b"abd"));
    assert!(!bytes_eq(b"abc", b"ab"));
    assert!(!bytes_eq(b"", b"a"));
    assert!(str_eq("", ""));
    assert!(str_eq("k\u{e9}y", "k\u{e9}y"));
    assert!(!str_eq("key", "Key"));
    assert!(!str_eq("key", "keys"));
}

#[test]
fn token_map_gives_the_holders_of_each_token() {
    let mut set = EndpointSet::new(vec![
        endpoint(1, &[b"a", b"b"]),
        endpoint(2, &[b"b", b"b"]),
        endpoint(3, &[]),
        endpoint(4, &[b"a", b"c"]),
    ]);
    assert_eq!(set.len(), 4);
    assert_eq!(set.endpoint(3).address, address(4));

    // nothing is found before the index is built
    assert!(addresses_for(&set, b"a").is_empty());

    set.build_token_map();
    assert_eq!(set.len(), 4);
    assert_eq!(addresses_for(&set, b"a"), vec![address(1), address(4)]);
    assert_eq!(addresses_for(&set, b"b"), vec![address(1), address(2)]);
    assert_eq!(addresses_for(&set, b"c"), vec![address(4)]);
    assert!(addresses_for(&set, b"d").is_empty());
    assert!(addresses_for(&set, b"").is_empty());

    // what is found is added behind what is there
    let mut found = vec![address(9)];
    set.addresses_for_token(b"c", &mut found);
    assert_eq!(found, vec![address(9), address(4)]);
    set.addresses_for_token(b"none", &mut found);
    assert_eq!(found, vec![address(9), address(4)]);
}

#[test]
fn a_cluster_is_replaced_in_its_place() {
    let region = |name: &str| Some(Locality::with_region(name.into()));
    let mut clusters = ClusterMap::new();
    assert_eq!(clusters.len(), 0);
    clusters.insert(region("a"), vec![endpoint(1, &[b"t"])]);
    clusters.insert_default(vec![endpoint(2, &[b"t"])]);
    clusters.insert(region("b"), vec![endpoint(3, &[b"t"])]);
    clusters.build_token_maps();
    assert_eq!(clusters.len(), 3);
    assert_eq!(addresses_for(clusters.cluster(1), b"t"), vec![address(2)]);

    clusters.insert_default(vec![endpoint(4, &[b"t"]), endpoint(5, &[b"t"])]);
    assert_eq!(clusters.len(), 3);
    assert_eq!(clusters.cluster(0).endpoint(0).address, address(1));
    assert_eq!(clusters.cluster(1).len(), 2);
    assert_eq!(clusters.cluster(1).endpoint(0).address, address(4));
    assert_eq!(clusters.cluster(2).endpoint(0).address, address(3));
    // the new cluster has no index yet, the others keep theirs
    assert!(addresses_for(clusters.cluster(1), b"t").is_empty());
    assert_eq!(addresses_for(clusters.cluster(0), b"t"), vec![address(1)]);

    clusters.insert(
        Some(Locality::new("a".into(), "z".into(), "".into())),
        vec![],
    );
    assert_eq!(clusters.len(), 4);
    clusters.insert(region("a"), vec![]);
    assert_eq!(clusters.len(), 4);
    assert_eq!(clusters.cluster(0).len(), 0);

    clusters.build_token_maps();
    assert_eq!(clusters.len(), 4);
    assert_eq!(
        addresses_for(clusters.cluster(1), b"t"),
        vec![address(4), address(5)]
    );
    assert_eq!(addresses_for(clusters.cluster(2), b"t"), vec![address(3)]);
}

#[test]
fn locality_is_written_with_colons() {
    assert_eq!(Locality::with_region("europe".into()).to_string(), "europe");
    assert_eq!(
        Locality::new("europe".into(), "west".into(), "".into()).to_string(),
        "europe:west"
    );
    assert_eq!(
        Locality::new("europe".into(), "west".into(), "1b".into()).colon_separated_string(),
        "europe:west:1b"
    );
    assert_eq!(
        Locality::new("europe".into(), "".into(), "1b".into()).to_string(),
        "europe:1b"
    );
    assert_eq!(
        Locality::new("".into(), "".into(), "".into()).to_string(),
        ""
    );
    let locality = Locality::new("a".into(), "b".into(), "c".into());
    assert_eq!(locality.clone(), locality);
    assert_ne!(locality, Locality::new("a".into(), "b".into(), "".into()));
}

#[test]
fn metadata_holds_one_value_under_each_key() {
    let mut metadata = DynamicMetadata::new();
    let key = |name: &str| Key::new(name.into());
    assert_eq!(metadata.get(&key("a")), None);

    assert_eq!(metadata.insert(key("a"), Value::Number(1)), None);
    assert_eq!(metadata.insert(key("b"), Value::Bool(false)), None);
    assert_eq!(metadata.get(&key("a")), Some(&Value::Number(1)));
    assert_eq!(metadata.get(&key("b")), Some(&Value::Bool(false)));
    assert_eq!(metadata.get(&key("A")), None);

    assert_eq!(
        metadata.insert(key("a"), Value::Bytes(vec![1, 2])),
        Some(Value::Number(1))
    );
    assert_eq!(metadata.get(&key("a")), Some(&Value::Bytes(vec![1, 2])));
    assert_eq!(metadata.get(&key("b")), Some(&Value::Bool(false)));
    assert_eq!(
        metadata.insert(Key::from_static("a"), Value::String("s".into())),
        Some(Value::Bytes(vec![1, 2]))
    );
    assert_eq!(metadata.get(&"a".into()), Some(&Value::String("s".into())));
}

#[test]
fn keys_and_values_compare_by_what_they_hold() {
    assert_eq!(Key::new("k".into()), Key::from_static("k"));
    assert_eq!(Key::from("k"), Key::from_static("k"));
    assert_ne!(Key::from("k"), Key::from("K"));
    assert_eq!(Key::from("k").to_string(), "k");
    assert_eq!(Key::from("k").clone().as_str(), "k");

    assert_eq!(Value::Bytes(vec![1]).clone(), Value::Bytes(vec![1]));
    assert_ne!(Value::Bytes(vec![1]), Value::Bytes(vec![1, 1]));
    assert_ne!(Value::Bytes(b"a".to_vec()), Value::String("a".into()));
    assert_ne!(Value::Number(1), Value::Bool(true));
    assert_eq!(Value::String("a".into()).clone(), Value::String("a".into()));
    assert_eq!(Value::Number(u64::MAX).clone(), Value::Number(u64::MAX));
    assert_eq!(Value::Bool(true).clone(), Value::Bool(true));
}
