use std::sync::Arc;

use quilkin::filters::capture::CAPTURED_BYTES;
use quilkin::filters::token_router::proto;
use quilkin::filters::token_router::{
    default_metadata_key, Config, Error, HashedTokenRouter, Router, TokenRouter,
};
use quilkin::filters::{FilterError, ReadContext};
use quilkin::net::address::{AddressKind, EndpointAddress, IpAddr, Ipv4Addr};
use quilkin::net::cluster::ClusterMap;
use quilkin::net::endpoint::metadata::Value;
use quilkin::net::endpoint::{Endpoint, Metadata};

const TOKEN_KEY: &str = "TOKEN";

fn address(port: u16) -> EndpointAddress {
    EndpointAddress::new(AddressKind::Ip(IpAddr::V4(Ipv4Addr::new(127, 0, 0, 1))), port)
}

fn new_ctx() -> ReadContext {
    let endpoint1 = Endpoint::with_metadata(
        address(80),
        Metadata {
            tokens: vec![b"123".to_vec()],
        },
    );
    let endpoint2 = Endpoint::with_metadata(
        address(90),
        Metadata {
            tokens: vec![b"456".to_vec()],
        },
    );

    let mut endpoints = ClusterMap::new();
    endpoints.insert_default(vec![endpoint1, endpoint2]);
    ReadContext::new(Arc::new(endpoints), address(100), b"hello".to_vec())
}

fn assert_read<F: Router>(filter: &F, mut ctx: ReadContext) {
    filter.sync_read(&mut ctx).unwrap();

    assert_eq!(b"hello", ctx.contents.as_slice());
}

#[test]
fn convert_proto_config() {
    let test_cases = vec![
        (
            "should succeed when all valid values are provided",
            proto::TokenRouter {
                metadata_key: Some("foobar".into()),
            },
            Some(Config {
                metadata_key: "foobar".into(),
            }),
        ),
        (
            "should use correct default values",
            proto::TokenRouter { metadata_key: None },
            Some(Config {
                metadata_key: default_metadata_key(),
            }),
        ),
    ];
    for (name, proto_config, expected) in test_cases {
        let result = Config::try_from(proto_config);
        assert_eq!(
            result.is_err(),
            expected.is_none(),
            "{}: error expectation does not match",
            name
        );
        if let Some(expected) = expected {
            assert_eq!(expected, result.unwrap(), "{}", name);
        }
    }
}

#[test]
fn factory_custom_tokens() {
    let filter = TokenRouter::from_config(
        Config {
            metadata_key: TOKEN_KEY.into(),
        }
        .into(),
    );
    let mut ctx = new_ctx();
    ctx.metadata
        .insert(TOKEN_KEY.into(), Value::Bytes(b"123".to_vec()));
    assert_read(&filter, ctx);
}

#[test]
fn factory_empty_config() {
    let filter = TokenRouter::from_config(None);
    let mut ctx = new_ctx();
    ctx.metadata
        .insert(CAPTURED_BYTES.into(), Value::Bytes(b"123".to_vec()));
    assert_read(&filter, ctx);
}

#[test]
fn downstream_receive() {
    // valid key
    let config = Config {
        metadata_key: CAPTURED_BYTES.into(),
    };
    let filter = TokenRouter::from_config(config.into());

    let mut ctx = new_ctx();
    ctx.metadata
        .insert(CAPTURED_BYTES.into(), Value::Bytes(b"123".to_vec()));
    assert_read(&filter, ctx);

    // invalid key
    let mut ctx = new_ctx();
    ctx.metadata
        .insert(CAPTURED_BYTES.into(), Value::Bytes(b"567".to_vec()));

    assert!(filter.sync_read(&mut ctx).is_err());

    // no key
    let mut ctx = new_ctx();
    assert!(filter.sync_read(&mut ctx).is_err());

    // wrong type key
    let mut ctx = new_ctx();
    ctx.metadata
        .insert(CAPTURED_BYTES.into(), Value::String(String::from("wrong")));
    assert!(filter.sync_read(&mut ctx).is_err());
}

fn endpoint(port: u16, tokens: &[&[u8]]) -> Endpoint {
    Endpoint::with_metadata(
        address(port),
        Metadata {
            tokens: tokens.iter().map(|token| token.to_vec()).collect(),
        },
    )
}

fn ctx_with(clusters: ClusterMap, key: &str, value: Option<Value>) -> ReadContext {
    let mut ctx = ReadContext::new(Arc::new(clusters), address(100), b"hello".to_vec());
    if let Some(value) = value {
        ctx.metadata.insert(key.into(), value);
    }
    ctx
}

fn router_error(result: Result<(), FilterError>) -> Error {
    match result {
        Err(FilterError::TokenRouter(error)) => error,
        Ok(()) => panic!("the packet was passed on"),
    }
}

#[test]
fn linear_router_collects_every_holder_in_order() {
    let mut clusters = ClusterMap::new();
    clusters.insert_default(vec![
        endpoint(1, &[b"T", b"other"]),
        endpoint(2, &[b"other"]),
        endpoint(3, &[b"T"]),
    ]);
    let router = TokenRouter::from_config(None);

    let mut ctx = ctx_with(clusters, CAPTURED_BYTES, Some(Value::Bytes(b"T".to_vec())));
    router.sync_read(&mut ctx).unwrap();
    assert_eq!(ctx.destinations, vec![address(1), address(3)]);
    assert_eq!(ctx.contents, b"hello");
    assert_eq!(ctx.source, address(100));
    assert_eq!(
        ctx.metadata.get(&CAPTURED_BYTES.into()),
        Some(&Value::Bytes(b"T".to_vec()))
    );
}

#[test]
fn linear_router_walks_cluster_after_cluster() {
    let mut clusters = ClusterMap::new();
    clusters.insert(
        Some(quilkin::net::endpoint::locality::Locality::with_region("b".into())),
        vec![endpoint(5, &[b"T"]), endpoint(4, &[b"T"])],
    );
    clusters.insert_default(vec![endpoint(9, &[b"x"]), endpoint(1, &[b"T", b"T"])]);
    clusters.insert(
        Some(quilkin::net::endpoint::locality::Locality::with_region("a".into())),
        vec![endpoint(7, &[]), endpoint(3, &[b"T"])],
    );
    assert_eq!(clusters.len(), 3);
    let router = TokenRouter::from_config(None);
    let mut ctx = ctx_with(clusters, CAPTURED_BYTES, Some(Value::Bytes(b"T".to_vec())));
    router.sync_read(&mut ctx).unwrap();
    assert_eq!(
        ctx.destinations,
        vec![address(5), address(4), address(1), address(3)]
    );
}

#[test]
fn linear_router_fails_without_a_holder() {
    let mut clusters = ClusterMap::new();
    clusters.insert_default(vec![endpoint(1, &[b"T"]), endpoint(2, &[b"TT", b""])]);
    let router = TokenRouter::from_config(None);
    let mut ctx = ctx_with(clusters, CAPTURED_BYTES, Some(Value::Bytes(b"567".to_vec())));
    ctx.destinations.push(address(42));

    let error = router_error(router.sync_read(&mut ctx));
    match &error {
        Error::NoEndpointMatch(key, token) => {
            assert_eq!(key.as_str(), CAPTURED_BYTES);
            assert_eq!(token, "NTY3");
        }
        other => panic!("not the expected error: {:?}", other),
    }
    assert_eq!(
        error.to_string(),
        "no endpoint matched token `NTY3` from `quilkin.dev/capture`"
    );
    // the context is as it was
    assert_eq!(ctx.destinations, vec![address(42)]);
    assert_eq!(ctx.contents, b"hello");
}

#[test]
fn router_fails_without_a_token() {
    let mut clusters = ClusterMap::new();
    clusters.insert_default(vec![endpoint(1, &[b"T"])]);
    let router = TokenRouter::from_config(None);
    let mut ctx = ctx_with(clusters, "other", Some(Value::Bytes(b"T".to_vec())));

    let error = router_error(router.sync_read(&mut ctx));
    match &error {
        Error::NoTokenFound(key) => assert_eq!(key.as_str(), CAPTURED_BYTES),
        other => panic!("not the expected error: {:?}", other),
    }
    assert_eq!(
        error.to_string(),
        "no routing token found for `quilkin.dev/capture`"
    );
    assert!(ctx.destinations.is_empty());
    assert_eq!(
        FilterError::new(error).to_string(),
        "no routing token found for `quilkin.dev/capture`"
    );
}

#[test]
fn router_fails_on_a_value_that_is_no_byte_string() {
    let values = [
        (Value::String("wrong".into()), "String(\"wrong\")"),
        (Value::Number(7), "Number(7)"),
        (Value::Bool(true), "Bool(true)"),
    ];
    for (value, shown) in values {
        for hashed in [false, true] {
            let mut clusters = ClusterMap::new();
            clusters.insert_default(vec![endpoint(1, &[b"wrong"])]);
            clusters.build_token_maps();
            let mut ctx = ReadContext::new(Arc::new(clusters), address(100), b"hello".to_vec());
            ctx.metadata.insert("k".into(), value.clone());
            let config = Config {
                metadata_key: "k".into(),
            };
            let result = if hashed {
                HashedTokenRouter::from_config(Some(config)).sync_read(&mut ctx)
            } else {
                TokenRouter::from_config(Some(config)).sync_read(&mut ctx)
            };
            let error = router_error(result);
            match &error {
                Error::InvalidType(key, found) => {
                    assert_eq!(key.as_str(), "k");
                    assert_eq!(found, &value);
                }
                other => panic!("not the expected error: {:?}", other),
            }
            assert_eq!(
                error.to_string(),
                format!("key `k` was found but wasn't bytes, found {}", shown)
            );
            assert!(ctx.destinations.is_empty());
        }
    }
}

fn indexed_clusters() -> ClusterMap {
    let mut clusters = ClusterMap::new();
    clusters.insert(
        Some(quilkin::net::endpoint::locality::Locality::with_region("one".into())),
        vec![endpoint(10, &[b"a"]), endpoint(11, &[b"a", b"b"])],
    );
    clusters.insert(
        Some(quilkin::net::endpoint::locality::Locality::with_region("two".into())),
        vec![endpoint(20, &[b"T"]), endpoint(21, &[b"b"]), endpoint(22, &[b"T"])],
    );
    clusters.insert(
        Some(quilkin::net::endpoint::locality::Locality::with_region("three".into())),
        vec![endpoint(30, &[b"T"]), endpoint(31, &[b"c"])],
    );
    clusters.build_token_maps();
    clusters
}

#[test]
fn hashed_router_takes_the_first_cluster_that_knows_the_token() {
    let router = HashedTokenRouter::from_config(None);

    // only the second and the third cluster know `T`
    let mut ctx = ctx_with(
        indexed_clusters(),
        CAPTURED_BYTES,
        Some(Value::Bytes(b"T".to_vec())),
    );
    router.sync_read(&mut ctx).unwrap();
    assert_eq!(ctx.destinations, vec![address(20), address(22)]);

    // only the third cluster knows `c`
    let mut ctx = ctx_with(
        indexed_clusters(),
        CAPTURED_BYTES,
        Some(Value::Bytes(b"c".to_vec())),
    );
    router.sync_read(&mut ctx).unwrap();
    assert_eq!(ctx.destinations, vec![address(31)]);

    // the first and the second cluster know `b`
    let mut ctx = ctx_with(
        indexed_clusters(),
        CAPTURED_BYTES,
        Some(Value::Bytes(b"b".to_vec())),
    );
    router.sync_read(&mut ctx).unwrap();
    assert_eq!(ctx.destinations, vec![address(11)]);

    // the linear router asks every cluster
    let mut ctx = ctx_with(
        indexed_clusters(),
        CAPTURED_BYTES,
        Some(Value::Bytes(b"b".to_vec())),
    );
    TokenRouter::from_config(None).sync_read(&mut ctx).unwrap();
    assert_eq!(ctx.destinations, vec![address(11), address(21)]);
}

#[test]
fn hashed_router_fails_where_no_index_knows_the_token() {
    let router = HashedTokenRouter::from_config(None);
    let mut ctx = ctx_with(
        indexed_clusters(),
        CAPTURED_BYTES,
        Some(Value::Bytes(b"xyz".to_vec())),
    );
    let error = router_error(router.sync_read(&mut ctx));
    match &error {
        Error::NoEndpointMatch(key, token) => {
            assert_eq!(key.as_str(), CAPTURED_BYTES);
            assert_eq!(token, "eHl6");
        }
        other => panic!("not the expected error: {:?}", other),
    }
    assert!(ctx.destinations.is_empty());

    // without clusters there is nothing to ask
    let mut ctx = ctx_with(
        ClusterMap::new(),
        CAPTURED_BYTES,
        Some(Value::Bytes(b"T".to_vec())),
    );
    assert!(matches!(
        router_error(router.sync_read(&mut ctx)),
        Error::NoEndpointMatch(_, _)
    ));
}

#[test]
fn hashed_router_reads_the_index_as_it_was_built() {
    let mut clusters = ClusterMap::new();
    clusters.insert_default(vec![endpoint(1, &[b"T"])]);
    // the index has not been built: the linear router finds the endpoint,
    // the hashed router does not
    let mut ctx = ctx_with(clusters, CAPTURED_BYTES, Some(Value::Bytes(b"T".to_vec())));
    assert!(HashedTokenRouter::from_config(None)
        .sync_read(&mut ctx)
        .is_err());
    TokenRouter::from_config(None).sync_read(&mut ctx).unwrap();
    assert_eq!(ctx.destinations, vec![address(1)]);
}

#[test]
fn router_without_configuration_reads_the_capture_key() {
    assert_eq!(CAPTURED_BYTES, "quilkin.dev/capture");
    assert_eq!(default_metadata_key().as_str(), CAPTURED_BYTES);
    assert_eq!(Config::default().metadata_key.as_str(), CAPTURED_BYTES);
    assert_eq!(
        Config::default(),
        Config {
            metadata_key: CAPTURED_BYTES.into()
        }
    );

    let routers = [
        <TokenRouter as Router>::new(),
        TokenRouter::from_config(None),
        TokenRouter::try_from_config(None).unwrap(),
        TokenRouter::new(Config::default()),
    ];
    for router in routers {
        let mut ctx = new_ctx();
        ctx.metadata
            .insert(CAPTURED_BYTES.into(), Value::Bytes(b"456".to_vec()));
        ctx.metadata
            .insert("X".into(), Value::Bytes(b"123".to_vec()));
        router.sync_read(&mut ctx).unwrap();
        assert_eq!(ctx.destinations, vec![address(90)]);
    }
    let hashed = [
        <HashedTokenRouter as Router>::new(),
        HashedTokenRouter::from_config(None),
        HashedTokenRouter::try_from_config(None).unwrap(),
        HashedTokenRouter::new(Config::default()),
    ];
    for router in hashed {
        let mut ctx = ctx_with(
            indexed_clusters(),
            CAPTURED_BYTES,
            Some(Value::Bytes(b"c".to_vec())),
        );
        ctx.metadata
            .insert("X".into(), Value::Bytes(b"a".to_vec()));
        router.sync_read(&mut ctx).unwrap();
        assert_eq!(ctx.destinations, vec![address(31)]);
    }
}

#[test]
fn router_with_a_key_reads_that_key_only() {
    let config = || Config {
        metadata_key: "X".into(),
    };
    let router = TokenRouter::from_config(Some(config()));

    // the token stands under the default key only
    let mut ctx = new_ctx();
    ctx.metadata
        .insert(CAPTURED_BYTES.into(), Value::Bytes(b"123".to_vec()));
    match router_error(router.sync_read(&mut ctx)) {
        Error::NoTokenFound(key) => assert_eq!(key.as_str(), "X"),
        other => panic!("not the expected error: {:?}", other),
    }

    // under both keys: the one under `X` counts
    let mut ctx = new_ctx();
    ctx.metadata
        .insert(CAPTURED_BYTES.into(), Value::Bytes(b"123".to_vec()));
    ctx.metadata
        .insert("X".into(), Value::Bytes(b"456".to_vec()));
    router.sync_read(&mut ctx).unwrap();
    assert_eq!(ctx.destinations, vec![address(90)]);

    let hashed = HashedTokenRouter::try_from_config(Some(config())).unwrap();
    let mut ctx = ctx_with(
        indexed_clusters(),
        CAPTURED_BYTES,
        Some(Value::Bytes(b"c".to_vec())),
    );
    match router_error(hashed.sync_read(&mut ctx)) {
        Error::NoTokenFound(key) => assert_eq!(key.as_str(), "X"),
        other => panic!("not the expected error: {:?}", other),
    }
}

#[test]
fn routers_never_pass_a_packet_on_without_a_destination() {
    let tokens: [&[u8]; 6] = [b"", b"a", b"b", b"T", b"c", b"none"];
    for token in tokens {
        for hashed in [false, true] {
            let mut ctx = ctx_with(
                indexed_clusters(),
                CAPTURED_BYTES,
                Some(Value::Bytes(token.to_vec())),
            );
            let result = if hashed {
                HashedTokenRouter::from_config(None).sync_read(&mut ctx)
            } else {
                TokenRouter::from_config(None).sync_read(&mut ctx)
            };
            match result {
                Ok(()) => assert!(!ctx.destinations.is_empty()),
                Err(_) => assert!(ctx.destinations.is_empty()),
            }
        }
    }
}

#[test]
fn registered_names() {
    assert_eq!(
        TokenRouter::NAME,
        "quilkin.filters.token_router.v1alpha1.TokenRouter"
    );
    assert_eq!(
        HashedTokenRouter::NAME,
        "quilkin.filters.token_router.v1alpha1.HashedTokenRouter"
    );
}

#[test]
fn configuration_survives_its_wire_form() {
    let config = Config {
        metadata_key: "foobar".into(),
    };
    let wire = proto::TokenRouter::from(config.clone());
    assert_eq!(wire.metadata_key.as_deref(), Some("foobar"));

    let mut bytes = Vec::new();
    quilkin::xds::message::Message::encode_raw(&wire, &mut bytes);
    let mut expected = vec![0x0a, 6];
    expected.extend_from_slice(b"foobar");
    assert_eq!(bytes, expected);

    let read: proto::TokenRouter = quilkin::xds::message::decode(&bytes).unwrap();
    assert_eq!(Config::try_from(read).unwrap(), config);

    // an absent key stands for the default
    let read: proto::TokenRouter = quilkin::xds::message::decode(&[]).unwrap();
    assert_eq!(read.metadata_key, None);
    assert_eq!(Config::try_from(read).unwrap(), Config::default());
}

/// The capture filter and the hashed router in concert: the last three
/// bytes of the packet are its token.
fn capture_and_route(clusters: &Arc<ClusterMap>, packet: &[u8]) -> Option<(Vec<u8>, Vec<EndpointAddress>)> {
    let mut ctx = ReadContext::new(clusters.clone(), address(100), packet.to_vec());
    let at = ctx.contents.len() - 3;
    let token = ctx.contents.split_off(at);
    ctx.metadata
        .insert(CAPTURED_BYTES.into(), Value::Bytes(token));
    let router = HashedTokenRouter::from_config(None);
    match router.sync_read(&mut ctx) {
        Ok(()) => Some((ctx.contents, ctx.destinations)),
        Err(_) => None,
    }
}

#[test]
fn hashed_token_router() {
    let echo = EndpointAddress::new(
        AddressKind::Ip(IpAddr::V6(quilkin::net::address::Ipv6Addr::new([
            0, 0, 0, 0, 0, 0, 0, 1,
        ]))),
        12345,
    );
    let mut clusters = ClusterMap::new();
    clusters.insert_default(vec![Endpoint::with_metadata(
        echo.clone(),
        Metadata {
            // YWJj
            tokens: vec![b"abc".to_vec()],
        },
    )]);
    clusters.build_token_maps();
    let clusters = Arc::new(clusters);

    // valid packet
    let (contents, destinations) =
        capture_and_route(&clusters, b"helloabc").expect("should have received a packet");
    assert_eq!(b"hello", contents.as_slice());
    assert_eq!(destinations, vec![echo]);

    // send an invalid packet
    let result = capture_and_route(&clusters, b"helloxyz");
    assert!(result.is_none(), "should not have received a packet");
}
