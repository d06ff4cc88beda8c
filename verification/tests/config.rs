use leptos_ntex_unofficial::config::{
    content_length_exceeds, initial_payload_capacity, oversize_message, read_content_length,
    server_fn_config, PayloadCollector, PayloadTooLarge, INITIAL_PAYLOAD_CAPACITY_CAP,
};
use leptos_ntex_unofficial::{
    LeptosServerFnConfig, DEFAULT_PAYLOAD_LIMIT, DEFAULT_WS_CHANNEL_BUFFER,
};
use ntex::http::header::{HeaderName, HeaderValue};
use ntex::http::HeaderMap;

fn fields(list: &[(&str, &[u8])]) -> HeaderMap {
    let mut map = HeaderMap::new();
    for (name, value) in list {
        map.append(
            HeaderName::try_from(*name).unwrap(),
            HeaderValue::from_bytes(value).unwrap(),
        );
    }
    map
}

#[test]
fn defaults_are_two_mebibytes_and_2048_messages() {
    for config in [LeptosServerFnConfig::new(), LeptosServerFnConfig::default()] {
        assert_eq!(config.payload_limit, 2_097_152);
        assert_eq!(config.ws_channel_buffer, 2048);
        assert_eq!(config.ws_subprotocol, None);
    }
    assert_eq!(DEFAULT_PAYLOAD_LIMIT, 2_097_152);
    assert_eq!(DEFAULT_WS_CHANNEL_BUFFER, 2048);
}

#[test]
fn builders_change_one_tunable_each() {
    let config = LeptosServerFnConfig::new()
        .with_payload_limit(10)
        .with_ws_channel_buffer(3)
        .with_ws_subprotocol("chat");
    assert_eq!(config.payload_limit, 10);
    assert_eq!(config.ws_channel_buffer, 3);
    assert_eq!(config.ws_subprotocol, Some("chat"));
}

#[test]
fn registered_config_wins_over_the_default() {
    let registered = LeptosServerFnConfig::new().with_payload_limit(7);
    assert_eq!(server_fn_config(Some(registered)).payload_limit, 7);
    assert_eq!(server_fn_config(None).payload_limit, DEFAULT_PAYLOAD_LIMIT);
}

#[test]
fn declared_length_is_held_against_the_limit() {
    assert!(!content_length_exceeds(&fields(&[]), 10));
    assert!(!content_length_exceeds(&fields(&[("content-length", b"10")]), 10));
    assert!(content_length_exceeds(&fields(&[("content-length", b"11")]), 10));
    assert!(!content_length_exceeds(&fields(&[("content-length", b"+10")]), 10));
}

#[test]
fn malformed_declared_length_counts_as_too_large() {
    for raw in [
        &b"abc"[..],
        b"99999999999999999999999999",
        b"-1",
        b"",
        b"1 ",
        b"\xff",
    ] {
        let headers = fields(&[("content-length", raw)]);
        assert!(content_length_exceeds(&headers, usize::MAX));
        assert_eq!(read_content_length(&headers), None);
    }
}

#[test]
fn declared_length_is_read_from_the_first_field() {
    let headers = fields(&[("content-length", b"12"), ("content-length", b"13")]);
    assert_eq!(read_content_length(&headers), Some(12));
    assert_eq!(read_content_length(&fields(&[])), None);
}

#[test]
fn initial_capacity_is_clamped() {
    assert_eq!(INITIAL_PAYLOAD_CAPACITY_CAP, 65536);
    assert_eq!(initial_payload_capacity(Some(100), 1000), 100);
    assert_eq!(initial_payload_capacity(Some(1000), 1000), 1000);
    assert_eq!(initial_payload_capacity(Some(1001), 1000), 0);
    assert_eq!(initial_payload_capacity(None, 1000), 0);
    assert_eq!(initial_payload_capacity(Some(1 << 20), 1 << 21), 65536);
}

#[test]
fn oversize_message_names_the_limit() {
    assert_eq!(oversize_message(1024), "payload exceeds limit of 1024 bytes");
    assert_eq!(oversize_message(0), "payload exceeds limit of 0 bytes");
}

#[test]
fn body_is_collected_up_to_the_limit() {
    let mut collector = PayloadCollector::new(Some(4), 4);
    assert_eq!(collector.push(b"ab"), Ok(()));
    assert_eq!(collector.push(b""), Ok(()));
    assert_eq!(collector.push(b"cd"), Ok(()));
    assert_eq!(collector.push(b"e"), Err(PayloadTooLarge));
    assert_eq!(collector.finish(), b"abcd".to_vec());
}

#[test]
fn first_chunk_over_the_limit_is_refused() {
    let mut collector = PayloadCollector::new(None, 0);
    assert_eq!(collector.push(b""), Ok(()));
    assert_eq!(collector.push(b"x"), Err(PayloadTooLarge));
}
