use bytes::{Bytes, BytesMut};
use rafka::api::ApiKey;
use rafka::api_versions::{ApiVersionsItem, ApiVersionsResponse, Request as VersionsRequest};
use rafka::client::Client;
use rafka::error::Error;
use rafka::list_offsets::ListOffsetsRequest;
use rafka::metadata::Request as MetadataRequest;
use rafka::tagged::TagBuffer;
use rafka::transport::{decode_response, encode_request, CallReq, Codec, InFlight, RawResponse, Tagger};
use rafka::wire::{WireWrite, Wired};

fn versions_request(version: usize) -> VersionsRequest {
    if version >= 3 {
        VersionsRequest {
            client_software_name: Some("rafka".to_string()),
            client_software_version: Some("0.0.0".to_string()),
            tags: Some(TagBuffer::new()),
        }
    } else {
        VersionsRequest { client_software_name: None, client_software_version: None, tags: None }
    }
}

fn frame_of(corr: i32, body: &[u8]) -> Vec<u8> {
    let mut out = ((body.len() + 4) as i32).to_be_bytes().to_vec();
    out.extend_from_slice(&corr.to_be_bytes());
    out.extend_from_slice(body);
    out
}

#[test]
fn capability_query_end_to_end() {
    // Request: api key 18, version 0, no body fields.
    let call = CallReq::new(0, versions_request(0));
    let mut raw = encode_request(&call, Some("rafka".to_string())).unwrap();
    assert!(!raw.flexible);
    assert!(raw.data.is_empty());
    let mut tagger = Tagger::new();
    assert_eq!(tagger.assign_tag(&mut raw), 1);
    let mut out = BytesMut::new();
    Codec::new().encode(raw, &mut out).unwrap();
    assert_eq!(
        out.to_vec(),
        vec![0, 0, 0, 15, 0, 18, 0, 0, 0, 0, 0, 1, 0, 5, b'r', b'a', b'f', b'k', b'a']
    );

    // Response: error code 0, one entry (api key 3, min 0, max 9).
    let body = [0u8, 0, 0, 0, 0, 1, 0, 3, 0, 0, 0, 9];
    let mut input = BytesMut::from(&frame_of(1, &body)[..]);
    let resp = Codec::new().decode(&mut input).unwrap().unwrap();
    assert!(input.is_empty());
    assert_eq!(Tagger::new().finish_tag(&resp), 1);
    let versions: ApiVersionsResponse = decode_response(resp.data, 0, false).unwrap();
    assert_eq!(versions.error_code, 0);
    assert_eq!(versions.versions.len(), 1);
    assert_eq!(versions.throttle_time_ms, None);

    let client = Client::from_versions(&versions).unwrap();
    assert_eq!(client.server_versions(ApiKey::Metadata), Some((0, 9)));
    assert_eq!(client.server_versions(ApiKey::Fetch), None);
    // A later metadata call: client (4, 99) against server (0, 9).
    assert_eq!(client.version_match(ApiKey::Metadata, (4, 99)), Ok((4, 9)));
    assert_eq!(client.negotiate::<MetadataRequest>((4, 99)), Ok((9, true)));
    assert_eq!(client.negotiate::<MetadataRequest>((4, 8)), Ok((8, false)));
}

fn catalogue(key: ApiKey, min: i16, max: i16) -> Client {
    let resp = ApiVersionsResponse {
        error_code: 0,
        versions: vec![ApiVersionsItem { api_key: key, min_version: min, max_version: max, tags: None }],
        throttle_time_ms: None,
        tags: None,
    };
    Client::from_versions(&resp).unwrap()
}

#[test]
fn negotiation_picks_the_common_maximum() {
    let c = catalogue(ApiKey::Metadata, 0, 3);
    assert_eq!(c.version_match(ApiKey::Metadata, (1, 2)), Ok((1, 2)));
    // threshold 9 > 2: standard mode
    assert_eq!(c.negotiate::<MetadataRequest>((1, 2)), Ok((2, false)));
    let v = catalogue(ApiKey::ApiVersions, 0, 3);
    // threshold 3 > 2: standard mode; at 3 the compact mode applies
    assert_eq!(v.negotiate::<VersionsRequest>((1, 2)), Ok((2, false)));
    assert_eq!(v.negotiate::<VersionsRequest>((3, 5)), Ok((3, true)));
}

#[test]
fn negotiation_failures() {
    let c = catalogue(ApiKey::Metadata, 5, 9);
    assert_eq!(c.version_match(ApiKey::Metadata, (1, 4)), Err(Error::IncompatibleVersion));
    assert_eq!(c.version_match(ApiKey::Fetch, (0, 4)), Err(Error::IncompatibleVersion));
    assert_eq!(c.negotiate::<MetadataRequest>((10, 12)), Err(Error::IncompatibleVersion));
    let bad = ApiVersionsResponse { error_code: 35, versions: vec![], throttle_time_ms: None, tags: None };
    assert!(Client::from_versions(&bad).is_none());
}

#[test]
fn later_catalogue_entry_wins() {
    let resp = ApiVersionsResponse {
        error_code: 0,
        versions: vec![
            ApiVersionsItem { api_key: ApiKey::Fetch, min_version: 0, max_version: 4, tags: None },
            ApiVersionsItem { api_key: ApiKey::Fetch, min_version: 1, max_version: 11, tags: None },
        ],
        throttle_time_ms: None,
        tags: None,
    };
    let c = Client::from_versions(&resp).unwrap();
    assert_eq!(c.server_versions(ApiKey::Fetch), Some((1, 11)));
}

#[test]
fn flexible_request_has_header_tag_buffer() {
    let call = CallReq::new(3, versions_request(3));
    let raw = encode_request(&call, None).unwrap();
    assert!(raw.flexible);
    // compact strings "rafka" and "0.0.0", then an empty tag buffer
    assert_eq!(
        raw.data.to_vec(),
        vec![6, b'r', b'a', b'f', b'k', b'a', 6, b'0', b'.', b'0', b'.', b'0', 0]
    );
    let mut out = BytesMut::new();
    Codec::new().encode(raw, &mut out).unwrap();
    // length, api key, version 3, correlation id 0, null client id, tags, body
    let mut expected = vec![0, 0, 0, 24, 0, 18, 0, 3, 0, 0, 0, 0, 0xff, 0xff, 0];
    expected.extend_from_slice(&[6, b'r', b'a', b'f', b'k', b'a', 6, b'0', b'.', b'0', b'.', b'0', 0]);
    assert_eq!(out.to_vec(), expected);
}

#[test]
fn flexible_response_skips_header_tags() {
    // tag buffer of the response header, then a compact body
    let body = [0u8, 0, 0, 2, 0, 3, 0, 0, 0, 9, 0, 0, 0, 0, 0, 0];
    let resp: ApiVersionsResponse = decode_response(Bytes::copy_from_slice(&body), 3, true).unwrap();
    assert_eq!(resp.versions[0].api_key, ApiKey::Metadata);
    assert_eq!(resp.versions[0].max_version, 9);
    assert_eq!(resp.throttle_time_ms, Some(0));
}

#[test]
fn partial_frames_wait_for_more_bytes() {
    let full = frame_of(7, &[1, 2, 3]);
    let mut codec = Codec::new();
    for cut in 0..full.len() {
        let mut buf = BytesMut::from(&full[..cut]);
        assert!(codec.decode(&mut buf).unwrap().is_none());
        assert_eq!(buf.len(), cut);
    }
    let mut buf = BytesMut::from(&full[..]);
    let r = codec.decode(&mut buf).unwrap().unwrap();
    assert_eq!(r.corr_id, 7);
    assert_eq!(r.data, Bytes::from(vec![1u8, 2, 3]));
}

#[test]
fn back_to_back_frames() {
    let mut both = frame_of(1, &[9]);
    both.extend(frame_of(2, &[]));
    let mut buf = BytesMut::from(&both[..]);
    let mut codec = Codec::new();
    let a = codec.decode(&mut buf).unwrap().unwrap();
    let b = codec.decode(&mut buf).unwrap().unwrap();
    assert_eq!((a.corr_id, b.corr_id), (1, 2));
    assert_eq!(b.data.len(), 0);
    assert!(codec.decode(&mut buf).unwrap().is_none());
}

#[test]
fn frame_too_short_for_correlation_id() {
    let mut buf = BytesMut::from(&[0u8, 0, 0, 3, 1, 2, 3][..]);
    assert!(matches!(Codec::new().decode(&mut buf), Err(Error::TransportFailure)));
    let mut neg = BytesMut::from(&[0xffu8, 0xff, 0xff, 0xff][..]);
    assert!(matches!(Codec::new().decode(&mut neg), Err(Error::TransportFailure)));
}

#[test]
fn tags_increase_and_wrap() {
    let mut t = Tagger::new();
    let mut raw = encode_request(&CallReq::new(0, versions_request(0)), None).unwrap();
    assert_eq!(t.assign_tag(&mut raw), 1);
    assert_eq!(raw.header.correlation_id, 1);
    assert_eq!(t.assign_tag(&mut raw), 2);
    assert_eq!(t.assign_tag(&mut raw), 3);
    t.counter = i32::MAX;
    assert_eq!(t.assign_tag(&mut raw), i32::MIN);
    let r = RawResponse { corr_id: 42, data: Bytes::new() };
    assert_eq!(t.finish_tag(&r), 42);
}

#[test]
fn responses_out_of_order_reach_their_callers() {
    let mut table: InFlight<String> = InFlight::new();
    let mut tagger = Tagger::new();
    let mut raws = Vec::new();
    for name in ["first", "second", "third"] {
        let mut raw = encode_request(&CallReq::new(0, versions_request(0)), None).unwrap();
        let tag = tagger.assign_tag(&mut raw);
        assert!(table.register(tag, name.to_string()).is_ok());
        raws.push(tag);
    }
    assert_eq!(raws, vec![1, 2, 3]);
    assert_eq!(table.len(), 3);
    let mut stream = Vec::new();
    stream.extend(frame_of(3, b"c"));
    stream.extend(frame_of(1, b"a"));
    stream.extend(frame_of(2, b"b"));
    let mut buf = BytesMut::from(&stream[..]);
    let mut codec = Codec::new();
    let mut delivered = Vec::new();
    while let Some(resp) = codec.decode(&mut buf).unwrap() {
        let waiter = table.resolve(tagger.finish_tag(&resp)).unwrap();
        delivered.push((waiter, resp.data.to_vec()));
    }
    assert_eq!(
        delivered,
        vec![
            ("third".to_string(), b"c".to_vec()),
            ("first".to_string(), b"a".to_vec()),
            ("second".to_string(), b"b".to_vec()),
        ]
    );
    assert_eq!(table.len(), 0);
}

#[test]
fn unknown_tag_and_reused_tag() {
    let mut table: InFlight<u8> = InFlight::new();
    assert_eq!(table.resolve(5), Err(Error::UnexpectedResponse));
    assert!(table.register(5, 1).is_ok());
    assert_eq!(table.register(5, 2), Err(2));
    assert_eq!(table.resolve(5), Ok(1));
}

#[test]
fn connection_failure_fails_every_pending_call() {
    let mut table: InFlight<u8> = InFlight::new();
    table.register(1, 10).unwrap();
    table.register(2, 20).unwrap();
    let failed = table.fail_all();
    assert_eq!(failed.len(), 2);
    assert_eq!(failed.get(&2), Some(&20));
    assert_eq!(table.len(), 0);
}

#[test]
fn request_header_round_trip() {
    let call = CallReq::new(1, versions_request(1));
    let raw = encode_request(&call, Some("id".to_string())).unwrap();
    let mut w = WireWrite::new(1);
    raw.header.to_wire(&mut w);
    assert_eq!(w.buffer.to_vec(), vec![0, 18, 0, 1, 0, 0, 0, 0, 0, 2, b'i', b'd']);
}

#[test]
fn metadata_request_follows_the_version() {
    let old = MetadataRequest::for_topics(vec!["test".to_string()], 3);
    assert_eq!(old.allow_auto_topic_creation, None);
    assert!(old.tags.is_none());
    let raw = encode_request(&CallReq::new(3, old), None).unwrap();
    assert!(!raw.flexible);
    assert_eq!(raw.data.to_vec(), vec![0, 0, 0, 1, 0, 4, b't', b'e', b's', b't']);

    let new = MetadataRequest::for_topics(vec!["test".to_string()], 9);
    assert_eq!(new.include_topic_auth_ops, Some(true));
    assert_eq!(new.topics[0].value, "test");
    let raw = encode_request(&CallReq::new(9, new), None).unwrap();
    assert!(raw.flexible);
    // compact array of one topic (name, empty tags), three flags, empty tags
    assert_eq!(raw.data.to_vec(), vec![2, 5, b't', b'e', b's', b't', 0, 1, 1, 1, 0]);
}

#[test]
fn list_offsets_request_bytes() {
    let topics = vec![("test".to_string(), vec![0i32, 1])];
    let req = ListOffsetsRequest::for_partitions(&topics, 1);
    assert_eq!(req.replica_id, -1);
    assert!(req.isolation_level.is_none());
    let mut w = WireWrite::new(1);
    req.to_wire(&mut w);
    let mut expected = vec![0xff, 0xff, 0xff, 0xff, 0, 0, 0, 1, 0, 4, b't', b'e', b's', b't', 0, 0, 0, 2];
    expected.extend_from_slice(&[0, 0, 0, 0, 0, 0, 0, 0, 0, 0, 0, 0]);
    expected.extend_from_slice(&[0, 0, 0, 1, 0, 0, 0, 0, 0, 0, 0, 0]);
    assert_eq!(w.buffer.to_vec(), expected);
    let at4 = ListOffsetsRequest::for_partitions(&topics, 4);
    assert!(at4.isolation_level.is_some());
    assert_eq!(at4.topics.items[0].value[1].partition, 1);
    assert_eq!(at4.topics.items[0].value[1].timestamp, 0);
    assert_eq!(at4.topics.items[0].value[1].current_leader_epoch, Some(-1));
}

#[test]
fn short_declared_length_waits_until_complete() {
    let mut buf = BytesMut::from(&[0u8, 0, 0, 2][..]);
    assert!(Codec::new().decode(&mut buf).unwrap().is_none());
    assert_eq!(buf.to_vec(), vec![0, 0, 0, 2]);
    let mut buf = BytesMut::from(&[0u8, 0, 0, 2, 1][..]);
    assert!(Codec::new().decode(&mut buf).unwrap().is_none());
    let mut buf = BytesMut::from(&[0u8, 0, 0, 2, 1, 2][..]);
    assert!(matches!(Codec::new().decode(&mut buf), Err(Error::TransportFailure)));
}

#[test]
fn capability_query_builder_at_every_version() {
    let q = VersionsRequest::query("rafka".to_string(), "0.0.0".to_string());
    let raw = encode_request(&CallReq::new(0, q), None).unwrap();
    assert!(raw.data.is_empty());
    let q = VersionsRequest::query("rafka".to_string(), "0.0.0".to_string());
    let raw = encode_request(&CallReq::new(3, q), None).unwrap();
    assert_eq!(raw.data.len(), 13);
}
