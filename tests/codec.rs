use bytes::Bytes;
use rafka::api::{ApiKey, IsolationLevel};
use rafka::compose::{Versioned, VersionedRange};
use rafka::error::Error;
use rafka::tagged::{TagBuffer, TaggedField};
use rafka::heartbeat::Response as HeartbeatResponse;
use rafka::varint::{uvint, vint};
use rafka::wire::{WireRead, WireWrite, Wired};

fn encode<T: Wired>(v: &T, version: usize, compact: bool) -> Vec<u8> {
    let mut w = WireWrite::new(version);
    if compact {
        v.to_wire_compact(&mut w);
    } else {
        v.to_wire(&mut w);
    }
    w.buffer.to_vec()
}

fn decode<T: Wired>(data: &[u8], version: usize, compact: bool) -> (Result<T, Error>, Vec<u8>) {
    let mut r = WireRead::new(version, Bytes::copy_from_slice(data));
    let v = if compact { T::from_wire_compact(&mut r) } else { T::from_wire(&mut r) };
    (v, r.buffer.to_vec())
}

#[test]
fn integers_are_big_endian_twos_complement() {
    assert_eq!(encode(&-1i16, 0, false), vec![0xff, 0xff]);
    assert_eq!(encode(&258i32, 0, false), vec![0, 0, 1, 2]);
    assert_eq!(encode(&-2i8, 0, true), vec![0xfe]);
    assert_eq!(encode(&i64::MIN, 0, false), vec![0x80, 0, 0, 0, 0, 0, 0, 0]);
    assert_eq!(encode(&0x0102_0304_0506_0708i64, 0, false), vec![1, 2, 3, 4, 5, 6, 7, 8]);
    let (v, rest) = decode::<i32>(&[0xff, 0xff, 0xff, 0xfe, 9], 0, false);
    assert_eq!(v, Ok(-2));
    assert_eq!(rest, vec![9]);
    let (v, _) = decode::<i64>(&[0x80, 0, 0, 0, 0, 0, 0, 0], 0, false);
    assert_eq!(v, Ok(i64::MIN));
    let (v, _) = decode::<i16>(&[0x7f, 0xff], 0, false);
    assert_eq!(v, Ok(i16::MAX));
}

#[test]
fn short_integer_input_is_truncated() {
    let (v, _) = decode::<i32>(&[0, 0, 1], 0, false);
    assert_eq!(v, Err(Error::TruncatedInput));
    let (v, _) = decode::<i8>(&[], 0, false);
    assert_eq!(v, Err(Error::TruncatedInput));
}

#[test]
fn booleans_take_one_byte() {
    assert_eq!(encode(&true, 0, false), vec![1]);
    assert_eq!(encode(&false, 0, true), vec![0]);
    assert_eq!(decode::<bool>(&[2], 0, false).0, Ok(true));
    assert_eq!(decode::<bool>(&[0], 0, false).0, Ok(false));
}

#[test]
fn strings_in_both_modes() {
    let s = "abc".to_string();
    assert_eq!(encode(&s, 0, false), vec![0, 3, b'a', b'b', b'c']);
    assert_eq!(encode(&s, 0, true), vec![4, b'a', b'b', b'c']);
    assert_eq!(encode(&String::new(), 0, true), vec![1]);
    assert_eq!(encode(&String::new(), 0, false), vec![0, 0]);
    let (v, rest) = decode::<String>(&[0, 2, b'h', b'i', 7], 0, false);
    assert_eq!(v, Ok("hi".to_string()));
    assert_eq!(rest, vec![7]);
    let (v, _) = decode::<String>(&[3, b'h', b'i'], 0, true);
    assert_eq!(v, Ok("hi".to_string()));
    let e = "é".to_string();
    assert_eq!(encode(&e, 0, false), vec![0, 2, 0xc3, 0xa9]);
    assert_eq!(decode::<String>(&[0, 2, 0xc3, 0xa9], 0, false).0, Ok(e));
}

#[test]
fn string_errors() {
    assert_eq!(decode::<String>(&[0, 5, b'a'], 0, false).0, Err(Error::TruncatedInput));
    assert_eq!(decode::<String>(&[0, 2, 0xff, 0xfe], 0, false).0, Err(Error::InvalidEncoding));
    assert_eq!(decode::<String>(&[0xff, 0xff], 0, false).0, Err(Error::InvalidEncoding));
    assert_eq!(decode::<String>(&[0], 0, true).0, Err(Error::InvalidEncoding));
    assert_eq!(decode::<String>(&[0], 0, false).0, Err(Error::TruncatedInput));
}

#[test]
fn nullable_strings() {
    assert_eq!(encode(&None::<String>, 0, false), vec![0xff, 0xff]);
    assert_eq!(encode(&None::<String>, 0, true), vec![0]);
    assert_eq!(encode(&Some("x".to_string()), 0, true), vec![2, b'x']);
    assert_eq!(decode::<Option<String>>(&[0xff, 0xff, 1], 0, false), (Ok(None), vec![1]));
    assert_eq!(decode::<Option<String>>(&[0], 0, true).0, Ok(None));
    assert_eq!(decode::<Option<String>>(&[0, 1, b'y'], 0, false).0, Ok(Some("y".to_string())));
}

#[test]
fn byte_blobs() {
    let b = Bytes::from(vec![1u8, 2]);
    assert_eq!(encode(&b, 0, false), vec![0, 0, 0, 2, 1, 2]);
    assert_eq!(encode(&b, 0, true), vec![3, 1, 2]);
    assert_eq!(decode::<Bytes>(&[0, 0, 0, 1, 9, 8], 0, false), (Ok(Bytes::from(vec![9u8])), vec![8]));
    assert_eq!(decode::<Bytes>(&[0xff, 0xff, 0xff, 0xff], 0, false).0, Err(Error::InvalidEncoding));
    assert_eq!(decode::<Bytes>(&[4, 1], 0, true).0, Err(Error::TruncatedInput));
}

#[test]
fn varint_encodings() {
    assert_eq!(encode(&uvint(0), 0, true), vec![0]);
    assert_eq!(encode(&uvint(127), 0, true), vec![0x7f]);
    assert_eq!(encode(&uvint(128), 0, true), vec![0x80, 0x01]);
    assert_eq!(encode(&uvint(300), 0, false), vec![0xac, 0x02]);
    assert_eq!(encode(&uvint(16383), 0, true).len(), 2);
    assert_eq!(encode(&uvint(16384), 0, true).len(), 3);
    let (v, rest) = decode::<uvint>(&[0xac, 0x02, 5], 0, true);
    assert_eq!(v.map(|u| u.value()), Ok(300));
    assert_eq!(rest, vec![5]);
}

#[test]
fn varint_round_trip_and_length() {
    for n in [0usize, 1, 127, 128, 255, 300, 16383, 16384, 1 << 21, usize::MAX] {
        let bytes = encode(&uvint(n), 0, true);
        let bits = (usize::BITS - n.leading_zeros()) as usize;
        let expected_len = if n == 0 { 1 } else { (bits + 6) / 7 };
        assert_eq!(bytes.len(), expected_len);
        let (v, rest) = decode::<uvint>(&bytes, 0, true);
        assert_eq!(v.map(|u| u.value()), Ok(n));
        assert!(rest.is_empty());
    }
}

#[test]
fn varint_errors() {
    assert_eq!(decode::<uvint>(&[0x80], 0, true).0.map(|u| u.value()), Err(Error::TruncatedInput));
    assert_eq!(decode::<uvint>(&[], 0, true).0.map(|u| u.value()), Err(Error::TruncatedInput));
    let mut wide = vec![0xffu8; 10];
    wide.push(0x01);
    assert_eq!(decode::<uvint>(&wide, 0, true).0.map(|u| u.value()), Err(Error::InvalidEncoding));
}

#[test]
fn version_gate_since_three() {
    let field: Versioned<i32, 3> = Versioned(None);
    for v in 0..3 {
        assert_eq!(encode(&field, v, false), Vec::<u8>::new());
        assert_eq!(encode(&field, v, true), Vec::<u8>::new());
    }
    let present: Versioned<i32, 3> = Versioned(Some(7));
    assert_eq!(encode(&present, 3, false), vec![0, 0, 0, 7]);
    assert_eq!(encode(&present, 4, false), encode(&7i32, 4, false));
    let (v, rest) = decode::<Versioned<i32, 3>>(&[1, 2, 3, 4], 2, false);
    assert_eq!(v.map(|f| f.0), Ok(None));
    assert_eq!(rest, vec![1, 2, 3, 4]);
    let (v, rest) = decode::<Versioned<i32, 3>>(&[0, 0, 0, 7, 1], 3, false);
    assert_eq!(v.map(|f| f.0), Ok(Some(7)));
    assert_eq!(rest, vec![1]);
}

#[test]
fn version_gate_with_upper_bound() {
    let f: VersionedRange<i16, 2, 4> = VersionedRange(Some(1));
    assert_eq!(encode(&f, 2, false), vec![0, 1]);
    assert_eq!(encode(&f, 4, false), vec![0, 1]);
    let absent: VersionedRange<i16, 2, 4> = VersionedRange(None);
    assert_eq!(encode(&absent, 5, false), Vec::<u8>::new());
    assert_eq!(decode::<VersionedRange<i16, 2, 4>>(&[0, 1], 5, false).0.map(|f| f.0), Ok(None));
    assert_eq!(decode::<VersionedRange<i16, 2, 4>>(&[0, 1], 1, false).0.map(|f| f.0), Ok(None));
}

#[test]
fn arrays_in_both_modes() {
    let v = vec![1i32, 2];
    assert_eq!(encode(&v, 0, false), vec![0, 0, 0, 2, 0, 0, 0, 1, 0, 0, 0, 2]);
    assert_eq!(encode(&v, 0, true), vec![3, 0, 0, 0, 1, 0, 0, 0, 2]);
    let names = vec!["a".to_string()];
    assert_eq!(encode(&names, 0, true), vec![2, 2, b'a']);
    assert_eq!(decode::<Vec<i32>>(&[0, 0, 0, 1, 0, 0, 0, 5], 0, false).0, Ok(vec![5]));
    assert_eq!(decode::<Vec<i32>>(&[1], 0, true).0, Ok(Vec::<i32>::new()));
}

#[test]
fn array_errors() {
    assert_eq!(decode::<Vec<i32>>(&[0xff, 0xff, 0xff, 0xff], 0, false).0, Err(Error::InvalidEncoding));
    assert_eq!(decode::<Vec<i32>>(&[0], 0, true).0, Err(Error::InvalidEncoding));
    assert_eq!(decode::<Vec<i32>>(&[0, 0, 0, 2, 0, 0, 0, 1, 0], 0, false).0, Err(Error::TruncatedInput));
}

#[test]
fn pairs_follow_declaration_order() {
    let p = (1i16, "z".to_string());
    assert_eq!(encode(&p, 0, false), vec![0, 1, 0, 1, b'z']);
    assert_eq!(decode::<(i16, String)>(&[0, 1, 0, 1, b'z'], 0, false).0, Ok((1, "z".to_string())));
}

#[test]
fn empty_tag_buffer_is_one_zero_byte() {
    assert_eq!(encode(&TagBuffer::new(), 0, true), vec![0]);
    assert_eq!(encode(&TagBuffer::new(), 0, false), vec![0]);
}

#[test]
fn unknown_tag_is_kept_and_skipped() {
    // one entry: tag 99, five payload bytes; then an i16 of the message.
    let data = [1u8, 99, 5, 10, 11, 12, 13, 14, 0, 7];
    let mut r = WireRead::new(3, Bytes::copy_from_slice(&data));
    let tags = TagBuffer::from_wire_compact(&mut r).unwrap();
    assert_eq!(tags.len(), 1);
    assert_eq!(tags.fields[0].tag, 99);
    assert_eq!(tags.fields[0].data, Bytes::from(vec![10u8, 11, 12, 13, 14]));
    assert_eq!(i16::from_wire_compact(&mut r), Ok(7));
    assert_eq!(r.remaining(), 0);
}

#[test]
fn tag_buffer_round_trip() {
    let buf = TagBuffer {
        fields: vec![
            TaggedField { tag: 1, data: Bytes::from(vec![5u8]) },
            TaggedField { tag: 300, data: Bytes::new() },
        ],
    };
    let bytes = encode(&buf, 0, true);
    assert_eq!(bytes, vec![2, 1, 1, 5, 0xac, 0x02, 0]);
    let (v, rest) = decode::<TagBuffer>(&bytes, 0, true);
    let v = v.unwrap();
    assert!(rest.is_empty());
    assert_eq!(v.fields.len(), 2);
    assert_eq!(v.fields[1].tag, 300);
}

#[test]
fn truncated_tag_payload() {
    assert_eq!(decode::<TagBuffer>(&[1, 99, 5, 1, 2], 0, true).0.map(|t| t.len()), Err(Error::TruncatedInput));
}

#[test]
fn api_key_codes() {
    assert_eq!(encode(&ApiKey::Metadata, 0, false), vec![0, 3]);
    assert_eq!(encode(&ApiKey::ApiVersions, 0, false), vec![0, 18]);
    assert_eq!(encode(&ApiKey::AlterClientQuotas, 0, true), vec![0, 49]);
    assert_eq!(decode::<ApiKey>(&[0, 18], 0, false).0, Ok(ApiKey::ApiVersions));
    assert_eq!(decode::<ApiKey>(&[0, 50], 0, false).0, Err(Error::InvalidEncoding));
    assert_eq!(decode::<ApiKey>(&[0xff, 0xff], 0, false).0, Err(Error::InvalidEncoding));
    assert_eq!(ApiKey::from_code(11), Some(ApiKey::JoinGroup));
    assert_eq!(ApiKey::OffsetCommit.code(), 8);
    assert_eq!(ApiKey::default(), ApiKey::Produce);
}

#[test]
fn isolation_levels() {
    assert_eq!(encode(&IsolationLevel::ReadCommited, 0, false), vec![1]);
    assert_eq!(decode::<IsolationLevel>(&[0], 0, false).0, Ok(IsolationLevel::ReadUncommited));
    assert_eq!(decode::<IsolationLevel>(&[2], 0, false).0, Err(Error::InvalidEncoding));
}

#[test]
fn signed_varints_zigzag() {
    assert_eq!(encode(&vint(0), 0, false), vec![0]);
    assert_eq!(encode(&vint(-1), 0, false), vec![1]);
    assert_eq!(encode(&vint(1), 0, true), vec![2]);
    assert_eq!(encode(&vint(-64), 0, false), vec![127]);
    assert_eq!(encode(&vint(64), 0, false), vec![0x80, 0x01]);
    for n in [0isize, 1, -1, 300, -300, isize::MAX, isize::MIN] {
        let bytes = encode(&vint(n), 0, false);
        assert_eq!(decode::<vint>(&bytes, 0, false).0.map(|v| v.0), Ok(n));
    }
}

#[test]
fn heartbeat_response_by_version() {
    let at0 = [0u8, 5];
    let r = decode::<HeartbeatResponse>(&at0, 0, false).0.unwrap();
    assert_eq!((r.throttle_time_ms, r.error_code), (None, 5));
    let at4 = [0u8, 0, 0, 9, 0, 0, 0];
    let r = decode::<HeartbeatResponse>(&at4, 4, true).0.unwrap();
    assert_eq!((r.throttle_time_ms, r.error_code), (Some(9), 0));
    assert_eq!(r.tags.map(|t| t.len()), Some(0));
}

#[test]
fn gated_value_outside_its_versions_writes_nothing() {
    let supplied: Versioned<i32, 3> = Versioned(Some(7));
    assert_eq!(encode(&supplied, 2, false), Vec::<u8>::new());
    let retired: VersionedRange<i16, 2, 4> = VersionedRange(Some(1));
    assert_eq!(encode(&retired, 5, true), Vec::<u8>::new());
}
