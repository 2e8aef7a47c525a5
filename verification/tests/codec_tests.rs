use vsock_exporter::record::{Attribute, SpanRecord};
use vsock_exporter::codec::{decode_record, encode_record};
use vsock_exporter::Error;

fn attr(key: &[u8], value: &[u8]) -> Attribute {
    Attribute { key: key.to_vec(), value: value.to_vec() }
}

fn record(name: &[u8], attributes: Vec<Attribute>) -> SpanRecord {
    SpanRecord {
        trace_id_hi: 0x0102_0304_0506_0708,
        trace_id_lo: 0x1112_1314_1516_1718,
        span_id: 42,
        parent_span_id: 7,
        start_ns: 1_000_000,
        end_ns: 2_000_000,
        name: name.to_vec(),
        attributes,
    }
}

fn encode_ok(r: &SpanRecord) -> Vec<u8> {
    encode_record(r).expect("record should encode")
}

#[test]
fn round_trip_empty_attributes() {
    let r = record(b"op", vec![]);
    let bytes = encode_ok(&r);
    let (decoded, end) = decode_record(&bytes, 0).expect("should decode");
    assert_eq!(decoded, r);
    assert_eq!(end, bytes.len());
}

#[test]
fn round_trip_with_attributes() {
    let r = record(
        b"request",
        vec![attr(b"method", b"GET"), attr(b"", b"empty key"), attr(b"empty value", b"")],
    );
    let bytes = encode_ok(&r);
    let (decoded, end) = decode_record(&bytes, 0).expect("should decode");
    assert_eq!(decoded, r);
    assert_eq!(end, bytes.len());
}

#[test]
fn round_trip_zero_duration_span() {
    let mut r = record(b"instant", vec![attr(b"k", b"v")]);
    r.start_ns = 123_456_789;
    r.end_ns = 123_456_789;
    let bytes = encode_ok(&r);
    let (decoded, _) = decode_record(&bytes, 0).expect("should decode");
    assert_eq!(decoded, r);
}

#[test]
fn round_trip_empty_name_and_zero_ids() {
    let r = SpanRecord {
        trace_id_hi: 0,
        trace_id_lo: 0,
        span_id: 0,
        parent_span_id: 0,
        start_ns: 0,
        end_ns: 0,
        name: vec![],
        attributes: vec![],
    };
    let bytes = encode_ok(&r);
    assert_eq!(bytes.len(), 52);
    let (decoded, end) = decode_record(&bytes, 0).expect("should decode");
    assert_eq!(decoded, r);
    assert_eq!(end, 52);
}

#[test]
fn round_trip_maximum_length_name() {
    let r = record(&vec![b'x'; 0xFFFF], vec![]);
    let bytes = encode_ok(&r);
    let (decoded, end) = decode_record(&bytes, 0).expect("should decode");
    assert_eq!(decoded, r);
    assert_eq!(end, bytes.len());
}

#[test]
fn round_trip_maximum_values() {
    let r = SpanRecord {
        trace_id_hi: u64::MAX,
        trace_id_lo: u64::MAX,
        span_id: u64::MAX,
        parent_span_id: u64::MAX,
        start_ns: u64::MAX,
        end_ns: u64::MAX,
        name: vec![0xFF; 3],
        attributes: vec![attr(&[0x00, 0xFF], &[0xFF, 0x00])],
    };
    let bytes = encode_ok(&r);
    let (decoded, _) = decode_record(&bytes, 0).expect("should decode");
    assert_eq!(decoded, r);
}

#[test]
fn oversized_name_is_serialisation_error() {
    let r = record(&vec![b'x'; 0x10000], vec![]);
    let e = encode_record(&r).expect_err("name of 65536 bytes must not encode");
    assert!(matches!(e, Error::SerialisationError(_)));
}

#[test]
fn oversized_attribute_value_is_serialisation_error() {
    let r = record(b"op", vec![attr(b"k", &vec![0u8; 0x10000])]);
    let e = encode_record(&r).expect_err("attribute value of 65536 bytes must not encode");
    assert!(matches!(e, Error::SerialisationError(_)));
}

#[test]
fn exact_bytes_of_a_small_record() {
    let r = SpanRecord {
        trace_id_hi: 0x0102,
        trace_id_lo: 3,
        span_id: 4,
        parent_span_id: 5,
        start_ns: 6,
        end_ns: 0x0100_0000_0000_0007,
        name: b"ab".to_vec(),
        attributes: vec![attr(b"k", b"vw")],
    };
    let bytes = encode_ok(&r);
    let mut expected: Vec<u8> = Vec::new();
    expected.extend_from_slice(&[0x02, 0x01, 0, 0, 0, 0, 0, 0]); // trace_id_hi
    expected.extend_from_slice(&[3, 0, 0, 0, 0, 0, 0, 0]); // trace_id_lo
    expected.extend_from_slice(&[4, 0, 0, 0, 0, 0, 0, 0]); // span_id
    expected.extend_from_slice(&[5, 0, 0, 0, 0, 0, 0, 0]); // parent_span_id
    expected.extend_from_slice(&[6, 0, 0, 0, 0, 0, 0, 0]); // start_ns
    expected.extend_from_slice(&[7, 0, 0, 0, 0, 0, 0, 0x01]); // end_ns
    expected.extend_from_slice(&[2, 0]); // name length
    expected.extend_from_slice(b"ab");
    expected.extend_from_slice(&[1, 0]); // attribute count
    expected.extend_from_slice(&[1, 0]); // key length
    expected.extend_from_slice(b"k");
    expected.extend_from_slice(&[2, 0]); // value length
    expected.extend_from_slice(b"vw");
    assert_eq!(bytes, expected);
}

#[test]
fn two_concatenated_records_decode_in_order() {
    let r1 = record(b"first", vec![attr(b"a", b"1")]);
    let r2 = record(b"second", vec![]);
    let mut stream = encode_ok(&r1);
    stream.extend_from_slice(&encode_ok(&r2));
    let (d1, p1) = decode_record(&stream, 0).expect("first record");
    let (d2, p2) = decode_record(&stream, p1).expect("second record");
    assert_eq!(d1, r1);
    assert_eq!(d2, r2);
    assert_eq!(p2, stream.len());
}

#[test]
fn decode_ignores_trailing_bytes() {
    let r = record(b"op", vec![]);
    let mut stream = encode_ok(&r);
    let end_of_record = stream.len();
    stream.extend_from_slice(b"garbage");
    let (decoded, end) = decode_record(&stream, 0).expect("should decode");
    assert_eq!(decoded, r);
    assert_eq!(end, end_of_record);
}

#[test]
fn truncated_stream_does_not_decode() {
    let r = record(b"operation", vec![attr(b"key", b"value")]);
    let bytes = encode_ok(&r);
    for cut in [0usize, 1, 8, 47, 51, bytes.len() - 1] {
        let truncated: Vec<u8> = bytes[..cut].to_vec();
        assert!(decode_record(&truncated, 0).is_none(), "cut at {cut} must not decode");
    }
}
