use vsock_exporter::codec::{decode_record, encode_record};
use vsock_exporter::exporter::{CID_ANY, DEFAULT_CID, DEFAULT_PORT};
use vsock_exporter::record::{Attribute, SpanRecord};
use vsock_exporter::{BatchSession, Builder, Error, ExportStep, Exporter};

fn span(name: &[u8], span_id: u64) -> SpanRecord {
    SpanRecord {
        trace_id_hi: 1,
        trace_id_lo: 2,
        span_id,
        parent_span_id: 0,
        start_ns: 10,
        end_ns: 20,
        name: name.to_vec(),
        attributes: vec![Attribute { key: b"component".to_vec(), value: name.to_vec() }],
    }
}

/// Drives a session against an in-memory transport, as the embedding
/// program drives it against the socket: write each payload in full, in
/// order, under one lock-holding loop.
fn drive(session: &mut BatchSession, wire: &mut Vec<u8>) -> Result<(), Error> {
    loop {
        match session.next_step()? {
            ExportStep::Done => return Ok(()),
            ExportStep::Send(bytes) => {
                wire.extend_from_slice(&bytes);
                session.confirm_sent();
            }
        }
    }
}

#[test]
fn batch_of_three_arrives_in_order() {
    let exporter = Exporter::builder().init();
    let batch = vec![span(b"one", 1), span(b"two", 2), span(b"three", 3)];
    let mut wire: Vec<u8> = Vec::new();
    let mut session = exporter.begin_export(batch.clone());
    drive(&mut session, &mut wire).expect("export should succeed");

    // The wire is exactly the concatenation of the independent encodings.
    let mut expected: Vec<u8> = Vec::new();
    for r in &batch {
        expected.extend_from_slice(&encode_record(r).unwrap());
    }
    assert_eq!(wire, expected);

    // The receiver decodes exactly three records, in the original order.
    let mut pos = 0;
    let mut received = Vec::new();
    while pos < wire.len() {
        let (r, next) = decode_record(&wire, pos).expect("decodable record");
        received.push(r);
        pos = next;
    }
    assert_eq!(received, batch);
}

#[test]
fn empty_batch_succeeds_with_zero_bytes() {
    let exporter = Exporter::builder().init();
    let mut wire: Vec<u8> = Vec::new();
    let mut session = exporter.begin_export(vec![]);
    drive(&mut session, &mut wire).expect("empty export should succeed");
    assert_eq!(wire.len(), 0);
}

#[test]
fn write_failure_returns_io_error() {
    let exporter = Exporter::builder().init();
    let mut session = exporter.begin_export(vec![span(b"one", 1)]);
    let step = session.next_step().expect("record should encode");
    assert!(matches!(step, ExportStep::Send(_)));
    // The transport refuses the write; the batch is abandoned.
    let e = session.fail_io("broken pipe".to_string());
    assert_eq!(e, Error::IOError("broken pipe".to_string()));
}

#[test]
fn encoding_failure_abandons_the_rest_of_the_batch() {
    let exporter = Exporter::builder().init();
    let bad = SpanRecord { name: vec![b'x'; 0x10000], ..span(b"bad", 2) };
    let batch = vec![span(b"good", 1), bad, span(b"never reached", 3)];
    let mut wire: Vec<u8> = Vec::new();
    let mut session = exporter.begin_export(batch.clone());
    let e = drive(&mut session, &mut wire).expect_err("second record must fail");
    assert!(matches!(e, Error::SerialisationError(_)));
    // The first record's bytes are already on the wire, and nothing more.
    assert_eq!(wire, encode_record(&batch[0]).unwrap());
}

#[test]
fn encode_batch_is_concatenation_in_order() {
    let batch = vec![span(b"one", 1), span(b"two", 2), span(b"three", 3)];
    let wire = vsock_exporter::exporter::encode_batch(batch.clone()).expect("batch encodes");
    let mut expected: Vec<u8> = Vec::new();
    for r in &batch {
        expected.extend_from_slice(&encode_record(r).unwrap());
    }
    assert_eq!(wire, expected);
}

#[test]
fn encode_batch_fails_on_any_bad_record() {
    let bad = SpanRecord { name: vec![b'x'; 0x10000], ..span(b"bad", 2) };
    let e = vsock_exporter::exporter::encode_batch(vec![span(b"good", 1), bad])
        .expect_err("batch with an oversized record must fail");
    assert!(matches!(e, Error::SerialisationError(_)));
}

#[test]
fn builder_defaults() {
    let b = Exporter::builder();
    assert_eq!(b.cid, DEFAULT_CID);
    assert_eq!(b.port, DEFAULT_PORT);
    assert_eq!(DEFAULT_CID, 2);
    assert_eq!(DEFAULT_PORT, 10240);
    let b2 = Builder::default();
    assert_eq!(b2.cid, DEFAULT_CID);
    assert_eq!(b2.port, DEFAULT_PORT);
}

#[test]
fn builder_options_are_kept() {
    let e = Exporter::builder().with_cid(77).with_port(8888).init();
    assert_eq!(e.cid, 77);
    assert_eq!(e.port, 8888);
    assert!(e.write_open);
}

#[test]
fn cid_label_of_wildcard_is_any() {
    let e = Exporter::builder().with_cid(CID_ANY).init();
    assert_eq!(e.cid_label(), b"any".to_vec());
}

#[test]
fn cid_label_is_decimal() {
    assert_eq!(Exporter::builder().with_cid(0).init().cid_label(), b"0".to_vec());
    assert_eq!(Exporter::builder().init().cid_label(), b"2".to_vec());
    assert_eq!(Exporter::builder().with_cid(10240).init().cid_label(), b"10240".to_vec());
    assert_eq!(
        Exporter::builder().with_cid(u32::MAX - 1).init().cid_label(),
        b"4294967294".to_vec()
    );
}

#[test]
fn shutdown_is_tolerated_repeatedly() {
    let mut e = Exporter::builder().init();
    e.shutdown();
    assert!(!e.write_open);
    // A second shutdown of an already half-closed exporter must not panic.
    e.shutdown();
    assert!(!e.write_open);
}

#[test]
fn error_reports_exporter_name_and_description() {
    let e = Error::ConnectionError("lock poisoned".to_string());
    assert_eq!(e.exporter_name(), "vsock-exporter");
    assert_eq!(e.description(), "lock poisoned".to_string());
}
