use pgcapture::capture::{artifact_file_name, validate_wal_label, CaptureAssembler};
use pgcapture::errors::CaptureError;
use pgcapture::tee::Splitter;

#[test]
fn derived_reader_sees_identical_stream() {
    let (mut splitter, mut rx) = Splitter::new();
    let chunks: Vec<Vec<u8>> = vec![
        b"first ".to_vec(),
        b"second ".to_vec(),
        vec![],
        b"third".to_vec(),
    ];
    let mut expected: Vec<u8> = Vec::new();
    for c in &chunks {
        splitter.forward(c);
        expected.extend_from_slice(c);
    }
    drop(splitter);
    let mut got: Vec<u8> = Vec::new();
    loop {
        let part = rx.read(4);
        if part.is_empty() {
            // The empty forwarded chunk surfaces as one empty read, as
            // an end-of-stream signal would; pull once more to drain.
            let more = rx.read(4);
            if more.is_empty() {
                break;
            }
            got.extend_from_slice(&more);
            continue;
        }
        got.extend_from_slice(&part);
    }
    assert_eq!(got, expected);
}

#[test]
fn derived_reader_respects_chunk_boundaries_and_order() {
    let (mut splitter, mut rx) = Splitter::new();
    splitter.forward(&b"abcdefgh".to_vec());
    drop(splitter);
    let a = rx.read(3);
    let b = rx.read(3);
    let c = rx.read(3);
    let d = rx.read(3);
    assert_eq!(a, b"abc".to_vec());
    assert_eq!(b, b"def".to_vec());
    assert_eq!(c, b"gh".to_vec());
    assert!(d.is_empty());
}

#[test]
fn pass_through_survives_departed_consumer() {
    let (mut splitter, rx) = Splitter::new();
    splitter.forward(&b"before".to_vec());
    drop(rx);
    // The derived consumer is gone; forwarding must keep working
    // silently for the remainder of the stream.
    for _ in 0..100 {
        splitter.forward(&b"after the consumer left".to_vec());
    }
}

#[test]
fn assembler_buffers_then_hands_over_seamlessly() {
    let mut a = CaptureAssembler::new();
    a.note_pending_read(&b"early ".to_vec()).unwrap();
    a.note_pending_read(&b"bytes".to_vec()).unwrap();
    let prefix = a.take_buffered();
    assert_eq!(prefix, b"early bytes".to_vec());
    a.pass_live_chunk(&b" and the live tail".to_vec());
}

#[test]
fn assembler_fails_when_producer_ends_early() {
    let mut a = CaptureAssembler::new();
    a.note_pending_read(&b"something".to_vec()).unwrap();
    assert_eq!(
        a.note_pending_read(&Vec::new()).unwrap_err(),
        CaptureError::ProducerEndedEarly
    );
}

#[test]
fn wal_label_must_be_hex() {
    assert!(validate_wal_label(&b"000000010000000000000003".to_vec()).is_ok());
    assert!(hex::decode("000000010000000000000003").is_ok());
    assert_eq!(
        validate_wal_label(&b"not-hex!".to_vec()).unwrap_err(),
        CaptureError::MalformedLabel
    );
    assert_eq!(
        validate_wal_label(&b"abc".to_vec()).unwrap_err(),
        CaptureError::MalformedLabel
    );
}

#[test]
fn artifact_name_is_label_with_suffix() {
    assert_eq!(
        artifact_file_name(&b"nightly".to_vec()),
        b"nightly.tar.zst".to_vec()
    );
}

#[test]
fn same_label_targets_same_artifact() {
    // The artifact name is a function of the label alone: a second
    // capture with the same label targets the same file, and the
    // explicit conflict policy is to overwrite it.
    let first = artifact_file_name(&b"weekly".to_vec());
    let second = artifact_file_name(&b"weekly".to_vec());
    assert_eq!(first, second);
    assert_ne!(first, artifact_file_name(&b"weekly2".to_vec()));
}
