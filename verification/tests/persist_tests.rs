use pgcapture::persist::{
    chunk_round_trip, decompress_frame, mib_of, Persister, TrackedReader, TrackedWriter,
    CHUNK_SIZE, COMPRESSION_LEVEL,
};

#[test]
fn chunk_compression_round_trips() {
    let data: Vec<u8> = (0u32..50000).map(|i| (i % 251) as u8).collect();
    let back = chunk_round_trip(&data, COMPRESSION_LEVEL).unwrap();
    assert_eq!(back, data);
    let empty: Vec<u8> = Vec::new();
    assert_eq!(chunk_round_trip(&empty, COMPRESSION_LEVEL).unwrap(), empty);
}

#[test]
fn persisted_artifact_decompresses_to_the_stream() {
    let mut persister = Persister::new(COMPRESSION_LEVEL);
    let stream: Vec<u8> = (0u32..(3 * 1048576)).map(|i| (i % 13) as u8).collect();
    let mut artifact: Vec<u8> = Vec::new();
    for chunk in stream.chunks(CHUNK_SIZE.min(700000)) {
        let frame = persister.persist_chunk(&chunk.to_vec()).unwrap();
        artifact.extend_from_slice(&frame);
    }
    // The artifact is recoverable by the inverse decompression, both
    // through the library and through the compressor crate itself.
    let recovered = zstd::stream::decode_all(artifact.as_slice()).unwrap();
    assert_eq!(recovered, stream);
    // A single frame also recovers through the library's own path.
    let one = persister.persist_chunk(&b"tail".to_vec()).unwrap();
    assert_eq!(decompress_frame(&one).unwrap(), b"tail".to_vec());
}

#[test]
fn report_counts_match_stream_and_artifact_sizes() {
    let mut persister = Persister::new(COMPRESSION_LEVEL);
    let stream: Vec<u8> = vec![0u8; 8 * 1048576 + 3];
    let mut artifact_len: usize = 0;
    for chunk in stream.chunks(1048576) {
        let frame = persister.persist_chunk(&chunk.to_vec()).unwrap();
        artifact_len += frame.len();
    }
    let (processed_mib, written_mib) = persister.progress_mib();
    assert_eq!(processed_mib, 8);
    assert_eq!(written_mib, (artifact_len as u64) / 1048576);
}

#[test]
fn decompression_rejects_garbage() {
    let garbage = b"definitely not a compressed stream".to_vec();
    assert!(decompress_frame(&garbage).is_err());
}

#[test]
fn errors_render_descriptions() {
    assert_eq!(
        pgcapture::errors::CaptureError::LabelNotFound.describe(),
        "No backup label found"
    );
    assert_eq!(
        pgcapture::errors::ManifestDecodeError::TimestampOutOfRange.describe(),
        "timestamp out of range"
    );
}

#[test]
fn mib_conversion_is_exact() {
    assert_eq!(mib_of(0), 0);
    assert_eq!(mib_of(1048575), 0);
    assert_eq!(mib_of(1048576), 1);
    assert_eq!(mib_of(8 * 1048576 + 3), 8);
}

#[test]
fn byte_counters_accumulate() {
    let mut r = TrackedReader::new();
    r.record(4096);
    r.record(0);
    r.record(1);
    assert_eq!(r.total(), 4097);
    let mut w = TrackedWriter::new();
    w.record(123);
    w.record(877);
    assert_eq!(w.total(), 1000);
}
