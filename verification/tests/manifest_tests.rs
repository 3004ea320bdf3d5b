use pgcapture::errors::ManifestDecodeError;
use pgcapture::hexcode::{hex_decode, hex_encode};
use pgcapture::manifest::{check_timestamp, ChunkRef, Manifest, MAX_TIMESTAMP, MIN_TIMESTAMP};

#[test]
fn hex_encode_matches_hex_crate() {
    let data: Vec<u8> = vec![0x00, 0x01, 0x0f, 0x10, 0xab, 0xcd, 0xef, 0xff];
    let ours = hex_encode(&data);
    let theirs = hex::encode(&data);
    assert_eq!(String::from_utf8(ours).unwrap(), theirs);
}

#[test]
fn hex_decode_matches_hex_crate() {
    let text = b"00010f10abcdefff".to_vec();
    let ours = hex_decode(&text).unwrap();
    let theirs = hex::decode("00010f10abcdefff").unwrap();
    assert_eq!(ours, theirs);
}

#[test]
fn hex_decode_accepts_uppercase() {
    let text = b"ABCDEF01".to_vec();
    assert_eq!(hex_decode(&text).unwrap(), vec![0xab, 0xcd, 0xef, 0x01]);
}

#[test]
fn hex_decode_rejects_odd_length_and_bad_digits() {
    assert!(hex_decode(&b"abc".to_vec()).is_none());
    assert!(hex_decode(&b"zz".to_vec()).is_none());
    assert!(hex_decode(&b"0g".to_vec()).is_none());
}

#[test]
fn chunk_ref_round_trip() {
    let digest: Vec<u8> = (0u8..32).collect();
    let r = ChunkRef::new(digest.clone()).unwrap();
    let encoded = r.to_hex();
    let back = ChunkRef::from_hex(&encoded).unwrap();
    assert_eq!(back.0, digest);
    assert_eq!(back, r);
}

#[test]
fn chunk_ref_hex_matches_blake3() {
    let h = blake3::hash(b"some chunk of data");
    let r = ChunkRef::new(h.as_bytes().to_vec()).unwrap();
    let encoded = String::from_utf8(r.to_hex()).unwrap();
    assert_eq!(encoded, h.to_hex().to_string());
    let parsed = blake3::Hash::from_hex(&encoded).unwrap();
    assert_eq!(parsed, h);
}

#[test]
fn chunk_ref_rejects_wrong_length() {
    assert_eq!(
        ChunkRef::from_hex(&b"abcd".to_vec()).unwrap_err(),
        ManifestDecodeError::InvalidLength
    );
    assert_eq!(
        ChunkRef::new(vec![0u8; 31]).unwrap_err(),
        ManifestDecodeError::InvalidLength
    );
}

#[test]
fn chunk_ref_rejects_non_hex() {
    let bad = vec![b'g'; 64];
    assert_eq!(
        ChunkRef::from_hex(&bad).unwrap_err(),
        ManifestDecodeError::InvalidHex
    );
}

#[test]
fn timestamp_range_matches_time_crate() {
    assert!(check_timestamp(0).is_ok());
    assert!(check_timestamp(MIN_TIMESTAMP).is_ok());
    assert!(check_timestamp(MAX_TIMESTAMP).is_ok());
    assert_eq!(
        check_timestamp(MIN_TIMESTAMP - 1).unwrap_err(),
        ManifestDecodeError::TimestampOutOfRange
    );
    assert_eq!(
        check_timestamp(MAX_TIMESTAMP + 1).unwrap_err(),
        ManifestDecodeError::TimestampOutOfRange
    );
    assert!(time::OffsetDateTime::from_unix_timestamp(MIN_TIMESTAMP).is_ok());
    assert!(time::OffsetDateTime::from_unix_timestamp(MAX_TIMESTAMP).is_ok());
    assert!(time::OffsetDateTime::from_unix_timestamp(MIN_TIMESTAMP - 1).is_err());
    assert!(time::OffsetDateTime::from_unix_timestamp(MAX_TIMESTAMP + 1).is_err());
}

#[test]
fn manifest_creation_and_identity() {
    let m = Manifest::new(1700000000, b"nightly".to_vec());
    assert_eq!(m.id.len(), 16);
    assert_eq!(m.created_at, 1700000000);
    assert_eq!(m.label, b"nightly".to_vec());
    assert!(m.files.is_empty());
    assert!(m.small_blocks.is_empty());
    let m2 = Manifest::new(1700000000, b"nightly".to_vec());
    assert_ne!(m.id, m2.id);
    let parsed = uuid::Uuid::from_slice(&m.id).unwrap();
    assert_eq!(parsed.as_bytes().to_vec(), m.id);
}

#[test]
fn manifest_rejects_duplicate_paths() {
    let mut m = Manifest::new(0, b"dup".to_vec());
    let r = ChunkRef::new(vec![7u8; 32]).unwrap();
    let r2 = ChunkRef::new(vec![7u8; 32]).unwrap();
    assert!(m.add_file(b"base/1".to_vec(), vec![r]));
    assert!(!m.add_file(b"base/1".to_vec(), vec![]));
    assert_eq!(m.files.len(), 1);
    assert_eq!(m.files[0].1.len(), 1);
    assert!(m.add_small_blocks(b"base/1".to_vec(), vec![r2]));
    assert!(!m.add_small_blocks(b"base/1".to_vec(), vec![]));
    assert_eq!(m.small_blocks.len(), 1);
}
