use pgcapture::errors::CaptureError;
use pgcapture::scanner::{
    find_label_line, find_wal_label, parse_octal, parse_size, parse_header, HeaderKind,
    LabelScanner, ScanStep,
};
use pgcapture::tee::Splitter;

fn tar_archive(entries: &[(&str, &[u8])]) -> Vec<u8> {
    let mut builder = tar::Builder::new(Vec::new());
    for (name, content) in entries {
        let mut header = tar::Header::new_ustar();
        header.set_path(name).unwrap();
        header.set_size(content.len() as u64);
        header.set_mode(0o644);
        header.set_cksum();
        builder.append(&header, *content).unwrap();
    }
    builder.into_inner().unwrap()
}

fn scan_archive(archive: &[u8], chunk_size: usize) -> Result<Vec<u8>, CaptureError> {
    let (mut splitter, mut rx) = Splitter::new();
    for chunk in archive.chunks(chunk_size) {
        splitter.forward(&chunk.to_vec());
    }
    drop(splitter);
    find_wal_label(&mut rx, usize::MAX)
}

const LABEL_CONTENT: &[u8] = b"START WAL LOCATION: 0/3000028 (file 000000010000000000000003)\n\
CHECKPOINT LOCATION: 0/3000060\nBACKUP METHOD: streamed\n";

#[test]
fn scanner_finds_wal_label() {
    let archive = tar_archive(&[
        ("backup_label", LABEL_CONTENT),
        ("base/1234", &[0xaau8; 2000]),
    ]);
    let label = scan_archive(&archive, 512).unwrap();
    assert_eq!(label, b"000000010000000000000003".to_vec());
}

#[test]
fn scanner_finds_label_with_tiny_and_large_chunks() {
    let archive = tar_archive(&[
        ("base/before", &[7u8; 700]),
        ("backup_label", LABEL_CONTENT),
    ]);
    for chunk_size in [1, 7, 512, 8192] {
        let label = scan_archive(&archive, chunk_size).unwrap();
        assert_eq!(label, b"000000010000000000000003".to_vec());
    }
}

#[test]
fn scanner_fails_without_sentinel_entry() {
    let archive = tar_archive(&[("base/1", &[1u8; 100]), ("base/2", &[2u8; 1300])]);
    assert_eq!(
        scan_archive(&archive, 512).unwrap_err(),
        CaptureError::LabelNotFound
    );
}

#[test]
fn scanner_fails_on_truncated_stream() {
    let archive = tar_archive(&[("base/1", &[1u8; 4096])]);
    let truncated = &archive[..600];
    assert_eq!(
        scan_archive(truncated, 128).unwrap_err(),
        CaptureError::LabelNotFound
    );
}

#[test]
fn scanner_fails_on_empty_stream() {
    assert_eq!(
        scan_archive(&[], 512).unwrap_err(),
        CaptureError::LabelNotFound
    );
}

#[test]
fn scanner_fails_when_sentinel_has_no_matching_line() {
    let archive = tar_archive(&[("backup_label", b"NOTHING USEFUL HERE\n".as_slice())]);
    assert_eq!(
        scan_archive(&archive, 512).unwrap_err(),
        CaptureError::LabelNotFound
    );
}

#[test]
fn scanner_reports_malformed_header() {
    let mut archive = tar_archive(&[("backup_label", LABEL_CONTENT)]);
    // Corrupt the octal size field of the first header.
    archive[124] = b'q';
    assert_eq!(
        scan_archive(&archive, 512).unwrap_err(),
        CaptureError::MalformedArchive
    );
}

#[test]
fn label_line_extraction_is_exact() {
    let content = b"IGNORED LINE\nSTART WAL LOCATION: 0/3000028 (file 000000010000000000000003)\n".to_vec();
    assert_eq!(
        find_label_line(&content).unwrap(),
        b"000000010000000000000003".to_vec()
    );
    assert!(find_label_line(&b"no marker at all\n".to_vec()).is_none());
    assert!(find_label_line(&b"START WAL LOCATION: without token\n".to_vec()).is_none());
    // A two-character segment trims down to the empty label.
    assert_eq!(
        find_label_line(&b"START WAL LOCATION: (file )".to_vec()).unwrap(),
        Vec::<u8>::new()
    );
    // Too short to trim one leading and one trailing character.
    assert!(find_label_line(&b"START WAL LOCATION: (file)".to_vec()).is_none());
}

#[test]
fn label_line_handles_crlf() {
    let content = b"START WAL LOCATION: 0/3000028 (file 000000010000000000000003)\r\nrest\n".to_vec();
    assert_eq!(
        find_label_line(&content).unwrap(),
        b"000000010000000000000003".to_vec()
    );
}

#[test]
fn octal_size_field_parsing() {
    let mut field = b"00000000644\0".to_vec();
    assert_eq!(parse_octal(&field).unwrap(), 0o644);
    field = b"   7777 \0\0\0\0".to_vec();
    assert_eq!(parse_octal(&field).unwrap(), 0o7777);
    assert!(parse_octal(&b"            ".to_vec()).is_none());
    assert!(parse_octal(&b"00000000q44\0".to_vec()).is_none());
    assert!(parse_octal(&b"0000006440x0".to_vec()).is_none());
}

#[test]
fn base256_size_field_parsing() {
    // Marker bit set: the last eight bytes are the value, big-endian.
    let mut field = vec![0x80u8, 0, 0, 0, 0, 0, 0, 0, 0, 0, 1, 0];
    assert_eq!(parse_size(&field).unwrap(), 256);
    field = vec![0x80u8, 0, 0, 0, 0, 0, 0, 0x02, 0x40, 0, 0, 0];
    assert_eq!(parse_size(&field).unwrap(), 0x0240000000);
    // Without the marker bit the octal reading applies.
    assert_eq!(parse_size(&b"00000000644\0".to_vec()).unwrap(), 0o644);
    assert!(parse_size(&b"00000000q44\0".to_vec()).is_none());
}

#[test]
fn sentinel_requires_empty_path_prefix() {
    // A hand-built header whose name field says backup_label but whose
    // ustar prefix field is non-empty names a different path.
    let mut hdr = vec![0u8; 512];
    hdr[..12].copy_from_slice(b"backup_label");
    hdr[124..136].copy_from_slice(b"00000000000\0");
    assert!(matches!(
        parse_header(&hdr),
        HeaderKind::Sentinel { size: 0 }
    ));
    hdr[345] = b'x';
    assert!(matches!(parse_header(&hdr), HeaderKind::Other { size: 0 }));
}

#[test]
fn scanner_steps_report_progress() {
    let archive = tar_archive(&[("backup_label", LABEL_CONTENT)]);
    let mut sc = LabelScanner::new();
    // Half a header is not enough to decide anything.
    let first = archive[..256].to_vec();
    assert!(matches!(sc.feed(&first), ScanStep::NeedMore));
    let rest = archive[256..].to_vec();
    match sc.feed(&rest) {
        ScanStep::Found(l) => assert_eq!(l, b"000000010000000000000003".to_vec()),
        _ => panic!("expected the label"),
    }
}

#[test]
fn scanner_sees_end_of_archive_marker() {
    let archive = tar_archive(&[("base/only", &[3u8; 10])]);
    let mut sc = LabelScanner::new();
    match sc.feed(&archive.to_vec()) {
        ScanStep::EndOfArchive => {},
        _ => panic!("expected the end-of-archive marker"),
    }
}
