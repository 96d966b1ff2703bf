use angi::archive::{Archiver, Extractor, ExtractorError};

#[test]
fn an_archive_gives_back_its_blobs() {
    let mut archiver = Archiver::new();
    archiver.archive(vec![1, 2, 3], "one");
    archiver.archive(vec![], "none");
    archiver.archive(vec![9, 8], "two");
    let bytes = archiver.get_bytes().unwrap();
    let manifest_len = (12 + 3) + (12 + 4) + (12 + 3);
    assert_eq!(bytes.len(), 16 + manifest_len + 5);
    assert_eq!(bytes[..4], *b"ANGI");
    assert_eq!(bytes[4..8], [0, 0, 0, 3]);
    assert_eq!(bytes[8..12], [0, 0, 0, manifest_len as u8]);
    assert_eq!(bytes[12..16], [0, 0, 0, 3]);
    assert_eq!(bytes[16..19], *b"one");
    assert_eq!(bytes[19..27], [0, 0, 0, 0, 0, 0, 0, 3]);
    assert_eq!(bytes[bytes.len() - 4..], (bytes.len() as u32).to_be_bytes());
    let extractor = Extractor::init_from_blob(bytes).unwrap();
    assert_eq!(extractor.extract_blob("one".to_string()), Some(vec![1, 2, 3]));
    assert_eq!(extractor.extract_blob("none".to_string()), Some(vec![]));
    assert_eq!(extractor.extract_blob("two".to_string()), Some(vec![9, 8]));
    assert_eq!(extractor.extract_blob("three".to_string()), None);
}

#[test]
fn a_name_used_twice_names_the_later_blob() {
    let mut archiver = Archiver::new();
    archiver.archive(vec![1], "a");
    archiver.archive(vec![2, 2], "a");
    let bytes = archiver.get_bytes().unwrap();
    assert_eq!(bytes[4..8], [0, 0, 0, 1]);
    let extractor = Extractor::init_from_blob(bytes).unwrap();
    assert_eq!(extractor.extract_blob("a".to_string()), Some(vec![2, 2]));
}

#[test]
fn broken_archives_are_errors() {
    assert!(matches!(Extractor::init_from_blob(vec![]), Err(ExtractorError::ReadByte { .. })));
    assert!(matches!(
        Extractor::init_from_blob(b"ANGJ\0\0\0\0\0\0\0\0\0\0\0\x10".to_vec()),
        Err(ExtractorError::UnmatchMagicNumber)
    ));
    assert!(matches!(
        Extractor::get_manifest_from_blob(b"ANGI\0\0\0\x01\0\0\0\x0d\0\0\0\x01a"),
        Err(ExtractorError::ReadByte { .. })
    ));
    let (manifest, size) = Extractor::get_manifest_from_blob(
        b"ANGI\0\0\0\x01\0\0\0\x0d\0\0\0\x01a\0\0\0\x05\0\0\0\x02",
    )
    .unwrap();
    assert_eq!(size, 13);
    assert_eq!(manifest.len(), 1);
    assert_eq!(manifest[0].0, "a");
    assert_eq!(manifest[0].1.offset, 5);
    assert_eq!(manifest[0].1.byte, 2);
    let mut archiver = Archiver::default();
    archiver.archive(vec![7; 4], "x");
    let mut bytes = archiver.get_bytes().unwrap();
    bytes.truncate(bytes.len() - 6);
    let extractor = Extractor::init_from_blob(bytes).unwrap();
    assert_eq!(extractor.extract_blob("x".to_string()), None);
}

#[test]
fn names_beyond_ascii_are_found_again() {
    let mut archiver = Archiver::new();
    archiver.archive(vec![1, 2], "caf\u{e9}");
    archiver.archive(vec![3], "plain");
    let bytes = archiver.get_bytes().unwrap();
    assert_eq!(bytes[12..16], [0, 0, 0, 5]);
    let extractor = Extractor::init_from_blob(bytes).unwrap();
    assert_eq!(extractor.extract_blob("caf\u{e9}".to_string()), Some(vec![1, 2]));
    assert_eq!(extractor.extract_blob("plain".to_string()), Some(vec![3]));
}
