use abrasive::cache_io::{CacheIoError, CacheRead, CacheWrite};
use abrasive::daemon::artifact_payload;
use std::io::{Cursor, Write};

fn entry_of(objects: &[(&str, &[u8], Option<u32>)]) -> Vec<u8> {
    let mut w = CacheWrite::new();
    for (name, data, mode) in objects {
        w.put_object(name, data, *mode, 3).expect("put_object");
    }
    w.finish().expect("finish")
}

#[test]
fn stored_objects_read_back() {
    let bytes = entry_of(&[("libfoo.rlib", b"rlib bytes rlib bytes rlib bytes", Some(0o755)), ("foo.d", b"", None)]);
    let entry = CacheRead::from(bytes).expect("the entry opens");
    let (data, mode) = entry.get_object("libfoo.rlib").expect("present");
    assert_eq!(data, b"rlib bytes rlib bytes rlib bytes");
    assert_eq!(mode, Some(0o100755));
    let (data, mode) = entry.get_object("foo.d").expect("present");
    assert!(data.is_empty());
    assert_eq!(mode, Some(0o100644));
}

#[test]
fn members_hold_zstd_frames_declared_stored() {
    let payload = vec![7u8; 4096];
    let bytes = entry_of(&[("big", &payload, None)]);
    let mut z = zip::ZipArchive::new(Cursor::new(bytes)).unwrap();
    let f = z.by_name("big").unwrap();
    assert_eq!(f.compression(), zip::CompressionMethod::Stored);
    let raw: Vec<u8> = std::io::Read::bytes(f).map(|b| b.unwrap()).collect();
    assert!(raw.len() < payload.len());
    assert_eq!(zstd::decode_all(&raw[..]).unwrap(), payload);
}

#[test]
fn missing_object_is_a_decompression_failure() {
    let entry = CacheRead::from(entry_of(&[("a", b"x", None)])).unwrap();
    assert!(matches!(entry.get_object("b"), Err(CacheIoError::DecompressionFailure)));
}

#[test]
fn member_that_is_no_zstd_frame_is_a_decompression_failure() {
    let mut w = zip::ZipWriter::new(Cursor::new(Vec::new()));
    let opts = zip::write::FileOptions::default().compression_method(zip::CompressionMethod::Stored);
    w.start_file("plain", opts).unwrap();
    w.write_all(b"not a zstd frame").unwrap();
    let bytes = w.finish().unwrap().into_inner();
    let entry = CacheRead::from(bytes).unwrap();
    assert!(matches!(entry.get_object("plain"), Err(CacheIoError::DecompressionFailure)));
}

#[test]
fn bytes_that_are_no_archive_are_a_zip_error() {
    assert!(matches!(CacheRead::from(b"not a zip archive".to_vec()), Err(CacheIoError::Zip(_))));
    assert!(matches!(CacheRead::from(Vec::new()), Err(CacheIoError::Zip(_))));
}

#[test]
fn artifact_is_named_by_file_name_and_compressed() {
    let contents = vec![0xABu8; 10_000];
    let (name, frame) = artifact_payload("/w/target/debug/app", &contents).unwrap();
    assert_eq!(name, "app");
    assert_ne!(frame, contents);
    assert_eq!(zstd::decode_all(&frame[..]).unwrap(), contents);
    assert_eq!(frame, zstd::encode_all(&contents[..], 3).unwrap());
}

#[test]
fn artifact_without_file_name_is_called_artifact() {
    let (name, _) = artifact_payload("/", b"x").unwrap();
    assert_eq!(name, "artifact");
    let (name, _) = artifact_payload("", b"x").unwrap();
    assert_eq!(name, "artifact");
}

#[test]
fn later_object_of_a_name_is_read_back() {
    let bytes = entry_of(&[("a", b"first", Some(0o600)), ("b", b"other", None), ("a", b"second", Some(0o700))]);
    let entry = CacheRead::from(bytes).unwrap();
    assert_eq!(entry.get_object("a").unwrap(), (b"second".to_vec(), Some(0o100700)));
    assert_eq!(entry.get_object("b").unwrap(), (b"other".to_vec(), Some(0o100644)));
}

#[test]
fn recorded_mode_keeps_only_permission_bits() {
    let entry = CacheRead::from(entry_of(&[("x", b"x", Some(0o104755))])).unwrap();
    assert_eq!(entry.get_object("x").unwrap().1, Some(0o100755));
}
