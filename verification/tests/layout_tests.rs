use std::io::Write;

use bxes::archive::{compress_to_archive_bytes, read_bxes_from_archive_bytes, write_bxes_to_archive_bytes};
use bxes::errors::BxesReadError;
use bxes::models::{
    BxesEvent, BxesEventLog, BxesTraceVariant, BxesValue, Lifecycle, StandardLifecycle,
};
use bxes::reader::{decode_bxes, decode_bxes_split};
use bxes::writer::{encode_bxes, encode_bxes_split};

fn sample_log() -> BxesEventLog {
    BxesEventLog {
        version: 2,
        metadata: Some(vec![(
            BxesValue::String("source".to_string()),
            BxesValue::String("generator".to_string()),
        )]),
        variants: vec![
            BxesTraceVariant {
                traces_count: 4,
                events: vec![BxesEvent {
                    name: BxesValue::String("start".to_string()),
                    timestamp: 100,
                    lifecycle: Lifecycle::Standard(StandardLifecycle::Start),
                    attributes: Some(vec![(
                        BxesValue::String("actor".to_string()),
                        BxesValue::String("alice".to_string()),
                    )]),
                }],
            },
            BxesTraceVariant {
                traces_count: 1,
                events: vec![BxesEvent {
                    name: BxesValue::String("stop".to_string()),
                    timestamp: 200,
                    lifecycle: Lifecycle::Standard(StandardLifecycle::Complete),
                    attributes: None,
                }],
            },
        ],
    }
}

#[test]
fn split_layout_round_trips() {
    let log = sample_log();
    let (values_file, kv_file, metadata_file, variants_file) = encode_bxes_split(&log);
    let decoded =
        decode_bxes_split(&values_file, &kv_file, &metadata_file, &variants_file).unwrap();
    assert!(decoded == log);
}

#[test]
fn split_layout_rejects_version_mismatch() {
    let log = sample_log();
    let (values_file, mut kv_file, metadata_file, variants_file) = encode_bxes_split(&log);
    kv_file[0] = kv_file[0].wrapping_add(1);
    assert!(matches!(
        decode_bxes_split(&values_file, &kv_file, &metadata_file, &variants_file),
        Err(BxesReadError::VersionsMismatchError(_))
    ));
}

#[test]
fn archive_round_trip_matches_raw_stream() {
    let log = sample_log();
    let archive = write_bxes_to_archive_bytes(&log, "log.bxes").unwrap();
    let from_archive = read_bxes_from_archive_bytes(&archive).unwrap();
    let raw = decode_bxes(&encode_bxes(&log)).unwrap();
    assert!(from_archive == log);
    assert!(from_archive == raw);
}

#[test]
fn archive_of_stream_matches_archive_of_log() {
    let log = sample_log();
    let from_log = write_bxes_to_archive_bytes(&log, "log.bxes").unwrap();
    let from_stream = compress_to_archive_bytes(&encode_bxes(&log), "log.bxes").unwrap();
    assert_eq!(from_log, from_stream);
}

#[test]
fn archive_bytes_differ_from_raw_stream() {
    let log = sample_log();
    let archive = write_bxes_to_archive_bytes(&log, "log.bxes").unwrap();
    let raw = encode_bxes(&log);
    assert_ne!(archive, raw);
}

#[test]
fn garbage_archive_is_rejected() {
    let garbage: Vec<u8> = vec![1, 2, 3, 4, 5, 6, 7, 8];
    assert!(matches!(
        read_bxes_from_archive_bytes(&garbage),
        Err(BxesReadError::InvalidArchive(_))
    ));
}

#[test]
fn archive_with_two_entries_is_rejected() {
    let log = sample_log();
    let payload = encode_bxes(&log);
    let cursor = std::io::Cursor::new(Vec::new());
    let mut writer = zip::ZipWriter::new(cursor);
    let options = zip::write::SimpleFileOptions::default()
        .compression_method(zip::CompressionMethod::Deflated);
    writer.start_file("one", options).unwrap();
    writer.write_all(&payload).unwrap();
    writer.start_file("two", options).unwrap();
    writer.write_all(&payload).unwrap();
    let archive = writer.finish().unwrap().into_inner();
    assert!(matches!(
        read_bxes_from_archive_bytes(&archive),
        Err(BxesReadError::TooManyFilesInArchive)
    ));
}
