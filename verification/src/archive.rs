//! The compressed-archive layout: a single-file stream stored in an
//! archive as one deflated entry. The archive codec itself is an outside
//! collaborator; this module wraps it and keeps the entry-count rule and
//! the stream codec verified.
use vstd::prelude::*;

use std::io::Read;
use std::io::Write;

use vstd::utf8::encode_utf8;

use crate::errors::{BxesReadError, BxesWriteError};
use crate::models::BxesEventLog;
use crate::reader::decode_bxes;
use crate::spec_format::{encodable, encode_log, wf_log};
use crate::writer::encode_bxes;

verus! {

/// The archive bytes produced for one entry name and one payload. The
/// writer below runs with a fixed compression method, level and timestamp,
/// so its output depends on the name and the payload alone.
pub uninterp spec fn zip_archive_of(name: Seq<char>, data: Seq<u8>) -> Seq<u8>;

/// Relies on `zip::ZipWriter`: builds an archive holding one entry named
/// `name` with contents `data`, deflated at level 8. Every varying input
/// is pinned: the timestamp is the default fixed date, the system marker
/// is set explicitly, permissions default to a constant, and the deflate
/// backend is pure code, so the archive is a function of the name and the
/// payload. Writing to an in-memory buffer, the only failures are a name
/// that does not fit the format's u16 name-length field and a payload
/// whose size crosses the format's u32 threshold: the writer checks the
/// uncompressed size during writes and the compressed size at close, and
/// deflate can expand incompressible input slightly. The success premise
/// therefore keeps the payload plus an expansion margin under the
/// threshold; the margin is far coarser than deflate's documented
/// worst-case bound (a few bytes per few kilobytes).
#[verifier::external_body]
fn zip_single_entry(name: &str, data: &Vec<u8>) -> (r: Result<Vec<u8>, ()>)
    ensures
        r matches Ok(a) ==> a@ == zip_archive_of(name@, data@),
        encode_utf8(name@).len() <= u16::MAX && data@.len() + data@.len() / 1000 + 1024
            <= u32::MAX ==> r is Ok,
{
    let cursor = std::io::Cursor::new(Vec::new());
    let mut writer = zip::ZipWriter::new(cursor);
    let options = zip::write::SimpleFileOptions::default().compression_method(
        zip::CompressionMethod::Deflated,
    ).compression_level(Some(8)).system(zip::System::Unix);
    if writer.start_file(name, options).is_err() {
        return Err(());
    }
    if writer.write_all(data).is_err() {
        return Err(());
    }
    match writer.finish() {
        Ok(c) => Ok(c.into_inner()),
        Err(_) => Err(()),
    }
}

/// What extraction must return: whenever the archive is one the writer
/// produced for some name and payload, extraction succeeds with one entry
/// holding exactly that payload.
pub open spec fn extraction_inverts(
    archive: Seq<u8>,
    r: Result<(usize, Vec<u8>), BxesReadError>,
) -> bool {
    forall|n: Seq<char>, d: Seq<u8>|
        archive == #[trigger] zip_archive_of(n, d) ==> (r matches Ok(p) && p.0 == 1 && p.1@ == d)
}

/// Relies on `zip::ZipArchive`: opens the archive and returns its entry
/// count together with the contents of its first entry. Reading an archive
/// written by `zip::ZipWriter` yields the entry that was written.
#[verifier::external_body]
fn zip_read_archive(archive: &Vec<u8>) -> (r: Result<(usize, Vec<u8>), BxesReadError>)
    ensures
        extraction_inverts(archive@, r),
{
    let cursor = std::io::Cursor::new(archive.as_slice());
    let mut ar = match zip::ZipArchive::new(cursor) {
        Ok(a) => a,
        Err(e) => return Err(BxesReadError::InvalidArchive(e.to_string())),
    };
    let count = ar.len();
    let mut entry = match ar.by_index(0) {
        Ok(f) => f,
        Err(_) => return Err(BxesReadError::FailedToExtractArchive),
    };
    let mut out = Vec::new();
    match entry.read_to_end(&mut out) {
        Ok(_) => Ok((count, out)),
        Err(_) => Err(BxesReadError::FailedToExtractArchive),
    }
}

/// Encode a log and wrap the stream in an archive as one deflated entry
/// carrying the given name. Success is owed whenever the entry name fits
/// the archive format's u16 name-length field and the encoded stream plus
/// a worst-case compression-expansion margin stays below the format's u32
/// size threshold.
pub fn write_bxes_to_archive_bytes(log: &BxesEventLog, name: &str) -> (r: Result<
    Vec<u8>,
    BxesWriteError,
>)
    requires
        encodable(log@),
    ensures
        r matches Ok(a) ==> a@ == zip_archive_of(name@, encode_log(log@)),
        encode_utf8(name@).len() <= u16::MAX && encode_log(log@).len() + encode_log(
            log@,
        ).len() / 1000 + 1024 <= u32::MAX ==> r is Ok,
{
    let encoded = encode_bxes(log);
    match zip_single_entry(name, &encoded) {
        Ok(a) => Ok(a),
        Err(_) => Err(BxesWriteError::FailedToCreateArchive),
    }
}

/// Wrap an already-encoded stream in an archive as one deflated entry
/// carrying the given name. Success is owed under the same name and size
/// bounds as for encoding a log directly.
pub fn compress_to_archive_bytes(data: &Vec<u8>, name: &str) -> (r: Result<
    Vec<u8>,
    BxesWriteError,
>)
    ensures
        r matches Ok(a) ==> a@ == zip_archive_of(name@, data@),
        encode_utf8(name@).len() <= u16::MAX && data@.len() + data@.len() / 1000 + 1024
            <= u32::MAX ==> r is Ok,
{
    match zip_single_entry(name, data) {
        Ok(a) => Ok(a),
        Err(_) => Err(BxesWriteError::FailedToCreateArchive),
    }
}

/// Unwrap a single-entry archive and decode the stream inside. An archive
/// with more than one entry is rejected.
///
/// Together with the writer above this extends the round-trip law to the
/// archive layout: wrapping an encoded well-formed log and reading the
/// archive back yields the same log as the raw stream.
pub fn read_bxes_from_archive_bytes(archive: &Vec<u8>) -> (r: Result<
    BxesEventLog,
    BxesReadError,
>)
    ensures
        forall|l: crate::models::BxesEventLogView, n: Seq<char>|
            wf_log(l) && archive@ == #[trigger] zip_archive_of(n, encode_log(l)) ==> (r matches
                Ok(log) && log@ == l),
{
    let extracted = match zip_read_archive(archive) {
        Ok(p) => p,
        Err(e) => {
            return Err(e);
        },
    };
    if extracted.0 != 1 {
        return Err(BxesReadError::TooManyFilesInArchive);
    }
    let data = extracted.1;
    decode_bxes(data.as_slice())
}

} // verus!
