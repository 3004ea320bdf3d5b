use vstd::prelude::*;

verus! {

/// Errors that abort one capture attempt.  Every error in the capture
/// path is fatal for that attempt: there is no retry and no partial
/// result.
#[derive(Clone, Copy, Debug, PartialEq, Eq, Structural)]
pub enum CaptureError {
    /// The external producer process could not be started.
    ProducerSpawnFailure,
    /// The archive stream ended before a label entry with a matching
    /// line was seen.
    LabelNotFound,
    /// The discovered label is not a well-formed hex token.
    MalformedLabel,
    /// A header of the archive stream could not be parsed.
    MalformedArchive,
    /// The producer stream ended while the label was still unresolved.
    ProducerEndedEarly,
    /// A read, compress, write or sync on the byte path failed.
    StreamIoFailure,
}

impl CaptureError {
    /// A short human-readable description of the error.
    pub fn describe(&self) -> String {
        match self {
            CaptureError::ProducerSpawnFailure => "backup producer could not be started".to_string(),
            CaptureError::LabelNotFound => "No backup label found".to_string(),
            CaptureError::MalformedLabel => "invalid label".to_string(),
            CaptureError::MalformedArchive => "malformed archive header".to_string(),
            CaptureError::ProducerEndedEarly => "producer ended before label entry was found".to_string(),
            CaptureError::StreamIoFailure => "stream compression failed".to_string(),
        }
    }
}

/// Errors reported when a serialized manifest field cannot be decoded.
#[derive(Clone, Copy, Debug, PartialEq, Eq, Structural)]
pub enum ManifestDecodeError {
    /// A content reference string holds a character outside the hex
    /// alphabet.
    InvalidHex,
    /// A content reference string does not have the length of an
    /// encoded digest.
    InvalidLength,
    /// A timestamp lies outside the range representable by the target
    /// timestamp type.
    TimestampOutOfRange,
}

impl ManifestDecodeError {
    /// A short human-readable description of the error.
    pub fn describe(&self) -> String {
        match self {
            ManifestDecodeError::InvalidHex => "malformed content reference".to_string(),
            ManifestDecodeError::InvalidLength => "content reference has the wrong length".to_string(),
            ManifestDecodeError::TimestampOutOfRange => "timestamp out of range".to_string(),
        }
    }
}

} // verus!
