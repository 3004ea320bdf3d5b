//! The compressing persister and its instrumentation: byte counters
//! around the read and write sides, chunked streaming compression at a
//! fixed level, and the integer parts of the periodic throughput
//! report.

use vstd::prelude::*;
use crate::errors::CaptureError;

verus! {

/// Bytes read from the assembled stream per compression step.
pub const CHUNK_SIZE: usize = 4194304;

/// The fixed compression level of the persisted artifact.
pub const COMPRESSION_LEVEL: i32 = 3;

/// Seconds between two progress reports.
pub const REPORT_INTERVAL_SECS: u64 = 5;

/// Divisor turning a byte count into whole mebibytes.
pub const MIB: u64 = 1048576;

/// Whole mebibytes contained in `bytes`, rounded down.
pub fn mib_of(bytes: u64) -> (r: u64)
    ensures
        r == bytes / 1048576,
{
    bytes / MIB
}

/// Saturating byte-counter sum.
pub open spec fn counted(total: u64, n: nat) -> u64 {
    if total + n <= u64::MAX {
        (total + n) as u64
    } else {
        u64::MAX
    }
}

/// Counts the bytes successfully taken from a reader, with no other
/// change in behavior.
pub struct TrackedReader {
    total: u64,
}

impl TrackedReader {
    /// Total bytes recorded so far.
    pub closed spec fn total_spec(&self) -> u64 {
        self.total
    }

    /// Creates a counter at zero.
    pub fn new() -> (r: TrackedReader)
        ensures
            r.total_spec() == 0,
    {
        TrackedReader { total: 0 }
    }

    /// Records one successful read of `n` bytes.
    pub fn record(&mut self, n: usize)
        ensures
            final(self).total_spec() == counted(old(self).total_spec(), n as nat),
    {
        let m = n as u64;
        if m > u64::MAX - self.total {
            self.total = u64::MAX;
        } else {
            self.total = self.total + m;
        }
    }

    /// Total bytes recorded so far.
    pub fn total(&self) -> (r: u64)
        ensures
            r == self.total_spec(),
    {
        self.total
    }
}

/// Counts the bytes successfully handed to a writer, with no other
/// change in behavior.
pub struct TrackedWriter {
    total: u64,
}

impl TrackedWriter {
    /// Total bytes recorded so far.
    pub closed spec fn total_spec(&self) -> u64 {
        self.total
    }

    /// Creates a counter at zero.
    pub fn new() -> (r: TrackedWriter)
        ensures
            r.total_spec() == 0,
    {
        TrackedWriter { total: 0 }
    }

    /// Records one successful write of `n` bytes.
    pub fn record(&mut self, n: usize)
        ensures
            final(self).total_spec() == counted(old(self).total_spec(), n as nat),
    {
        let m = n as u64;
        if m > u64::MAX - self.total {
            self.total = u64::MAX;
        } else {
            self.total = self.total + m;
        }
    }

    /// Total bytes recorded so far.
    pub fn total(&self) -> (r: u64)
        ensures
            r == self.total_spec(),
    {
        self.total
    }
}

/// The compressed frame that the streaming compressor produces for a
/// chunk of bytes at a level.  Its content is fixed by the chunk and
/// the level alone.
pub uninterp spec fn zstd_frame_of(data: Seq<u8>, level: int) -> Seq<u8>;

/// The bytes that the streaming decompressor recovers from a byte
/// string.  Its content is fixed by the input alone.
pub uninterp spec fn unzstd_of(data: Seq<u8>) -> Seq<u8>;

/// Whether the streaming decompressor accepts a byte string as a
/// well-formed compressed stream.  Fixed by the input alone.
pub uninterp spec fn unzstd_ok(data: Seq<u8>) -> bool;

/// Relies on `zstd::stream::encode_all`: compresses a byte string into
/// one frame of the compressed format, a function of the input and the
/// level alone.  Compressing into an in-memory buffer cannot fail —
/// the level is clamped to the supported range, never rejected — so
/// the call always succeeds.  A frame begins with the format's magic
/// number, decodes losslessly to the input, and the decoder processes
/// frames in sequence, so appending the frame to any well-formed
/// stream yields a well-formed stream whose decoded bytes grow by
/// exactly the input.
#[verifier::external_body]
fn zstd_compress(data: &Vec<u8>, level: i32) -> (r: Result<Vec<u8>, CaptureError>)
    ensures
        r is Ok,
        r->Ok_0@ == zstd_frame_of(data@, level as int),
        r->Ok_0@.len() > 0,
        unzstd_of(r->Ok_0@) == data@,
        unzstd_ok(r->Ok_0@),
        forall|front: Seq<u8>|
            unzstd_ok(front) ==> #[trigger] unzstd_ok(front + r->Ok_0@) && unzstd_of(
                front + r->Ok_0@,
            ) == unzstd_of(front) + data@,
{
    match zstd::stream::encode_all(data.as_slice(), level) {
        Ok(v) => Ok(v),
        Err(_) => Err(CaptureError::StreamIoFailure),
    }
}

/// Relies on `zstd::stream::decode_all`: deterministic in the input
/// alone, it succeeds exactly on the well-formed compressed streams
/// and then recovers the bytes they encode.
#[verifier::external_body]
fn zstd_decompress(data: &Vec<u8>) -> (r: Result<Vec<u8>, CaptureError>)
    ensures
        r is Ok <==> unzstd_ok(data@),
        r is Ok ==> r->Ok_0@ == unzstd_of(data@),
{
    match zstd::stream::decode_all(data.as_slice()) {
        Ok(v) => Ok(v),
        Err(_) => Err(CaptureError::StreamIoFailure),
    }
}

/// Decompresses a persisted artifact or a single frame of one:
/// success exactly on well-formed compressed streams, and then the
/// result is exactly the bytes the stream encodes.
pub fn decompress_frame(data: &Vec<u8>) -> (r: Result<Vec<u8>, CaptureError>)
    ensures
        r is Ok <==> unzstd_ok(data@),
        r is Ok ==> r->Ok_0@ == unzstd_of(data@),
        r is Err ==> r->Err_0 == CaptureError::StreamIoFailure,
{
    match zstd_decompress(data) {
        Ok(v) => Ok(v),
        Err(_) => Err(CaptureError::StreamIoFailure),
    }
}

/// Law: compressing a chunk and decompressing the resulting frame
/// always succeeds and reproduces the chunk exactly.
pub fn chunk_round_trip(data: &Vec<u8>, level: i32) -> (r: Option<Vec<u8>>)
    ensures
        r is Some,
        r->0@ == data@,
{
    match zstd_compress(data, level) {
        Err(_) => {
            proof {
                assert(false);
            }
            None
        },
        Ok(frame) => match zstd_decompress(&frame) {
            Err(_) => {
                proof {
                    assert(false);
                }
                None
            },
            Ok(recovered) => Some(recovered),
        },
    }
}

/// Drives the assembled stream through the streaming compressor in
/// bounded chunks, counting processed and written bytes.  The artifact
/// it produces is a sequence of compressed frames, one per chunk; the
/// decoder processes frames in sequence, so the whole artifact decodes
/// back to the whole stream.
pub struct Persister {
    level: i32,
    reader: TrackedReader,
    writer: TrackedWriter,
    fed_log: Ghost<Seq<u8>>,
    artifact_log: Ghost<Seq<u8>>,
}

impl Persister {
    /// The fixed compression level of this persister.
    pub closed spec fn level_spec(&self) -> i32 {
        self.level
    }

    /// Bytes of the assembled stream processed so far (saturating).
    pub closed spec fn processed(&self) -> u64 {
        self.reader.total_spec()
    }

    /// Bytes of compressed output produced so far (saturating).
    pub closed spec fn written(&self) -> u64 {
        self.writer.total_spec()
    }

    /// All bytes of the assembled stream fed to the compressor, in
    /// order.
    pub closed spec fn fed(&self) -> Seq<u8> {
        self.fed_log@
    }

    /// All frames produced so far, concatenated in order: the content
    /// of the persisted artifact.
    pub closed spec fn artifact(&self) -> Seq<u8> {
        self.artifact_log@
    }

    /// The whole-artifact round trip: once anything has been written,
    /// the concatenated frames form a well-formed compressed stream
    /// that decodes to exactly the bytes fed so far.
    pub open spec fn wf(&self) -> bool {
        &&& (self.artifact().len() == 0 ==> self.fed().len() == 0)
        &&& (self.artifact().len() > 0 ==> unzstd_ok(self.artifact()) && unzstd_of(
            self.artifact(),
        ) == self.fed())
    }

    /// Creates a persister at the given compression level with nothing
    /// processed.
    pub fn new(level: i32) -> (r: Persister)
        ensures
            r.wf(),
            r.level_spec() == level,
            r.processed() == 0,
            r.written() == 0,
            r.fed() == Seq::<u8>::empty(),
            r.artifact() == Seq::<u8>::empty(),
    {
        Persister {
            level,
            reader: TrackedReader::new(),
            writer: TrackedWriter::new(),
            fed_log: Ghost(Seq::empty()),
            artifact_log: Ghost(Seq::empty()),
        }
    }

    /// Compresses one chunk of the assembled stream into the next
    /// frame of the artifact and updates both counters.  It always
    /// succeeds: the compressor works purely in memory.
    pub fn persist_chunk(&mut self, data: &Vec<u8>) -> (r: Result<Vec<u8>, CaptureError>)
        requires
            old(self).wf(),
        ensures
            final(self).wf(),
            final(self).level_spec() == old(self).level_spec(),
            r is Ok,
            r->Ok_0@ == zstd_frame_of(data@, old(self).level_spec() as int),
            r->Ok_0@.len() > 0,
            unzstd_of(r->Ok_0@) == data@,
            final(self).fed() == old(self).fed() + data@,
            final(self).artifact() == old(self).artifact() + r->Ok_0@,
            final(self).processed() == counted(old(self).processed(), data@.len()),
            final(self).written() == counted(old(self).written(), r->Ok_0@.len()),
    {
        match zstd_compress(data, self.level) {
            Err(_) => {
                proof {
                    assert(false);
                }
                Err(CaptureError::StreamIoFailure)
            },
            Ok(frame) => {
                self.reader.record(data.len());
                self.writer.record(frame.len());
                proof {
                    if self.artifact_log@.len() == 0 {
                        assert(self.fed_log@ + data@ =~= data@);
                        assert(self.artifact_log@ + frame@ =~= frame@);
                    } else {
                        assert(unzstd_ok(self.artifact_log@ + frame@));
                    }
                    self.fed_log@ = self.fed_log@ + data@;
                    self.artifact_log@ = self.artifact_log@ + frame@;
                }
                Ok(frame)
            },
        }
    }

    /// Exact byte totals: processed and written.
    pub fn totals(&self) -> (r: (u64, u64))
        ensures
            r.0 == self.processed(),
            r.1 == self.written(),
    {
        (self.reader.total(), self.writer.total())
    }

    /// The integer fields of a progress or summary report: whole
    /// mebibytes processed and whole mebibytes written.
    pub fn progress_mib(&self) -> (r: (u64, u64))
        ensures
            r.0 == self.processed() / 1048576,
            r.1 == self.written() / 1048576,
    {
        (mib_of(self.reader.total()), mib_of(self.writer.total()))
    }
}

/// Law: once a persister has produced any output, decompressing the
/// concatenation of everything it has written reproduces exactly the
/// bytes of the stream it was fed — the whole-artifact round trip.
pub proof fn lemma_artifact_round_trip(p: &Persister)
    requires
        p.wf(),
        p.artifact().len() > 0,
    ensures
        unzstd_ok(p.artifact()),
        unzstd_of(p.artifact()) == p.fed(),
{
}

} // verus!
