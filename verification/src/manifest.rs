//! The content-addressed manifest record: the durable description of one
//! completed backup.  Identity, timestamp and label are plain values;
//! per-path reference lists keep their order, and the path keys of each
//! mapping are unique.

use vstd::prelude::*;
use crate::errors::ManifestDecodeError;
use crate::hexcode::{bytes_of_hex, hex_decode, hex_encode, hex_seq, lemma_hex_round_trip, valid_hex};

verus! {

/// Number of bytes in a content digest.
pub const DIGEST_LEN: usize = 32;

/// Number of hex characters in a serialized content reference.
pub const DIGEST_HEX_LEN: usize = 64;

/// Number of bytes in a manifest identifier.
pub const ID_LEN: usize = 16;

/// Earliest epoch second representable by the target timestamp type.
pub const MIN_TIMESTAMP: i64 = -377705116800;

/// Latest epoch second representable by the target timestamp type.
pub const MAX_TIMESTAMP: i64 = 253402300799;

/// A content reference: a fixed-size cryptographic digest that is the
/// sole identity of a chunk's content.  Immutable once constructed.
#[derive(Debug, PartialEq, Eq)]
pub struct ChunkRef(pub Vec<u8>);

impl ChunkRef {
    /// A reference is well formed when it holds exactly one digest.
    pub open spec fn wf(&self) -> bool {
        self.0@.len() == DIGEST_LEN
    }

    /// Wraps a digest; `Err` exactly when the byte string does not have
    /// the length of a digest.
    pub fn new(digest: Vec<u8>) -> (r: Result<ChunkRef, ManifestDecodeError>)
        ensures
            r is Ok <==> digest@.len() == DIGEST_LEN,
            r is Ok ==> r->Ok_0.wf() && r->Ok_0.0@ == digest@,
            r is Err ==> r->Err_0 == ManifestDecodeError::InvalidLength,
    {
        if digest.len() == DIGEST_LEN {
            Ok(ChunkRef(digest))
        } else {
            Err(ManifestDecodeError::InvalidLength)
        }
    }

    /// Serialized form: the lowercase hex encoding of the digest.
    pub fn to_hex(&self) -> (r: Vec<u8>)
        requires
            self.wf(),
        ensures
            r@ == hex_seq(self.0@),
            r@.len() == DIGEST_HEX_LEN,
    {
        hex_encode(&self.0)
    }

    /// Deserialization: `Ok` exactly when the input is a well-formed hex
    /// string of the length of an encoded digest; anything else is a
    /// decode error, never a crash.
    pub fn from_hex(h: &Vec<u8>) -> (r: Result<ChunkRef, ManifestDecodeError>)
        ensures
            r is Ok <==> (valid_hex(h@) && h@.len() == DIGEST_HEX_LEN),
            r is Ok ==> r->Ok_0.wf() && r->Ok_0.0@ == bytes_of_hex(h@),
            h@.len() != DIGEST_HEX_LEN ==> r is Err && r->Err_0
                == ManifestDecodeError::InvalidLength,
            h@.len() == DIGEST_HEX_LEN && !valid_hex(h@) ==> r is Err && r->Err_0
                == ManifestDecodeError::InvalidHex,
    {
        if h.len() != DIGEST_HEX_LEN {
            return Err(ManifestDecodeError::InvalidLength);
        }
        match hex_decode(h) {
            Some(digest) => Ok(ChunkRef(digest)),
            None => Err(ManifestDecodeError::InvalidHex),
        }
    }
}

/// Law: a content reference serialized to hex and deserialized back is
/// the identical reference.
pub proof fn lemma_chunk_ref_round_trip(c: ChunkRef)
    requires
        c.wf(),
    ensures
        valid_hex(hex_seq(c.0@)),
        hex_seq(c.0@).len() == DIGEST_HEX_LEN,
        bytes_of_hex(hex_seq(c.0@)) == c.0@,
{
    lemma_hex_round_trip(c.0@);
}

/// Relies on `time::OffsetDateTime::from_unix_timestamp`, which returns
/// `Ok` exactly on the seconds representable between its minimum and
/// maximum dates (years -9999 to 9999 with default features).
#[verifier::external_body]
fn timestamp_representable(ts: i64) -> (r: bool)
    ensures
        r == (MIN_TIMESTAMP <= ts && ts <= MAX_TIMESTAMP),
{
    time::OffsetDateTime::from_unix_timestamp(ts).is_ok()
}

/// Checks a decoded timestamp; `Err` exactly when the value cannot be
/// represented by the target timestamp type, reported as a decode error
/// rather than aborting.
pub fn check_timestamp(ts: i64) -> (r: Result<i64, ManifestDecodeError>)
    ensures
        r is Ok <==> (MIN_TIMESTAMP <= ts && ts <= MAX_TIMESTAMP),
        r is Ok ==> r->Ok_0 == ts,
        r is Err ==> r->Err_0 == ManifestDecodeError::TimestampOutOfRange,
{
    if timestamp_representable(ts) {
        Ok(ts)
    } else {
        Err(ManifestDecodeError::TimestampOutOfRange)
    }
}

/// Relies on `uuid::Uuid::new_v4`: a randomly generated identifier of
/// sixteen bytes.  Nothing is stated of the value itself.
#[verifier::external_body]
fn fresh_id() -> (r: Vec<u8>)
    ensures
        r@.len() == ID_LEN,
{
    uuid::Uuid::new_v4().into_bytes().to_vec()
}

/// The manifest of one completed backup.  Paths and the label are
/// carried as plain byte strings.
pub struct Manifest {
    /// Globally unique identifier, generated at creation.
    pub id: Vec<u8>,
    /// Seconds since the epoch; always representable by the target
    /// timestamp type.
    pub created_at: i64,
    /// Caller-supplied human-readable backup name.
    pub label: Vec<u8>,
    /// Per-path ordered content references of chunked files.
    pub files: Vec<(Vec<u8>, Vec<ChunkRef>)>,
    /// Per-path ordered content references of small residual blocks.
    pub small_blocks: Vec<(Vec<u8>, Vec<ChunkRef>)>,
}

/// The path keys of a mapping are pairwise distinct.
pub open spec fn unique_paths(m: Seq<(Vec<u8>, Vec<ChunkRef>)>) -> bool {
    forall|i: int, j: int| 0 <= i < j < m.len() ==> m[i].0@ != m[j].0@
}

/// Every reference of a mapping holds a digest of the right size.
pub open spec fn refs_wf(m: Seq<(Vec<u8>, Vec<ChunkRef>)>) -> bool {
    forall|i: int, j: int|
        0 <= i < m.len() && 0 <= j < m[i].1@.len() ==> (#[trigger] m[i].1@[j]).wf()
}

impl Manifest {
    /// A manifest is well formed when its identifier has the fixed
    /// size, its timestamp is representable, its mappings have unique
    /// path keys, and every reference is well formed.
    pub open spec fn wf(&self) -> bool {
        &&& self.id@.len() == ID_LEN
        &&& MIN_TIMESTAMP <= self.created_at <= MAX_TIMESTAMP
        &&& unique_paths(self.files@)
        &&& unique_paths(self.small_blocks@)
        &&& refs_wf(self.files@)
        &&& refs_wf(self.small_blocks@)
    }

    /// Creates the write-once record of a backup: a fresh identifier,
    /// the given creation time and label, and empty mappings.
    pub fn new(created_at: i64, label: Vec<u8>) -> (r: Manifest)
        requires
            MIN_TIMESTAMP <= created_at <= MAX_TIMESTAMP,
        ensures
            r.wf(),
            r.created_at == created_at,
            r.label@ == label@,
            r.files@.len() == 0,
            r.small_blocks@.len() == 0,
    {
        Manifest {
            id: fresh_id(),
            created_at,
            label,
            files: Vec::new(),
            small_blocks: Vec::new(),
        }
    }

    /// Appends the ordered reference list of one chunked file; `false`
    /// exactly when the path is already mapped, which leaves the record
    /// unchanged rather than silently overwriting.
    pub fn add_file(&mut self, path: Vec<u8>, refs: Vec<ChunkRef>) -> (r: bool)
        requires
            old(self).wf(),
            forall|j: int| 0 <= j < refs@.len() ==> (#[trigger] refs@[j]).wf(),
        ensures
            final(self).wf(),
            r == !(exists|i: int| 0 <= i < old(self).files@.len() && (#[trigger] old(self).files@[i]).0@ == path@),
            r ==> final(self).files@ == old(self).files@.push((path, refs)),
            !r ==> final(self).files@ == old(self).files@,
            final(self).small_blocks@ == old(self).small_blocks@,
            final(self).id@ == old(self).id@,
            final(self).created_at == old(self).created_at,
            final(self).label@ == old(self).label@,
    {
        if Self::contains_path(&self.files, &path) {
            false
        } else {
            self.files.push((path, refs));
            true
        }
    }

    /// Appends the ordered reference list of one path's small residual
    /// blocks; `false` exactly when the path is already mapped.
    pub fn add_small_blocks(&mut self, path: Vec<u8>, refs: Vec<ChunkRef>) -> (r: bool)
        requires
            old(self).wf(),
            forall|j: int| 0 <= j < refs@.len() ==> (#[trigger] refs@[j]).wf(),
        ensures
            final(self).wf(),
            r == !(exists|i: int|
                0 <= i < old(self).small_blocks@.len() && (#[trigger] old(
                    self,
                ).small_blocks@[i]).0@ == path@),
            r ==> final(self).small_blocks@ == old(self).small_blocks@.push((path, refs)),
            !r ==> final(self).small_blocks@ == old(self).small_blocks@,
            final(self).files@ == old(self).files@,
    {
        if Self::contains_path(&self.small_blocks, &path) {
            false
        } else {
            self.small_blocks.push((path, refs));
            true
        }
    }

    /// Whether a mapping already holds the given path key.
    fn contains_path(m: &Vec<(Vec<u8>, Vec<ChunkRef>)>, path: &Vec<u8>) -> (r: bool)
        ensures
            r == exists|i: int| 0 <= i < m@.len() && (#[trigger] m@[i]).0@ == path@,
    {
        let mut i: usize = 0;
        while i < m.len()
            invariant
                i <= m@.len(),
                forall|k: int| 0 <= k < i ==> (#[trigger] m@[k]).0@ != path@,
            decreases m@.len() - i,
        {
            if vecs_equal(&m[i].0, path) {
                return true;
            }
            i = i + 1;
        }
        false
    }
}

/// Whether two byte strings hold the same bytes.
fn vecs_equal(a: &Vec<u8>, b: &Vec<u8>) -> (r: bool)
    ensures
        r == (a@ == b@),
{
    if a.len() != b.len() {
        proof {
            assert(a@ != b@);
        }
        return false;
    }
    let mut i: usize = 0;
    while i < a.len()
        invariant
            a@.len() == b@.len(),
            i <= a@.len(),
            forall|k: int| 0 <= k < i ==> a@[k] == b@[k],
        decreases a@.len() - i,
    {
        if a[i] != b[i] {
            return false;
        }
        i = i + 1;
    }
    proof {
        assert(a@ =~= b@);
    }
    true
}

} // verus!
