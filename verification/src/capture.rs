//! The capture assembler: reconciles bytes pulled from the pass-through
//! reader while the label was still being searched for with the bytes
//! still arriving live, into one logical ordered stream for the
//! persister, with zero bytes lost or duplicated.

use vstd::prelude::*;
use crate::errors::CaptureError;
use crate::hexcode::valid_hex;
use crate::hexcode::hex_decode;

verus! {

/// Bounded size of one read from the pass-through reader while the
/// label is unresolved.
pub const PENDING_READ_SIZE: usize = 4096;

/// The transient state of one capture attempt: the accumulated prefix
/// read before the label was known, and ghost accounts of every byte
/// consumed from the source and emitted towards the persister.
pub struct CaptureAssembler {
    prefix: Vec<u8>,
    handed_over: bool,
    consumed_log: Ghost<Seq<u8>>,
    emitted_log: Ghost<Seq<u8>>,
}

impl CaptureAssembler {
    /// All bytes taken from the pass-through reader so far, in order.
    pub closed spec fn consumed(&self) -> Seq<u8> {
        self.consumed_log@
    }

    /// All bytes handed on towards the persister so far, in order.
    pub closed spec fn emitted(&self) -> Seq<u8> {
        self.emitted_log@
    }

    /// Bytes consumed but not yet emitted: the accumulated prefix.
    pub closed spec fn pending(&self) -> Seq<u8> {
        self.prefix@
    }

    /// Whether the buffered prefix has been handed over to the
    /// persister.
    pub closed spec fn handed_over(&self) -> bool {
        self.handed_over
    }

    /// Every consumed byte is either already emitted or still pending,
    /// in order; nothing is emitted before the handover, and nothing is
    /// pending after it.
    pub open spec fn wf(&self) -> bool {
        &&& self.consumed() == self.emitted() + self.pending()
        &&& (!self.handed_over() ==> self.emitted() == Seq::<u8>::empty())
        &&& (self.handed_over() ==> self.pending() == Seq::<u8>::empty())
    }

    /// Creates an assembler with nothing consumed.
    pub fn new() -> (r: CaptureAssembler)
        ensures
            r.wf(),
            !r.handed_over(),
            r.consumed() == Seq::<u8>::empty(),
    {
        CaptureAssembler {
            prefix: Vec::new(),
            handed_over: false,
            consumed_log: Ghost(Seq::empty()),
            emitted_log: Ghost(Seq::empty()),
        }
    }

    /// Accounts for one bounded read made while the label is still
    /// unresolved: the chunk is retained for the eventual persister.
    /// An empty chunk means the producer ended before the label entry
    /// was found, which fails the capture.
    pub fn note_pending_read(&mut self, chunk: &Vec<u8>) -> (r: Result<(), CaptureError>)
        requires
            old(self).wf(),
            !old(self).handed_over(),
        ensures
            final(self).wf(),
            !final(self).handed_over(),
            r is Ok <==> chunk@.len() > 0,
            r is Ok ==> final(self).consumed() == old(self).consumed() + chunk@
                && final(self).pending() == old(self).pending() + chunk@,
            r is Err ==> *final(self) == *old(self) && r->Err_0 == CaptureError::ProducerEndedEarly,
    {
        if chunk.len() == 0 {
            return Err(CaptureError::ProducerEndedEarly);
        }
        self.prefix.extend_from_slice(chunk.as_slice());
        proof {
            assert(self.prefix@ =~= old(self).prefix@ + chunk@);
            self.consumed_log@ = self.consumed_log@ + chunk@;
            assert(self.consumed_log@ =~= self.emitted_log@ + self.prefix@);
        }
        Ok(())
    }

    /// Hands the accumulated prefix over to the persister: the logical
    /// stream for persistence is this buffer followed by continued
    /// live reads.
    pub fn take_buffered(&mut self) -> (r: Vec<u8>)
        requires
            old(self).wf(),
            !old(self).handed_over(),
        ensures
            final(self).wf(),
            final(self).handed_over(),
            r@ == old(self).pending(),
            final(self).consumed() == old(self).consumed(),
            final(self).emitted() == old(self).emitted() + r@,
    {
        let mut out: Vec<u8> = Vec::new();
        core::mem::swap(&mut self.prefix, &mut out);
        self.handed_over = true;
        proof {
            self.emitted_log@ = self.emitted_log@ + out@;
            assert(self.consumed_log@ =~= self.emitted_log@ + self.prefix@);
        }
        out
    }

    /// Accounts for one live chunk read after the handover and passed
    /// straight through to the persister.
    pub fn pass_live_chunk(&mut self, chunk: &Vec<u8>)
        requires
            old(self).wf(),
            old(self).handed_over(),
        ensures
            final(self).wf(),
            final(self).handed_over(),
            final(self).consumed() == old(self).consumed() + chunk@,
            final(self).emitted() == old(self).emitted() + chunk@,
    {
        proof {
            self.consumed_log@ = self.consumed_log@ + chunk@;
            self.emitted_log@ = self.emitted_log@ + chunk@;
            assert(self.consumed_log@ =~= self.emitted_log@ + self.prefix@);
        }
    }
}

/// Law: after the handover, the assembler has emitted exactly the bytes
/// it consumed — the persister sees one seamless stream.
pub proof fn lemma_seamless_handover(a: &CaptureAssembler)
    requires
        a.wf(),
        a.handed_over(),
    ensures
        a.emitted() == a.consumed(),
{
    assert(a.emitted() =~= a.emitted() + a.pending());
}

/// Validates the discovered write-ahead-log label: it must decode as a
/// hex token.  `Err` exactly when it is not well-formed hex, reported
/// as an error rather than aborting.
pub fn validate_wal_label(label: &Vec<u8>) -> (r: Result<(), CaptureError>)
    ensures
        r is Ok <==> valid_hex(label@),
        r is Err ==> r->Err_0 == CaptureError::MalformedLabel,
{
    match hex_decode(label) {
        Some(_) => Ok(()),
        None => Err(CaptureError::MalformedLabel),
    }
}

/// The file name of the persisted artifact derived from the
/// caller-supplied label: the label followed by `.tar.zst`.  The name
/// is a function of the label alone, so a second capture with the same
/// label targets the same file; the explicit conflict policy of this
/// pipeline is to overwrite it.
pub fn artifact_file_name(label: &Vec<u8>) -> (r: Vec<u8>)
    ensures
        r@ == label@ + artifact_suffix(),
{
    let mut out: Vec<u8> = Vec::new();
    out.extend_from_slice(label.as_slice());
    proof {
        assert(out@ =~= label@);
    }
    out.push(46);
    out.push(116);
    out.push(97);
    out.push(114);
    out.push(46);
    out.push(122);
    out.push(115);
    out.push(116);
    proof {
        assert(out@ =~= label@ + artifact_suffix());
    }
    out
}

/// The ASCII codes of `.tar.zst`.
pub open spec fn artifact_suffix() -> Seq<u8> {
    seq![46u8, 116u8, 97u8, 114u8, 46u8, 122u8, 115u8, 116u8]
}

} // verus!
