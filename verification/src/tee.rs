//! The stream tee: one live byte source fanned out to the persistence
//! path and to an independent derived reader, over an ordered,
//! unbounded, single-producer single-consumer queue.
//!
//! The pass-through side never blocks and never fails on account of the
//! derived side: forwarding a chunk is total, and a send to a departed
//! consumer is silently discarded.  Ghost sequences account for every
//! byte observed, forwarded and handed out, so that nothing is lost,
//! duplicated or reordered by the verified logic on either side.

use vstd::prelude::*;
use std::sync::mpsc::{Receiver, Sender};

verus! {

#[verifier::external_type_specification]
#[verifier::external_body]
#[verifier::reject_recursive_types(T)]
pub struct ExSender<T>(Sender<T>);

#[verifier::external_type_specification]
#[verifier::external_body]
#[verifier::reject_recursive_types(T)]
pub struct ExReceiver<T>(Receiver<T>);

/// Relies on `std::sync::mpsc::channel`: an ordered first-in first-out
/// queue pair for byte chunks.
#[verifier::external_body]
fn chunk_channel() -> (r: (Sender<Vec<u8>>, Receiver<Vec<u8>>)) {
    std::sync::mpsc::channel()
}

/// Relies on `std::sync::mpsc::Sender::send`: enqueues on an unbounded
/// queue without blocking; the error returned once the receiving side
/// is gone is discarded, so the call never fails the caller.
#[verifier::external_body]
fn send_chunk(tx: &Sender<Vec<u8>>, data: Vec<u8>) {
    let _ = tx.send(data);
}

/// Relies on `std::sync::mpsc::Receiver::recv`: blocks until a chunk
/// arrives and returns it, or returns `None` once the queue is closed
/// and drained.  What arrives depends on the sending thread, so nothing
/// is stated of the value.
#[verifier::external_body]
fn recv_chunk(rx: &Receiver<Vec<u8>>) -> (r: Option<Vec<u8>>) {
    rx.recv().ok()
}

/// The producer side of the tee.  The caller reads the live stream
/// itself and hands every returned chunk to [`Splitter::forward`], so
/// the bytes it keeps are by construction the bytes it observed.
pub struct Splitter {
    tx: Sender<Vec<u8>>,
    forwarded_log: Ghost<Seq<u8>>,
}

/// The derived reader: yields a faithful copy of every byte that passed
/// through the pass-through side, in the same order, with no gaps and no
/// reordering.
pub struct SplitReceiver {
    rx: Receiver<Vec<u8>>,
    buf: Vec<u8>,
    received_log: Ghost<Seq<u8>>,
    delivered_log: Ghost<Seq<u8>>,
}

impl Splitter {
    /// All bytes observed on the pass-through path and copied to the
    /// derived side, in order.
    pub closed spec fn forwarded(&self) -> Seq<u8> {
        self.forwarded_log@
    }

    /// Creates a connected tee pair with nothing observed yet.
    pub fn new() -> (r: (Splitter, SplitReceiver))
        ensures
            r.0.forwarded() == Seq::<u8>::empty(),
            r.1.wf(),
            r.1.received() == Seq::<u8>::empty(),
            r.1.delivered() == Seq::<u8>::empty(),
            r.1.buffered() == Seq::<u8>::empty(),
    {
        let (tx, rx) = chunk_channel();
        let splitter = Splitter { tx, forwarded_log: Ghost(Seq::empty()) };
        (splitter, SplitReceiver::new(rx))
    }

    /// Copies one observed chunk to the derived side.  Total: it never
    /// blocks and never fails, whether or not the derived consumer is
    /// still listening, so the primary path cannot stall on its
    /// account.
    pub fn forward(&mut self, chunk: &Vec<u8>)
        ensures
            final(self).forwarded() == old(self).forwarded() + chunk@,
    {
        let mut copy: Vec<u8> = Vec::new();
        let mut i: usize = 0;
        while i < chunk.len()
            invariant
                i <= chunk@.len(),
                copy@ == chunk@.take(i as int),
            decreases chunk@.len() - i,
        {
            copy.push(chunk[i]);
            proof {
                assert(copy@ =~= chunk@.take(i + 1));
            }
            i = i + 1;
        }
        proof {
            assert(copy@ =~= chunk@);
        }
        send_chunk(&self.tx, copy);
        proof {
            self.forwarded_log@ = self.forwarded_log@ + chunk@;
        }
    }
}

impl SplitReceiver {
    /// All bytes taken off the queue so far, in order.
    pub closed spec fn received(&self) -> Seq<u8> {
        self.received_log@
    }

    /// All bytes handed out to the consumer so far, in order.
    pub closed spec fn delivered(&self) -> Seq<u8> {
        self.delivered_log@
    }

    /// Bytes received but not yet handed out.
    pub closed spec fn buffered(&self) -> Seq<u8> {
        self.buf@
    }

    /// Wraps the receiving end of the queue with an empty hand-out
    /// buffer.
    pub fn new(rx: Receiver<Vec<u8>>) -> (r: SplitReceiver)
        ensures
            r.wf(),
            r.received() == Seq::<u8>::empty(),
            r.delivered() == Seq::<u8>::empty(),
            r.buffered() == Seq::<u8>::empty(),
    {
        SplitReceiver {
            rx,
            buf: Vec::new(),
            received_log: Ghost(Seq::empty()),
            delivered_log: Ghost(Seq::empty()),
        }
    }

    /// Everything taken off the queue is exactly everything handed out
    /// followed by what is still buffered: no loss, no duplication, no
    /// reordering.
    pub open spec fn wf(&self) -> bool {
        self.received() == self.delivered() + self.buffered()
    }

    /// Hands out up to `max` of the next bytes of the copied stream, in
    /// order.  Blocks while the queue is empty; an empty result reports
    /// end-of-stream (the producer side is gone or signalled the end),
    /// not an error.
    pub fn read(&mut self, max: usize) -> (r: Vec<u8>)
        requires
            max >= 1,
            old(self).wf(),
        ensures
            final(self).wf(),
            r@.len() <= max,
            final(self).delivered() == old(self).delivered() + r@,
            old(self).buffered().len() > 0 ==> final(self).received() == old(self).received()
                && r@ == old(self).buffered().take(
                if max < old(self).buffered().len() {
                    max as int
                } else {
                    old(self).buffered().len() as int
                },
            ) && final(self).buffered() == old(self).buffered().skip(
                if max < old(self).buffered().len() {
                    max as int
                } else {
                    old(self).buffered().len() as int
                },
            ),
            r@.len() == 0 ==> old(self).buffered().len() == 0 && final(self).buffered().len() == 0,
    {
        if self.buf.len() == 0 {
            match recv_chunk(&self.rx) {
                None => {
                    return Vec::new();
                },
                Some(data) => {
                    proof {
                        self.received_log@ = self.received_log@ + data@;
                        assert(self.delivered_log@ + self.buf@ + data@ =~= self.delivered_log@
                            + data@);
                    }
                    self.buf = data;
                },
            }
        }
        let n = if max < self.buf.len() {
            max
        } else {
            self.buf.len()
        };
        let mut rest = self.buf.split_off(n);
        core::mem::swap(&mut self.buf, &mut rest);
        proof {
            self.delivered_log@ = self.delivered_log@ + rest@;
            assert(self.delivered_log@ + self.buf@ =~= self.received_log@);
        }
        rest
    }
}

/// Law: at any state of the derived reader, what it has handed out is a
/// prefix of what it has received — the consumer observes the copied
/// stream in order and without gaps.
pub proof fn lemma_delivered_is_prefix(r: &SplitReceiver)
    requires
        r.wf(),
    ensures
        r.delivered().is_prefix_of(r.received()),
{
    assert(r.delivered() =~= r.received().subrange(0, r.delivered().len() as int));
}

} // verus!
