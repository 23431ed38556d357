//! The duplex byte-relay engine: each direction is a half-copy whose loop
//! decisions are functions of its recorded state, and the duplex pairs two
//! of them with half-close propagation. The transports themselves are driven
//! from outside; every decision and every count lives here.

use vstd::prelude::*;
use crate::text::{dec_str, push_dec};

verus! {

/// One direction of the relay: its labels, whether its writer was closed by
/// the opposite direction, the flush-on-pending flags, the running byte
/// count, and the bytes written so far.
pub struct Copy {
    pub reader_label: String,
    pub writer_label: String,
    pub writer_done: bool,
    pub flush_on_pending: bool,
    pub needs_flush: bool,
    pub amt: usize,
    pub written: Ghost<Seq<u8>>,
}

/// What a half-copy does when its reader has nothing available right now.
#[derive(Debug, PartialEq, Eq, Structural)]
pub enum PendingStep {
    /// The writer was closed by the other direction: complete with the count.
    Complete,
    /// A write happened since the last flush: flush, then suspend.
    FlushThenSuspend,
    /// Nothing to flush: suspend.
    Suspend,
}

/// What a half-copy does with a non-empty window from its reader.
pub enum DataStep {
    /// The writer was closed by the other direction while data remains.
    FailUnexpectedClosed(String),
    /// Write the window.
    Write,
}

/// What a half-copy does after the writer accepted `n` bytes.
pub enum WriteStep {
    /// The writer accepted nothing: fail.
    FailZeroWrite(String),
    /// Count the bytes, consume them from the reader, and go round again.
    Continue,
}

/// The decision taken on a pending reader, as a function of the state.
pub open spec fn pending_step(c: Copy) -> PendingStep {
    if c.writer_done {
        PendingStep::Complete
    } else if c.needs_flush {
        PendingStep::FlushThenSuspend
    } else {
        PendingStep::Suspend
    }
}

/// The byte count equals the bytes written.
pub open spec fn copy_wf(c: Copy) -> bool {
    c.amt == c.written@.len()
}

impl Copy {
    /// A fresh half-copy with its two labels and initial flush flag.
    pub fn new(reader_label: String, writer_label: String, flush_on_pending: bool) -> (r: Copy)
        ensures
            r.reader_label@ == reader_label@,
            r.writer_label@ == writer_label@,
            r.writer_done == false,
            r.flush_on_pending == flush_on_pending,
            r.needs_flush == flush_on_pending,
            r.amt == 0,
            r.written@ == Seq::<u8>::empty(),
            copy_wf(r),
    {
        Copy {
            reader_label,
            writer_label,
            writer_done: false,
            flush_on_pending,
            needs_flush: flush_on_pending,
            amt: 0,
            written: Ghost(Seq::empty()),
        }
    }

    /// Entering a poll: whether a flush is owed starts from the sticky flag.
    pub fn begin_poll(&mut self)
        ensures
            *final(self) == (Copy { needs_flush: old(self).flush_on_pending, ..*old(self) }),
    {
        self.needs_flush = self.flush_on_pending;
    }

    /// The reader has nothing right now: complete if our writer was closed by
    /// the other direction, flush first if a write is unflushed, else suspend.
    pub fn on_read_pending(&self) -> (r: PendingStep)
        ensures
            r == pending_step(*self),
    {
        if self.writer_done {
            PendingStep::Complete
        } else if self.needs_flush {
            PendingStep::FlushThenSuspend
        } else {
            PendingStep::Suspend
        }
    }

    /// A flush demanded by a pending reader succeeded: the sticky flag clears.
    pub fn on_flush_ok_pending(&mut self)
        ensures
            *final(self) == (Copy { flush_on_pending: false, ..*old(self) }),
    {
        self.flush_on_pending = false;
    }

    /// The reader produced a non-empty window: write it, unless our writer
    /// was closed by the other direction.
    pub fn on_data(&self, len: usize) -> (r: DataStep)
        ensures
            self.writer_done ==> (r matches DataStep::FailUnexpectedClosed(m) && m@
                == self.writer_label@ + " unexpected closed, remain "@ + dec_str(len as int)
                + " bytes to write"@),
            !self.writer_done ==> r is Write,
    {
        if self.writer_done {
            let mut m = self.writer_label.clone();
            m.append(" unexpected closed, remain ");
            push_dec(&mut m, len as u64);
            m.append(" bytes to write");
            proof {
                assert(m@ =~= self.writer_label@ + " unexpected closed, remain "@ + dec_str(
                    len as int,
                ) + " bytes to write"@);
            }
            DataStep::FailUnexpectedClosed(m)
        } else {
            DataStep::Write
        }
    }

    /// The writer accepted `n` of the window's bytes: zero fails, and any
    /// other count is added to the total and marks a flush as owed.
    pub fn on_written(&mut self, window: &[u8], n: usize) -> (r: WriteStep)
        requires
            n <= window@.len(),
            old(self).amt + n <= usize::MAX,
            copy_wf(*old(self)),
        ensures
            copy_wf(*final(self)),
            n == 0 ==> *final(self) == *old(self) && (r matches WriteStep::FailZeroWrite(m) && m@
                == "write "@ + old(self).writer_label@ + " zero bytes"@),
            n > 0 ==> r is Continue && *final(self) == (Copy {
                amt: (old(self).amt + n) as usize,
                needs_flush: true,
                written: Ghost(old(self).written@ + window@.subrange(0, n as int)),
                ..*old(self)
            }),
    {
        if n == 0 {
            let mut m = String::new();
            m.append("write ");
            m.append(self.writer_label.as_str());
            m.append(" zero bytes");
            proof {
                assert(m@ =~= "write "@ + self.writer_label@ + " zero bytes"@);
            }
            WriteStep::FailZeroWrite(m)
        } else {
            self.amt = self.amt + n;
            self.needs_flush = true;
            proof {
                self.written@ = self.written@ + window@.subrange(0, n as int);
            }
            WriteStep::Continue
        }
    }

    /// The count a completed half reports.
    pub fn result_amt(&self) -> (r: usize)
        requires
            copy_wf(*self),
        ensures
            r == self.amt,
            r == self.written@.len(),
    {
        self.amt
    }

    /// The message for a failed read of this half's reader.
    pub fn read_fail_message(&self, cause: &str) -> (r: String)
        ensures
            r@ == "read "@ + self.reader_label@ + " fail: "@ + cause@,
    {
        let mut m = String::new();
        m.append("read ");
        m.append(self.reader_label.as_str());
        m.append(" fail: ");
        m.append(cause);
        proof {
            assert(m@ =~= "read "@ + self.reader_label@ + " fail: "@ + cause@);
        }
        m
    }

    /// The message for a failed flush of this half's writer.
    pub fn flush_fail_message(&self, cause: &str) -> (r: String)
        ensures
            r@ == "flush "@ + self.writer_label@ + " fail: "@ + cause@,
    {
        let mut m = String::new();
        m.append("flush ");
        m.append(self.writer_label.as_str());
        m.append(" fail: ");
        m.append(cause);
        proof {
            assert(m@ =~= "flush "@ + self.writer_label@ + " fail: "@ + cause@);
        }
        m
    }

    /// The message for a failed write of this half's writer.
    pub fn write_fail_message(&self, cause: &str) -> (r: String)
        ensures
            r@ == "write "@ + self.writer_label@ + " fail: "@ + cause@,
    {
        let mut m = String::new();
        m.append("write ");
        m.append(self.writer_label.as_str());
        m.append(" fail: ");
        m.append(cause);
        proof {
            assert(m@ =~= "write "@ + self.writer_label@ + " fail: "@ + cause@);
        }
        m
    }
}

/// The two directions of the relay and their completion records.
pub struct DuplexCopy {
    pub left: Copy,
    pub right: Copy,
    pub left_done: bool,
    pub right_done: bool,
    pub left_amt: usize,
    pub right_amt: usize,
}

/// Both counts stand for bytes actually written, and a completed direction's
/// reported count is final.
pub open spec fn duplex_wf(dc: DuplexCopy) -> bool {
    &&& copy_wf(dc.left)
    &&& copy_wf(dc.right)
    &&& (dc.left_done ==> dc.left_amt == dc.left.written@.len())
    &&& (dc.right_done ==> dc.right_amt == dc.right.written@.len())
}

/// The duplex after the left-to-right direction completes: its count is
/// recorded and the opposite direction's writer is marked closed.
pub open spec fn after_left_complete(dc: DuplexCopy) -> DuplexCopy {
    DuplexCopy {
        left_done: true,
        left_amt: dc.left.amt,
        right: Copy { writer_done: true, ..dc.right },
        ..dc
    }
}

/// The duplex after the right-to-left direction completes.
pub open spec fn after_right_complete(dc: DuplexCopy) -> DuplexCopy {
    DuplexCopy {
        right_done: true,
        right_amt: dc.right.amt,
        left: Copy { writer_done: true, ..dc.left },
        ..dc
    }
}

impl DuplexCopy {
    /// A duplex with both directions labelled and both flush flags chosen:
    /// each direction reads under its own label, writes under the other's,
    /// and takes the flag of the side it writes to.
    pub fn with_pending(
        left_label: String,
        left_flush_pending: bool,
        right_label: String,
        right_flush_pending: bool,
    ) -> (r: DuplexCopy)
        ensures
            duplex_wf(r),
            r.left.reader_label@ == left_label@,
            r.left.writer_label@ == right_label@,
            r.left.flush_on_pending == right_flush_pending,
            r.left.writer_done == false,
            r.left.amt == 0,
            r.left.written@ == Seq::<u8>::empty(),
            r.right.reader_label@ == right_label@,
            r.right.writer_label@ == left_label@,
            r.right.flush_on_pending == left_flush_pending,
            r.right.writer_done == false,
            r.right.amt == 0,
            r.right.written@ == Seq::<u8>::empty(),
            !r.left_done && !r.right_done,
            r.left_amt == 0 && r.right_amt == 0,
    {
        let left_for_writer = left_label.clone();
        let right_for_writer = right_label.clone();
        DuplexCopy {
            left: Copy::new(left_label, right_for_writer, right_flush_pending),
            right: Copy::new(right_label, left_for_writer, left_flush_pending),
            left_done: false,
            right_done: false,
            left_amt: 0,
            right_amt: 0,
        }
    }

    /// A duplex with chosen labels and no initial flush owed on either side.
    pub fn with_label(left_label: String, right_label: String) -> (r: DuplexCopy)
        ensures
            duplex_wf(r),
            r.left.reader_label@ == left_label@,
            r.left.writer_label@ == right_label@,
            r.right.reader_label@ == right_label@,
            r.right.writer_label@ == left_label@,
            !r.left.flush_on_pending && !r.right.flush_on_pending,
            !r.left.writer_done && !r.right.writer_done,
            r.left.amt == 0 && r.right.amt == 0,
            r.left.written@ == Seq::<u8>::empty() && r.right.written@ == Seq::<u8>::empty(),
            !r.left_done && !r.right_done,
    {
        Self::with_pending(left_label, false, right_label, false)
    }

    /// A duplex with the plain labels and no initial flush owed.
    pub fn new() -> (r: DuplexCopy)
        ensures
            duplex_wf(r),
            r.left.reader_label@ == "left"@,
            r.left.writer_label@ == "right"@,
            r.right.reader_label@ == "right"@,
            r.right.writer_label@ == "left"@,
            !r.left.flush_on_pending && !r.right.flush_on_pending,
            !r.left.writer_done && !r.right.writer_done,
            !r.left_done && !r.right_done,
    {
        Self::with_pending(String::from_str("left"), false, String::from_str("right"), false)
    }

    /// The left-to-right direction completed cleanly: record its count and
    /// close the opposite direction's writer.
    pub fn on_left_complete(&mut self)
        requires
            !old(self).left_done,
            duplex_wf(*old(self)),
        ensures
            *final(self) == after_left_complete(*old(self)),
            duplex_wf(*final(self)),
            final(self).left_amt == old(self).left.written@.len(),
            final(self).right.writer_done,
    {
        self.left_amt = self.left.amt;
        self.left_done = true;
        self.right.writer_done = true;
    }

    /// The right-to-left direction completed cleanly.
    pub fn on_right_complete(&mut self)
        requires
            !old(self).right_done,
            duplex_wf(*old(self)),
        ensures
            *final(self) == after_right_complete(*old(self)),
            duplex_wf(*final(self)),
            final(self).right_amt == old(self).right.written@.len(),
            final(self).left.writer_done,
    {
        self.right_amt = self.right.amt;
        self.right_done = true;
        self.left.writer_done = true;
    }

    /// The pair of counts, once both directions are done.
    pub fn result(&self) -> (r: Option<(usize, usize)>)
        ensures
            (self.left_done && self.right_done) <==> r is Some,
            r is Some ==> r == Some((self.left_amt, self.right_amt)),
    {
        if self.left_done && self.right_done {
            Some((self.left_amt, self.right_amt))
        } else {
            None
        }
    }
}

/// Half-close propagation: when one direction completes cleanly after `N`
/// bytes, the duplex reports `N` for it, and the opposite direction's next
/// pending poll completes instead of suspending.
pub proof fn lemma_half_close(dc: DuplexCopy)
    requires
        duplex_wf(dc),
        !dc.left_done,
    ensures
        after_left_complete(dc).left_amt == dc.left.written@.len(),
        pending_step(Copy { needs_flush: after_left_complete(dc).right.flush_on_pending,
            ..after_left_complete(dc).right }) == PendingStep::Complete,
{
}

/// Byte conservation: when both directions are done, the reported pair is
/// exactly the number of bytes each writer accepted.
pub proof fn lemma_byte_conservation(dc: DuplexCopy)
    requires
        duplex_wf(dc),
        dc.left_done,
        dc.right_done,
    ensures
        dc.left_amt == dc.left.written@.len(),
        dc.right_amt == dc.right.written@.len(),
{
}

} // verus!
