//! The batch buffer and its flush scheduler: records accumulate in arrival
//! order and are drained as one batch when a count threshold or a time
//! threshold is met — and never while the buffer is empty.

use vstd::prelude::*;

use crate::log::Log;

verus! {

/// A flush is due once this many records are buffered.
pub const THRESHOLD: usize = 200;

/// A flush is due once this many seconds have passed since the last one.
pub const TIME_THRESHOLD: i64 = 20;

/// The ordered, append-only buffer of normalized records, together with the
/// time of the last flush (unix seconds).
pub struct LogBuffer {
    pub logs: Vec<Log>,
    pub last_flush: i64,
}

impl LogBuffer {
    /// The flush clock never runs backwards past zero.
    pub open spec fn wf(self) -> bool {
        0 <= self.last_flush
    }

    /// The dual trigger: count threshold reached, or time threshold elapsed.
    pub open spec fn spec_should_flush(self, now: i64) -> bool {
        self.logs@.len() >= THRESHOLD || now - self.last_flush >= TIME_THRESHOLD
    }

    /// An empty buffer whose flush clock starts now.
    pub fn new(now: i64) -> (r: Self)
        requires
            0 <= now,
        ensures
            r.logs@ == Seq::<Log>::empty(),
            r.last_flush == now,
            r.wf(),
    {
        LogBuffer { logs: Vec::new(), last_flush: now }
    }

    /// Evaluates the dual trigger against the current time.
    pub fn should_flush(&self, now: i64) -> (r: bool)
        requires
            self.wf(),
            self.last_flush <= now,
        ensures
            r == self.spec_should_flush(now),
    {
        self.logs.len() >= THRESHOLD || now - self.last_flush >= TIME_THRESHOLD
    }

    /// Appends one record; the buffer keeps every earlier record in order
    /// and the flush clock is untouched.
    pub fn append(&mut self, log: Log)
        ensures
            final(self).logs@ == old(self).logs@.push(log),
            final(self).last_flush == old(self).last_flush,
    {
        self.logs.push(log);
    }

    /// Drains the whole buffer as one batch: the batch is exactly the
    /// buffered sequence, the buffer is left empty, and the flush clock is
    /// reset to now.
    pub fn drain(&mut self, now: i64) -> (batch: Vec<Log>)
        ensures
            batch@ == old(self).logs@,
            final(self).logs@ == Seq::<Log>::empty(),
            final(self).last_flush == now,
    {
        let mut batch: Vec<Log> = Vec::new();
        core::mem::swap(&mut batch, &mut self.logs);
        self.last_flush = now;
        batch
    }

    /// Runs the flush scheduler once, as done after every received event: a
    /// batch comes back exactly when the dual trigger holds of a non-empty
    /// buffer; the batch is the whole buffered sequence, the buffer is left
    /// empty with its clock reset, and the trigger no longer holds. When no
    /// flush is due the buffer is untouched.
    pub fn flush_if_due(&mut self, now: i64) -> (r: Option<Vec<Log>>)
        requires
            old(self).wf(),
            old(self).last_flush <= now,
        ensures
            final(self).wf(),
            final(self).last_flush <= now,
            r is Some <==> old(self).spec_should_flush(now) && old(self).logs@.len() > 0,
            r matches Some(batch) ==> {
                &&& batch@ == old(self).logs@
                &&& final(self).logs@ == Seq::<Log>::empty()
                &&& final(self).last_flush == now
                &&& !final(self).spec_should_flush(now)
            },
            r is None ==> *final(self) == *old(self),
    {
        if self.should_flush(now) && self.logs.len() > 0 {
            Some(self.drain(now))
        } else {
            None
        }
    }
}

} // verus!
