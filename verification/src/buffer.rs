//! The batch buffer: ended spans wait here, in arrival order, for the next
//! flush. The buffer is bounded; when it is full a newly ended span is
//! discarded and counted in `dropped` (drop-newest policy), so ending a span
//! never blocks the instrumented workflow.
use vstd::prelude::*;

use crate::span::SpanData;

verus! {

pub struct BatchBuffer {
    pub spans: Vec<SpanData>,
    /// Greatest number of spans the buffer holds at once.
    pub capacity: usize,
    /// How many ended spans were discarded because the buffer was full.
    /// Saturates instead of wrapping.
    pub dropped: u64,
}

impl BatchBuffer {
    pub open spec fn wf(&self) -> bool {
        self.spans@.len() <= self.capacity
    }

    pub fn new(capacity: usize) -> (b: BatchBuffer)
        ensures
            b.wf(),
            b.spans@ =~= Seq::<SpanData>::empty(),
            b.capacity == capacity,
            b.dropped == 0,
    {
        BatchBuffer { spans: Vec::new(), capacity, dropped: 0 }
    }

    /// Accept one ended span, or discard it if the buffer is full.
    pub fn enqueue(&mut self, span: SpanData)
        requires
            old(self).wf(),
        ensures
            final(self).wf(),
            final(self).capacity == old(self).capacity,
            old(self).spans@.len() < old(self).capacity ==> {
                &&& final(self).spans@ =~= old(self).spans@.push(span)
                &&& final(self).dropped == old(self).dropped
            },
            old(self).spans@.len() >= old(self).capacity ==> {
                &&& final(self).spans@ =~= old(self).spans@
                &&& final(self).dropped
                    == if old(self).dropped < u64::MAX { old(self).dropped + 1 } else { old(self).dropped as int }
            },
    {
        if self.spans.len() < self.capacity {
            self.spans.push(span);
        } else {
            if self.dropped < u64::MAX {
                self.dropped = self.dropped + 1;
            }
        }
    }

    /// Hand every buffered span out, oldest first, leaving the buffer empty.
    pub fn drain(&mut self) -> (batch: Vec<SpanData>)
        ensures
            final(self).wf(),
            final(self).capacity == old(self).capacity,
            final(self).dropped == old(self).dropped,
            batch@ =~= old(self).spans@,
            final(self).spans@ =~= Seq::<SpanData>::empty(),
    {
        let mut out: Vec<SpanData> = Vec::new();
        std::mem::swap(&mut out, &mut self.spans);
        out
    }
}

} // verus!
