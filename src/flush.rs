//! Handing logged writes to storage one at a time. The first write that
//! fails ends the batch: no later write, in particular no counter after a
//! failed record, reaches storage, and the batch reports the failure.

use crate::plant_db::{StoreWrite, WriteView};
use vstd::prelude::*;

verus! {

/// A batch of writes as a mathematical value: the writes, how many have
/// reached storage, and whether one failed.
pub struct BatchView {
    pub writes: Seq<WriteView>,
    pub done: nat,
    pub failed: bool,
}

/// Writes to hand to storage in order, with the outcomes reported so far.
pub struct WriteBatch {
    writes: Vec<StoreWrite>,
    done: usize,
    failed: bool,
}

impl View for WriteBatch {
    type V = BatchView;

    closed spec fn view(&self) -> BatchView {
        BatchView {
            writes: self.writes@.map_values(|w: StoreWrite| w@),
            done: self.done as nat,
            failed: self.failed,
        }
    }
}

impl WriteBatch {
    /// No more writes are counted as done than there are.
    pub closed spec fn wf(&self) -> bool {
        self.done <= self.writes@.len()
    }

    /// A batch of the writes, none handed out yet.
    pub fn new(writes: Vec<StoreWrite>) -> (r: WriteBatch)
        ensures
            r.wf(),
            r@ == (BatchView { writes: writes@.map_values(|w: StoreWrite| w@), done: 0, failed: false }),
    {
        WriteBatch { writes, done: 0, failed: false }
    }

    /// The write to perform next; `None` once all are done or one failed.
    pub fn next_write(&self) -> (r: Option<&StoreWrite>)
        requires
            self.wf(),
        ensures
            r is Some <==> !self@.failed && self@.done < self@.writes.len(),
            r matches Some(w) ==> w@ == self@.writes[self@.done as int],
    {
        if self.failed || self.done >= self.writes.len() {
            None
        } else {
            Some(&self.writes[self.done])
        }
    }

    /// Records whether the write that `next_write` handed out succeeded.
    pub fn report(&mut self, succeeded: bool)
        requires
            old(self).wf(),
            !old(self)@.failed,
            old(self)@.done < old(self)@.writes.len(),
        ensures
            final(self).wf(),
            final(self)@.writes == old(self)@.writes,
            succeeded ==> final(self)@.done == old(self)@.done + 1 && !final(self)@.failed,
            !succeeded ==> final(self)@.done == old(self)@.done && final(self)@.failed,
    {
        let n = self.writes.len();
        if succeeded {
            assert(self.done < n);
            self.done = self.done + 1;
        } else {
            self.failed = true;
        }
    }

    /// `Ok` where every write reached storage, `Err` where one failed or
    /// some were never performed.
    pub fn outcome(&self) -> (r: Result<(), ()>)
        requires
            self.wf(),
        ensures
            r is Ok <==> !self@.failed && self@.done == self@.writes.len(),
    {
        if !self.failed && self.done == self.writes.len() {
            Ok(())
        } else {
            Err(())
        }
    }
}

} // verus!
