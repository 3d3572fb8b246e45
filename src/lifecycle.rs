use vstd::prelude::*;

use crate::buffer::{ConsumableEvents, records_of, unconsumed};

verus! {

/// How a buffer is pruned at the start of every cycle.
#[derive(Clone, Copy, Debug, PartialEq, Eq)]
pub enum Lifecycle {
    /// Every record is dropped: an event lives for at most one cycle.
    Transient,
    /// Only consumed records are dropped: an event lives until consumed.
    Persistent,
}

impl<E> ConsumableEvents<E> {
    /// The hook the host runs once per cycle, before any other reader or
    /// writer of this buffer.
    pub fn start_cycle(&mut self, mode: Lifecycle)
        ensures
            mode == Lifecycle::Transient ==> final(self)@ == Seq::<Option<E>>::empty(),
            mode == Lifecycle::Persistent ==> final(self)@ == records_of(unconsumed(old(self)@)),
    {
        match mode {
            Lifecycle::Transient => self.clear(),
            Lifecycle::Persistent => self.clear_consumed(),
        }
    }
}

} // verus!
