//! The pipeline processor that serves an index-backed KNN scan. It
//! implements the runtime's event-driven stage contract: a driver polls
//! `event` and performs the work the stage asks for, until the stage
//! reports itself finished; port handling stays with the driver.

use vstd::prelude::*;

verus! {

/// What a pipeline stage asks of its driver: synchronous work, an
/// asynchronous step, or nothing — the stage is done.
#[derive(Clone, Copy, PartialEq, Eq, Structural, Debug)]
pub enum Event {
    Sync,
    Async,
    Finished,
}

/// The KNN transform stage: performs its one synchronous step and then
/// finishes, closing its ports.
#[derive(Clone, Copy, PartialEq, Eq, Structural, Debug)]
pub struct TransformIndexKnn {
    pub limit: usize,
    pub finished: bool,
    pub input_finished: bool,
    pub output_finished: bool,
}

impl TransformIndexKnn {
    /// A fresh stage for the given row limit, ports open.
    pub fn try_create(limit: usize) -> (r: TransformIndexKnn)
        ensures
            r.limit == limit,
            !r.finished,
            !r.input_finished,
            !r.output_finished,
    {
        TransformIndexKnn { limit, finished: false, input_finished: false, output_finished: false }
    }

    /// The stage's name, for diagnostics.
    pub fn name(&self) -> (r: &'static str)
        ensures
            r@ == "TransformIndexKnn"@,
    {
        "TransformIndexKnn"
    }

    /// The driver's poll: while unfinished the stage wants synchronous
    /// work; once finished it closes both ports and reports done.
    pub fn event(&mut self) -> (e: Event)
        ensures
            final(self).limit == old(self).limit,
            final(self).finished == old(self).finished,
            if old(self).finished {
                &&& e == Event::Finished
                &&& final(self).input_finished
                &&& final(self).output_finished
            } else {
                &&& e == Event::Sync
                &&& final(self).input_finished == old(self).input_finished
                &&& final(self).output_finished == old(self).output_finished
            },
    {
        if !self.finished {
            return Event::Sync;
        }
        self.input_finished = true;
        self.output_finished = true;
        Event::Finished
    }

    /// The synchronous step: after it the stage is finished.
    pub fn process(&mut self)
        ensures
            final(self).limit == old(self).limit,
            final(self).finished,
            final(self).input_finished == old(self).input_finished,
            final(self).output_finished == old(self).output_finished,
    {
        self.finished = true;
    }
}

} // verus!
