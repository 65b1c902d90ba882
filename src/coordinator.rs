use vstd::prelude::*;

verus! {

/// Abstract state of a search's cancellation state.
pub struct CancellationView {
    pub stopped: bool,
    pub exhausted_count: nat,
    pub worker_count: nat,
}

/// Shared state of one search: whether it has stopped, and how many workers
/// have scanned their whole chunk without a match.
pub struct CancellationState {
    stopped: bool,
    exhausted_count: usize,
    worker_count: usize,
}

impl View for CancellationState {
    type V = CancellationView;

    closed spec fn view(&self) -> CancellationView {
        CancellationView {
            stopped: self.stopped,
            exhausted_count: self.exhausted_count as nat,
            worker_count: self.worker_count as nat,
        }
    }
}

impl CancellationState {
    /// The count of exhausted workers never exceeds the number of workers, and
    /// once every worker is exhausted the search has stopped.
    pub open spec fn wf(&self) -> bool {
        &&& self@.exhausted_count <= self@.worker_count
        &&& self@.exhausted_count == self@.worker_count ==> self@.stopped
    }

    /// A running state for `worker_count` workers; with no workers at all
    /// there is nothing to wait for and the state starts stopped.
    pub fn new(worker_count: usize) -> (r: CancellationState)
        ensures
            r.wf(),
            r@.worker_count == worker_count,
            r@.exhausted_count == 0,
            r@.stopped == (worker_count == 0),
    {
        CancellationState { stopped: worker_count == 0, exhausted_count: 0, worker_count }
    }

    pub fn is_stopped(&self) -> (r: bool)
        ensures
            r == self@.stopped,
    {
        self.stopped
    }

    pub fn exhausted_count(&self) -> (r: usize)
        ensures
            r == self@.exhausted_count,
    {
        self.exhausted_count
    }

    pub fn worker_count(&self) -> (r: usize)
        ensures
            r == self@.worker_count,
    {
        self.worker_count
    }

    /// A worker found a match: the search stops. Returns whether this call
    /// made the transition; a call after the stop changes nothing.
    pub fn signal_found(&mut self) -> (first: bool)
        requires
            old(self).wf(),
        ensures
            final(self).wf(),
            final(self)@.stopped,
            final(self)@.exhausted_count == old(self)@.exhausted_count,
            final(self)@.worker_count == old(self)@.worker_count,
            first == !old(self)@.stopped,
    {
        let first = !self.stopped;
        self.stopped = true;
        first
    }

    /// A worker scanned its whole chunk without a match. The count goes up by
    /// one while it is below the number of workers; reaching that number stops
    /// the search. Returns whether this call made the search stop.
    pub fn signal_exhausted(&mut self) -> (stopped_now: bool)
        requires
            old(self).wf(),
        ensures
            final(self).wf(),
            final(self)@.worker_count == old(self)@.worker_count,
            old(self)@.exhausted_count < old(self)@.worker_count ==> final(self)@.exhausted_count
                == old(self)@.exhausted_count + 1,
            old(self)@.exhausted_count == old(self)@.worker_count ==> final(self)@ == old(self)@,
            final(self)@.stopped == (old(self)@.stopped || final(self)@.exhausted_count
                == final(self)@.worker_count),
            stopped_now == (!old(self)@.stopped && final(self)@.stopped),
    {
        if self.exhausted_count < self.worker_count {
            self.exhausted_count = self.exhausted_count + 1;
            if self.exhausted_count == self.worker_count && !self.stopped {
                self.stopped = true;
                return true;
            }
        }
        false
    }
}

} // verus!
