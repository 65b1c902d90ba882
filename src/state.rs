use vstd::prelude::*;

use crate::coordinator::{CancellationState, CancellationView};
use crate::digest::{is_hex_digit, is_lower_hex, trimmed};
use crate::hash_type::HashType;
use crate::index::{
    colon_free, lemma_colon_free_flatten, lemma_index_round_trip, outcome_records, parse_lines,
    record_line,
};
use crate::partition::{partition, partition_spec};
use crate::worker::{hits, record_of, SearchOutcome, SearchWorker, WorkerEvent, WorkerView};

verus! {

/// Number of workers that scanned their whole chunk without a match.
pub open spec fn count_exhausted(ws: Seq<WorkerView>) -> nat
    decreases ws.len(),
{
    if ws.len() == 0 {
        0
    } else {
        count_exhausted(ws.drop_last()) + if ws.last().exhausted {
            1nat
        } else {
            0nat
        }
    }
}

/// Number of workers that found a match.
pub open spec fn count_matched(ws: Seq<WorkerView>) -> nat
    decreases ws.len(),
{
    if ws.len() == 0 {
        0
    } else {
        count_matched(ws.drop_last()) + if ws.last().matched is Some {
            1nat
        } else {
            0nat
        }
    }
}

/// Number of workers that gave up because the search had stopped.
pub open spec fn count_cancelled(ws: Seq<WorkerView>) -> nat
    decreases ws.len(),
{
    if ws.len() == 0 {
        0
    } else {
        count_cancelled(ws.drop_last()) + if ws.last().cancelled() {
            1nat
        } else {
            0nat
        }
    }
}

proof fn lemma_counts_partition(ws: Seq<WorkerView>)
    requires
        forall|i: int| 0 <= i < ws.len() ==> (#[trigger] ws[i]).wf() && ws[i].done,
    ensures
        count_exhausted(ws) + count_matched(ws) + count_cancelled(ws) == ws.len(),
    decreases ws.len(),
{
    if ws.len() > 0 {
        let init = ws.drop_last();
        assert forall|i: int| 0 <= i < init.len() implies (#[trigger] init[i]).wf() && init[i].done by {
            assert(init[i] == ws[i]);
        }
        lemma_counts_partition(init);
        assert(ws[ws.len() - 1].wf());
    }
}

/// Some worker found a match.
pub open spec fn any_matched(ws: Seq<WorkerView>) -> bool {
    exists|i: int| 0 <= i < ws.len() && (#[trigger] ws[i]).matched is Some
}

/// The workers' local indexes, one after another in worker order.
pub open spec fn local_indexes(ws: Seq<WorkerView>) -> Seq<Seq<(Seq<char>, Seq<char>)>> {
    ws.map_values(|w: WorkerView| w.local_index)
}

/// What one step of worker `w0` does against cancellation state `c0`,
/// giving `w1`, `c1` and event `ev`. A done worker does nothing. Otherwise
/// it gives up if the search has stopped; reports exhaustion once its chunk
/// is used up, which the state counts; or scans its next word, and a match
/// stops the search.
pub open spec fn step_effect(
    w0: WorkerView,
    c0: CancellationView,
    w1: WorkerView,
    c1: CancellationView,
    ev: WorkerEvent,
) -> bool {
    if w0.done {
        ev == WorkerEvent::Idle && w1 == w0 && c1 == c0
    } else if c0.stopped {
        ev == WorkerEvent::Cancelled && w1 == (WorkerView { done: true, ..w0 }) && c1 == c0
    } else if w0.pos == w0.chunk.len() {
        &&& ev == WorkerEvent::Exhausted
        &&& w1 == (WorkerView { done: true, exhausted: true, ..w0 })
        &&& c1.exhausted_count == c0.exhausted_count + 1
        &&& c1.worker_count == c0.worker_count
        &&& c1.stopped == (c1.exhausted_count == c1.worker_count)
    } else {
        let line = w0.chunk[w0.pos as int];
        let hit = hits(w0.hash_type, w0.target, line);
        &&& w1.same_task(w0)
        &&& w1.pos == w0.pos + 1
        &&& w1.local_index == if w0.build_index {
            w0.local_index.push(record_of(w0.hash_type, line))
        } else {
            w0.local_index
        }
        &&& w1.done == hit
        &&& !w1.exhausted
        &&& w1.matched == if hit {
            Some(trimmed(line))
        } else {
            None
        }
        &&& if hit {
            ev == WorkerEvent::Found && c1 == (CancellationView { stopped: true, ..c0 })
        } else {
            ev == WorkerEvent::Continue && c1 == c0
        }
    }
}

/// Abstract state of a whole search.
pub struct SearchStateView {
    pub coord: CancellationView,
    pub workers: Seq<WorkerView>,
}

impl SearchStateView {
    /// The coordinator agrees with the workers: it counts exactly the
    /// exhausted ones, it has stopped exactly when one matched or all are
    /// exhausted, and no worker gave up while it was running.
    pub open spec fn wf(self) -> bool {
        &&& self.coord.exhausted_count <= self.coord.worker_count
        &&& self.coord.worker_count == self.workers.len()
        &&& forall|i: int| 0 <= i < self.workers.len() ==> (#[trigger] self.workers[i]).wf()
        &&& self.coord.exhausted_count == count_exhausted(self.workers)
        &&& self.coord.stopped == (any_matched(self.workers) || self.coord.exhausted_count
            == self.workers.len())
        &&& forall|i: int|
            0 <= i < self.workers.len() && (#[trigger] self.workers[i]).cancelled()
                ==> self.coord.stopped
    }
}

/// All workers of one search together with their cancellation state. Any
/// worker may take the next step, in any order, as threads would.
pub struct SearchState {
    coord: CancellationState,
    workers: Vec<SearchWorker>,
}

impl View for SearchState {
    type V = SearchStateView;

    closed spec fn view(&self) -> SearchStateView {
        SearchStateView {
            coord: self.coord@,
            workers: self.workers@.map_values(|w: SearchWorker| w@),
        }
    }
}

proof fn lemma_count_bounds(ws: Seq<WorkerView>)
    ensures
        count_exhausted(ws) <= ws.len(),
        count_exhausted(ws) == ws.len() ==> forall|i: int|
            0 <= i < ws.len() ==> (#[trigger] ws[i]).exhausted,
        (forall|i: int| 0 <= i < ws.len() ==> !(#[trigger] ws[i]).exhausted) ==> count_exhausted(ws)
            == 0,
    decreases ws.len(),
{
    if ws.len() > 0 {
        let init = ws.drop_last();
        lemma_count_bounds(init);
        assert forall|i: int| 0 <= i < init.len() implies init[i] == ws[i] by {}
        if count_exhausted(ws) == ws.len() {
            assert forall|i: int| 0 <= i < ws.len() implies (#[trigger] ws[i]).exhausted by {
                if i < init.len() {
                    assert(init[i] == ws[i]);
                }
            }
        }
    }
}

proof fn lemma_count_update(ws: Seq<WorkerView>, i: int, w: WorkerView)
    requires
        0 <= i < ws.len(),
    ensures
        count_exhausted(ws.update(i, w)) == count_exhausted(ws) - (if ws[i].exhausted {
            1int
        } else {
            0int
        }) + (if w.exhausted {
            1int
        } else {
            0int
        }),
    decreases ws.len(),
{
    let u = ws.update(i, w);
    if i == ws.len() - 1 {
        assert(u.drop_last() =~= ws.drop_last());
    } else {
        lemma_count_update(ws.drop_last(), i, w);
        assert(u.drop_last() =~= ws.drop_last().update(i, w));
    }
}

impl SearchState {
    /// Splits `words` among at most `worker_count` workers, none started yet.
    pub fn new(
        words: &Vec<String>,
        worker_count: usize,
        target: &String,
        hash_type: HashType,
        build_index: bool,
    ) -> (r: SearchState)
        requires
            worker_count >= 1,
        ensures
            r@.wf(),
            r@.workers.len() == partition_spec(words.deep_view(), worker_count as nat).len(),
            forall|i: int|
                0 <= i < r@.workers.len() ==> {
                    &&& (#[trigger] r@.workers[i]).chunk == partition_spec(
                        words.deep_view(),
                        worker_count as nat,
                    )[i]
                    &&& r@.workers[i].hash_type == hash_type
                    &&& r@.workers[i].target == target@
                    &&& r@.workers[i].build_index == build_index
                    &&& r@.workers[i].pos == 0
                    &&& !r@.workers[i].done
                },
    {
        let mut chunks = partition(words, worker_count);
        let ghost parts = chunks.deep_view();
        let n = chunks.len();
        let mut rev: Vec<SearchWorker> = Vec::new();
        // Workers are built from the last chunk back, then put in order.
        while chunks.len() > 0
            invariant
                parts.len() == n,
                chunks.len() + rev.len() == n,
                chunks.deep_view() == parts.take(chunks.len() as int),
                forall|j: int|
                    0 <= j < rev.len() ==> {
                        &&& (#[trigger] rev@[j])@.wf()
                        &&& rev@[j]@.chunk == parts[n - 1 - j]
                        &&& rev@[j]@.hash_type == hash_type
                        &&& rev@[j]@.target == target@
                        &&& rev@[j]@.build_index == build_index
                        &&& rev@[j]@.pos == 0
                        &&& !rev@[j]@.done
                        &&& rev@[j]@.matched is None
                        &&& !rev@[j]@.exhausted
                    },
            decreases chunks.len(),
        {
            let ghost before = chunks.deep_view();
            let chunk = chunks.pop().unwrap();
            proof {
                assert(chunks.deep_view() =~= before.drop_last());
                assert(chunk.deep_view() == before.last());
                assert(parts.take(chunks.len() as int) =~= before.drop_last());
            }
            let w = SearchWorker::new(chunk, hash_type, target.clone(), build_index);
            rev.push(w);
        }
        let mut workers: Vec<SearchWorker> = Vec::new();
        while rev.len() > 0
            invariant
                parts.len() == n,
                rev.len() + workers.len() == n,
                forall|j: int|
                    0 <= j < rev.len() ==> {
                        &&& (#[trigger] rev@[j])@.wf()
                        &&& rev@[j]@.chunk == parts[n - 1 - j]
                        &&& rev@[j]@.hash_type == hash_type
                        &&& rev@[j]@.target == target@
                        &&& rev@[j]@.build_index == build_index
                        &&& rev@[j]@.pos == 0
                        &&& !rev@[j]@.done
                        &&& rev@[j]@.matched is None
                        &&& !rev@[j]@.exhausted
                    },
                forall|j: int|
                    0 <= j < workers.len() ==> {
                        &&& (#[trigger] workers@[j])@.wf()
                        &&& workers@[j]@.chunk == parts[j]
                        &&& workers@[j]@.hash_type == hash_type
                        &&& workers@[j]@.target == target@
                        &&& workers@[j]@.build_index == build_index
                        &&& workers@[j]@.pos == 0
                        &&& !workers@[j]@.done
                        &&& workers@[j]@.matched is None
                        &&& !workers@[j]@.exhausted
                    },
            decreases rev.len(),
        {
            let ghost last = rev.len() - 1;
            let w = rev.pop().unwrap();
            proof {
                assert(rev@.len() == last);
            }
            workers.push(w);
        }
        let coord = CancellationState::new(n);
        let r = SearchState { coord, workers };
        proof {
            let ws = r@.workers;
            assert forall|i: int| 0 <= i < ws.len() implies !(#[trigger] ws[i]).exhausted by {
                assert(ws[i] == r.workers@[i]@);
            }
            lemma_count_bounds(ws);
            if any_matched(ws) {
                let i = choose|i: int| 0 <= i < ws.len() && (#[trigger] ws[i]).matched is Some;
                assert(ws[i] == r.workers@[i]@);
            }
            assert forall|i: int| 0 <= i < ws.len() implies (#[trigger] ws[i]).wf() by {
                assert(ws[i] == r.workers@[i]@);
            }
            assert forall|i: int| 0 <= i < ws.len() && (#[trigger] ws[i]).cancelled() implies r@.coord.stopped by {
                assert(ws[i] == r.workers@[i]@);
            }
            assert forall|i: int| 0 <= i < ws.len() implies {
                &&& (#[trigger] ws[i]).chunk == partition_spec(words.deep_view(), worker_count as nat)[i]
                &&& ws[i].hash_type == hash_type
                &&& ws[i].target == target@
                &&& ws[i].build_index == build_index
                &&& ws[i].pos == 0
                &&& !ws[i].done
            } by {
                assert(ws[i] == r.workers@[i]@);
            }
        }
        r
    }

    pub fn worker_count(&self) -> (r: usize)
        ensures
            r == self@.workers.len(),
    {
        self.workers.len()
    }

    pub fn is_stopped(&self) -> (r: bool)
        ensures
            r == self@.coord.stopped,
    {
        self.coord.is_stopped()
    }

    pub fn exhausted_count(&self) -> (r: usize)
        ensures
            r == self@.coord.exhausted_count,
    {
        self.coord.exhausted_count()
    }

    /// Lets worker `i` take one step against the current cancellation state,
    /// then reports a match or an exhaustion to it.
    pub fn step_worker(&mut self, i: usize) -> (ev: WorkerEvent)
        requires
            old(self)@.wf(),
            i < old(self)@.workers.len(),
        ensures
            final(self)@.wf(),
            final(self)@.workers.len() == old(self)@.workers.len(),
            forall|j: int|
                0 <= j < old(self)@.workers.len() && j != i ==> final(self)@.workers[j]
                    == old(self)@.workers[j],
            step_effect(
                old(self)@.workers[i as int],
                old(self)@.coord,
                final(self)@.workers[i as int],
                final(self)@.coord,
                ev,
            ),
    {
        let ghost old_ws = self@.workers;
        let ghost old_coord = self@.coord;
        let stopped = self.coord.is_stopped();
        let mut w = self.workers.remove(i);
        proof {
            assert(w@ == old_ws[i as int]);
        }
        let ev = w.step(stopped);
        let ghost nw = w@;
        self.workers.insert(i, w);
        match ev {
            WorkerEvent::Found => {
                self.coord.signal_found();
            },
            WorkerEvent::Exhausted => {
                self.coord.signal_exhausted();
            },
            _ => {},
        }
        proof {
            let ws = self@.workers;
            assert(ws =~= old_ws.update(i as int, nw)) by {
                assert forall|j: int| 0 <= j < ws.len() implies ws[j] == old_ws.update(i as int, nw)[j] by {
                    assert(ws[j] == self.workers@[j]@);
                }
            }
            lemma_count_update(old_ws, i as int, nw);
            lemma_count_bounds(ws);
            lemma_count_bounds(old_ws);
            if any_matched(old_ws) {
                let k = choose|k: int| 0 <= k < old_ws.len() && (#[trigger] old_ws[k]).matched is Some;
                assert(old_ws[k].done);
                if k == i {
                    assert(ws[k] == old_ws[k]);
                }
                assert(ws[k].matched is Some);
            }
            if ev == WorkerEvent::Found {
                assert(ws[i as int].matched is Some);
            }
            if any_matched(ws) {
                let k = choose|k: int| 0 <= k < ws.len() && (#[trigger] ws[k]).matched is Some;
                if k != i {
                    assert(old_ws[k].matched is Some);
                }
            }
        }
        ev
    }

    /// Hands back every worker's outcome, in partition order.
    pub fn into_outcomes(self) -> (r: Vec<SearchOutcome>)
        ensures
            r@.len() == self@.workers.len(),
            outcome_records(r@) == local_indexes(self@.workers),
            forall|i: int|
                0 <= i < r@.len() ==> {
                    &&& crate::worker::opt_view((#[trigger] r@[i]).matched) == self@.workers[i].matched
                    &&& r@[i].exhausted == self@.workers[i].exhausted
                    &&& crate::index::records_view(r@[i].local_index@) == self@.workers[i].local_index
                },
    {
        let ghost ws = self@.workers;
        let mut workers = self.workers;
        let mut rev: Vec<SearchOutcome> = Vec::new();
        while workers.len() > 0
            invariant
                workers.len() + rev.len() == ws.len(),
                forall|j: int| 0 <= j < workers.len() ==> (#[trigger] workers@[j])@ == ws[j],
                forall|j: int|
                    0 <= j < rev.len() ==> {
                        let k = ws.len() - 1 - j;
                        &&& crate::worker::opt_view((#[trigger] rev@[j]).matched) == ws[k].matched
                        &&& rev@[j].exhausted == ws[k].exhausted
                        &&& crate::index::records_view(rev@[j].local_index@) == ws[k].local_index
                    },
            decreases workers.len(),
        {
            let w = workers.pop().unwrap();
            rev.push(w.into_outcome());
        }
        let mut r: Vec<SearchOutcome> = Vec::new();
        while rev.len() > 0
            invariant
                rev.len() + r.len() == ws.len(),
                forall|j: int|
                    0 <= j < rev.len() ==> {
                        let k = ws.len() - 1 - j;
                        &&& crate::worker::opt_view((#[trigger] rev@[j]).matched) == ws[k].matched
                        &&& rev@[j].exhausted == ws[k].exhausted
                        &&& crate::index::records_view(rev@[j].local_index@) == ws[k].local_index
                    },
                forall|j: int|
                    0 <= j < r.len() ==> {
                        &&& crate::worker::opt_view((#[trigger] r@[j]).matched) == ws[j].matched
                        &&& r@[j].exhausted == ws[j].exhausted
                        &&& crate::index::records_view(r@[j].local_index@) == ws[j].local_index
                    },
            decreases rev.len(),
        {
            let o = rev.pop().unwrap();
            r.push(o);
        }
        proof {
            assert(outcome_records(r@) =~= local_indexes(ws));
        }
        r
    }
}

/// Whatever order the workers stepped in, writing the workers' local indexes
/// out as lines, in worker order, and reading them back gives the same
/// records in the same order.
pub proof fn lemma_state_index_round_trip(s: SearchStateView)
    requires
        s.wf(),
    ensures
        parse_lines(
            local_indexes(s.workers).flatten().map_values(
                |x: (Seq<char>, Seq<char>)| record_line(x),
            ),
        ) == local_indexes(s.workers).flatten(),
{
    let parts = local_indexes(s.workers);
    assert forall|i: int| 0 <= i < parts.len() implies colon_free(#[trigger] parts[i]) by {
        let w = s.workers[i];
        assert(w.wf());
        assert forall|k: int, q: int|
            0 <= k < parts[i].len() && 0 <= q < parts[i][k].0.len() implies #[trigger] parts[i][k].0[q]
            != ':' by {
            assert(w.chunk.take(w.pos as int)[k] == w.chunk[k]);
            assert(is_lower_hex(record_of(w.hash_type, w.chunk[k]).0));
            assert(is_hex_digit(parts[i][k].0[q]));
        }
    }
    lemma_colon_free_flatten(parts);
    lemma_index_round_trip(parts.flatten());
}

/// Whatever order the workers stepped in, a search that stopped with no
/// match had every worker scan its whole chunk without finding the target,
/// and counted each of them as exhausted.
pub proof fn lemma_stop_without_match(s: SearchStateView)
    requires
        s.wf(),
        s.coord.stopped,
        !any_matched(s.workers),
    ensures
        s.coord.exhausted_count == s.workers.len(),
        forall|i: int|
            0 <= i < s.workers.len() ==> {
                let w = #[trigger] s.workers[i];
                &&& w.exhausted
                &&& forall|j: int| 0 <= j < w.chunk.len() ==> !hits(w.hash_type, w.target, #[trigger] w.chunk[j])
            },
{
    lemma_count_bounds(s.workers);
    assert forall|i: int| 0 <= i < s.workers.len() implies {
        let w = #[trigger] s.workers[i];
        &&& w.exhausted
        &&& forall|j: int| 0 <= j < w.chunk.len() ==> !hits(w.hash_type, w.target, #[trigger] w.chunk[j])
    } by {
        let w = s.workers[i];
        assert(w.wf());
        assert(w.matched is None);
        assert(w.clean_len() == w.chunk.len());
    }
}

/// Whatever order the workers stepped in, the count of exhausted workers is
/// exactly the number of workers that scanned their whole chunk, which is
/// below the number of workers once one matched; when every worker is done,
/// it is the number of workers less those that matched and those that gave up.
pub proof fn lemma_exhaustion_accounting(s: SearchStateView)
    requires
        s.wf(),
    ensures
        s.coord.exhausted_count == count_exhausted(s.workers),
        s.coord.exhausted_count <= s.workers.len(),
        any_matched(s.workers) ==> s.coord.exhausted_count < s.workers.len(),
        (forall|i: int| 0 <= i < s.workers.len() ==> (#[trigger] s.workers[i]).done)
            ==> s.coord.exhausted_count == s.workers.len() - count_matched(s.workers)
            - count_cancelled(s.workers),
{
    lemma_count_bounds(s.workers);
    if forall|i: int| 0 <= i < s.workers.len() ==> (#[trigger] s.workers[i]).done {
        lemma_counts_partition(s.workers);
    }
    if any_matched(s.workers) {
        let k = choose|k: int| 0 <= k < s.workers.len() && (#[trigger] s.workers[k]).matched is Some;
        assert(s.workers[k].wf());
        assert(!s.workers[k].exhausted);
    }
}

} // verus!
