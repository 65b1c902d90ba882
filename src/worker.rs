use vstd::prelude::*;

use crate::coordinator::CancellationState;
use crate::digest::{digest, digest_of, is_lower_hex, trim_word, trimmed};
use crate::hash_type::HashType;
use crate::index::{hex_digests, records_view, IndexRecord};

verus! {

/// Whether the raw dictionary line `line`, once trimmed, has digest `target`.
pub open spec fn hits(t: HashType, target: Seq<char>, line: Seq<char>) -> bool {
    digest_of(t, trimmed(line)) == target
}

/// The index record of one raw dictionary line.
pub open spec fn record_of(t: HashType, line: Seq<char>) -> (Seq<char>, Seq<char>) {
    (digest_of(t, trimmed(line)), trimmed(line))
}

/// The index records of a run of raw dictionary lines, in order.
pub open spec fn index_of(t: HashType, lines: Seq<Seq<char>>) -> Seq<(Seq<char>, Seq<char>)> {
    lines.map_values(|l: Seq<char>| record_of(t, l))
}

pub open spec fn opt_view(o: Option<String>) -> Option<Seq<char>> {
    match o {
        Some(w) => Some(w@),
        None => None,
    }
}

/// What one step of a worker did.
#[derive(Clone, Copy, Debug, PartialEq, Eq, Structural)]
pub enum WorkerEvent {
    /// A word was scanned and did not match.
    Continue,
    /// A word was scanned and matched; the worker is done.
    Found,
    /// The whole chunk was scanned without a match; the worker is done.
    Exhausted,
    /// The search had stopped; the worker gave up its remaining words.
    Cancelled,
    /// The worker was already done.
    Idle,
}

/// What a worker hands back once it is done.
pub struct SearchOutcome {
    pub matched: Option<String>,
    pub exhausted: bool,
    pub local_index: Vec<IndexRecord>,
}

/// Abstract state of a worker.
pub struct WorkerView {
    pub chunk: Seq<Seq<char>>,
    pub hash_type: HashType,
    pub target: Seq<char>,
    pub build_index: bool,
    pub pos: nat,
    pub local_index: Seq<(Seq<char>, Seq<char>)>,
    pub matched: Option<Seq<char>>,
    pub exhausted: bool,
    pub done: bool,
}

impl WorkerView {
    /// Number of scanned words known not to match.
    pub open spec fn clean_len(self) -> nat {
        if self.matched is Some {
            (self.pos - 1) as nat
        } else {
            self.pos
        }
    }

    pub open spec fn wf(self) -> bool {
        &&& self.pos <= self.chunk.len()
        &&& self.local_index == if self.build_index {
            index_of(self.hash_type, self.chunk.take(self.pos as int))
        } else {
            Seq::empty()
        }
        &&& forall|j: int|
            0 <= j < self.clean_len() ==> !hits(self.hash_type, self.target, #[trigger] self.chunk[j])
        &&& forall|j: int|
            0 <= j < self.pos ==> is_lower_hex(record_of(self.hash_type, #[trigger] self.chunk[j]).0)
        &&& self.matched is Some ==> {
            &&& self.done
            &&& !self.exhausted
            &&& self.pos >= 1
            &&& self.matched->Some_0 == trimmed(self.chunk[self.pos - 1])
            &&& hits(self.hash_type, self.target, self.chunk[self.pos - 1])
        }
        &&& self.exhausted ==> self.done && self.pos == self.chunk.len()
        &&& !self.done ==> self.matched is None && !self.exhausted
    }

    /// Same chunk, algorithm, target and indexing mode.
    pub open spec fn same_task(self, other: WorkerView) -> bool {
        &&& self.chunk == other.chunk
        &&& self.hash_type == other.hash_type
        &&& self.target == other.target
        &&& self.build_index == other.build_index
    }

    /// Done without a match and without scanning everything.
    pub open spec fn cancelled(self) -> bool {
        self.done && self.matched is None && !self.exhausted
    }
}

/// Scans one chunk of the wordlist, one word per step.
pub struct SearchWorker {
    chunk: Vec<String>,
    hash_type: HashType,
    target: String,
    build_index: bool,
    pos: usize,
    local_index: Vec<IndexRecord>,
    matched: Option<String>,
    exhausted: bool,
    done: bool,
}

impl View for SearchWorker {
    type V = WorkerView;

    closed spec fn view(&self) -> WorkerView {
        WorkerView {
            chunk: self.chunk.deep_view(),
            hash_type: self.hash_type,
            target: self.target@,
            build_index: self.build_index,
            pos: self.pos as nat,
            local_index: records_view(self.local_index@),
            matched: opt_view(self.matched),
            exhausted: self.exhausted,
            done: self.done,
        }
    }
}

impl SearchWorker {
    /// A worker that has not scanned anything yet.
    pub fn new(chunk: Vec<String>, hash_type: HashType, target: String, build_index: bool) -> (r:
        SearchWorker)
        ensures
            r@.wf(),
            r@.chunk == chunk.deep_view(),
            r@.hash_type == hash_type,
            r@.target == target@,
            r@.build_index == build_index,
            r@.pos == 0,
            r@.local_index == Seq::<(Seq<char>, Seq<char>)>::empty(),
            r@.matched is None,
            !r@.exhausted,
            !r@.done,
    {
        let r = SearchWorker {
            chunk,
            hash_type,
            target,
            build_index,
            pos: 0,
            local_index: Vec::new(),
            matched: None,
            exhausted: false,
            done: false,
        };
        proof {
            assert(r@.chunk.take(0) =~= Seq::<Seq<char>>::empty());
            assert(records_view(r.local_index@) =~= Seq::<(Seq<char>, Seq<char>)>::empty());
            assert(index_of(hash_type, r@.chunk.take(0)) =~= Seq::<(Seq<char>, Seq<char>)>::empty());
        }
        r
    }

    pub fn is_done(&self) -> (r: bool)
        ensures
            r == self@.done,
    {
        self.done
    }

    /// Takes one step. A done worker does nothing. Otherwise, if the search
    /// has `stopped`, the worker gives up; if its chunk is used up, it reports
    /// exhaustion; else it scans the next word, recording its digest first when
    /// indexing, and reports whether that word matched.
    pub fn step(&mut self, stopped: bool) -> (ev: WorkerEvent)
        requires
            old(self)@.wf(),
        ensures
            final(self)@.wf(),
            final(self)@.same_task(old(self)@),
            old(self)@.done ==> ev == WorkerEvent::Idle && final(self)@ == old(self)@,
            !old(self)@.done && stopped ==> ev == WorkerEvent::Cancelled && final(self)@ == (
            WorkerView { done: true, ..old(self)@ }),
            !old(self)@.done && !stopped && old(self)@.pos == old(self)@.chunk.len() ==> ev
                == WorkerEvent::Exhausted && final(self)@ == (WorkerView {
                done: true,
                exhausted: true,
                ..old(self)@
            }),
            !old(self)@.done && !stopped && old(self)@.pos < old(self)@.chunk.len() ==> {
                let line = old(self)@.chunk[old(self)@.pos as int];
                let hit = hits(old(self)@.hash_type, old(self)@.target, line);
                &&& final(self)@.pos == old(self)@.pos + 1
                &&& final(self)@.local_index == if old(self)@.build_index {
                    old(self)@.local_index.push(record_of(old(self)@.hash_type, line))
                } else {
                    old(self)@.local_index
                }
                &&& !final(self)@.exhausted
                &&& final(self)@.done == hit
                &&& final(self)@.matched == if hit {
                    Some(trimmed(line))
                } else {
                    None
                }
                &&& ev == if hit {
                    WorkerEvent::Found
                } else {
                    WorkerEvent::Continue
                }
            },
    {
        if self.done {
            return WorkerEvent::Idle;
        }
        if stopped {
            self.done = true;
            return WorkerEvent::Cancelled;
        }
        if self.pos == self.chunk.len() {
            self.done = true;
            self.exhausted = true;
            return WorkerEvent::Exhausted;
        }
        let ghost old_view = self@;
        let word = trim_word(self.chunk[self.pos].as_str());
        let d = digest(self.hash_type, word.as_str());
        proof {
            assert(self.chunk[self.pos as int]@ == old_view.chunk[self.pos as int]);
        }
        if self.build_index {
            let ghost old_index = self.local_index@;
            self.local_index.push(IndexRecord { digest: d.clone(), word: word.clone() });
            proof {
                assert(records_view(self.local_index@) =~= records_view(old_index).push(
                    record_of(old_view.hash_type, old_view.chunk[old_view.pos as int]),
                ));
            }
        }
        self.pos = self.pos + 1;
        proof {
            if old_view.build_index {
                assert(old_view.chunk.take(self.pos as int) =~= old_view.chunk.take(
                    old_view.pos as int,
                ).push(old_view.chunk[old_view.pos as int]));
                assert(index_of(old_view.hash_type, old_view.chunk.take(self.pos as int))
                    =~= index_of(old_view.hash_type, old_view.chunk.take(old_view.pos as int)).push(
                    record_of(old_view.hash_type, old_view.chunk[old_view.pos as int]),
                ));
            }
        }
        if d == self.target {
            self.matched = Some(word);
            self.done = true;
            WorkerEvent::Found
        } else {
            WorkerEvent::Continue
        }
    }

    /// Scans until done, polling `coord` before every word and reporting a
    /// match or the exhaustion of the chunk to it.
    pub fn run(&mut self, coord: &mut CancellationState)
        requires
            old(self)@.wf(),
            !old(self)@.done,
            old(self)@.pos == 0,
            old(coord).wf(),
        ensures
            final(self)@.wf(),
            final(self)@.same_task(old(self)@),
            final(self)@.done,
            final(coord).wf(),
            final(coord)@.worker_count == old(coord)@.worker_count,
            old(coord)@.stopped ==> final(self)@ == (WorkerView { done: true, ..old(self)@ })
                && final(coord)@ == old(coord)@,
            !old(coord)@.stopped ==> {
                &&& (final(self)@.matched is Some <==> exists|j: int|
                    0 <= j < old(self)@.chunk.len() && hits(
                        old(self)@.hash_type,
                        old(self)@.target,
                        #[trigger] old(self)@.chunk[j],
                    ))
                &&& final(self)@.matched is None ==> final(self)@.exhausted
                &&& final(self)@.matched is Some ==> final(coord)@.stopped
                    && final(coord)@.exhausted_count == old(coord)@.exhausted_count
                &&& final(self)@.exhausted ==> {
                    &&& old(coord)@.exhausted_count < old(coord)@.worker_count ==> final(coord)@.exhausted_count
                        == old(coord)@.exhausted_count + 1
                    &&& old(coord)@.exhausted_count == old(coord)@.worker_count ==> final(coord)@
                        == old(coord)@
                    &&& final(coord)@.stopped == (final(coord)@.exhausted_count
                        == final(coord)@.worker_count)
                }
            },
    {
        let ghost start = self@;
        let ghost coord0 = coord@;
        while !self.is_done()
            invariant
                self@.wf(),
                self@.same_task(start),
                coord.wf(),
                coord@.worker_count == coord0.worker_count,
                !self@.done ==> coord@ == coord0,
                coord0.stopped && !self@.done ==> self@ == start,
                coord0.stopped && self@.done ==> self@ == (WorkerView { done: true, ..start })
                    && coord@ == coord0,
                !coord0.stopped ==> !self@.cancelled(),
                !coord0.stopped && self@.matched is Some ==> coord@.stopped
                    && coord@.exhausted_count == coord0.exhausted_count,
                !coord0.stopped && self@.exhausted ==> {
                    &&& coord0.exhausted_count < coord0.worker_count ==> coord@.exhausted_count
                        == coord0.exhausted_count + 1
                    &&& coord0.exhausted_count == coord0.worker_count ==> coord@ == coord0
                    &&& coord@.stopped == (coord@.exhausted_count == coord@.worker_count)
                },
            decreases self@.chunk.len() - self@.pos + if self@.done { 0int } else { 1int },
        {
            let stopped = coord.is_stopped();
            let ev = self.step(stopped);
            match ev {
                WorkerEvent::Found => {
                    coord.signal_found();
                },
                WorkerEvent::Exhausted => {
                    coord.signal_exhausted();
                },
                _ => {},
            }
        }
        proof {
            if !coord0.stopped {
                if self@.matched is Some {
                    let j = self@.pos - 1;
                    assert(hits(start.hash_type, start.target, start.chunk[j]));
                } else {
                    assert forall|j: int| 0 <= j < start.chunk.len() implies !hits(
                        start.hash_type,
                        start.target,
                        #[trigger] start.chunk[j],
                    ) by {
                        assert(self@.clean_len() == start.chunk.len());
                    }
                }
            }
        }
    }

    /// Hands back what the worker found and recorded.
    pub fn into_outcome(self) -> (r: SearchOutcome)
        ensures
            opt_view(r.matched) == self@.matched,
            r.exhausted == self@.exhausted,
            records_view(r.local_index@) == self@.local_index,
    {
        SearchOutcome { matched: self.matched, exhausted: self.exhausted, local_index: self.local_index }
    }
}

} // verus!

verus! {

/// A well-formed worker's local index holds only lowercase hex digests.
pub(crate) proof fn lemma_index_hex(v: WorkerView)
    requires
        v.wf(),
    ensures
        hex_digests(v.local_index),
{
    if v.build_index {
        assert forall|k: int| 0 <= k < v.local_index.len() implies is_lower_hex(
            #[trigger] v.local_index[k].0,
        ) by {
            assert(v.chunk.take(v.pos as int)[k] == v.chunk[k]);
        }
    }
}

} // verus!
