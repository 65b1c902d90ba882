use vstd::prelude::*;

use crate::coordinator::CancellationState;
use crate::digest::{digest_of, trimmed};
use crate::hash_type::HashType;
use crate::index::{
    aggregate, colon_free, hex_digests, lemma_colon_free_flatten, lemma_hex_colon_free, lookup,
    lookup_spec, outcome_records, records_view, IndexRecord,
};
use crate::partition::{lemma_partition_coverage, partition, partition_spec};
use crate::worker::{hits, index_of, lemma_index_hex, opt_view, SearchOutcome, SearchWorker};

verus! {

/// No line of `lines` has digest `target` once trimmed.
pub open spec fn no_hits(t: HashType, target: Seq<char>, lines: Seq<Seq<char>>) -> bool {
    forall|j: int| 0 <= j < lines.len() ==> !hits(t, target, #[trigger] lines[j])
}

/// A line of `lines` has digest `target` once trimmed.
pub open spec fn some_hit(t: HashType, target: Seq<char>, lines: Seq<Seq<char>>) -> bool {
    exists|j: int| 0 <= j < lines.len() && hits(t, target, #[trigger] lines[j])
}

/// `o` is the outcome of a worker that scanned `chunk` and stopped at its first
/// match, at index `p`.
pub open spec fn matched_at(
    o: SearchOutcome,
    t: HashType,
    target: Seq<char>,
    build_index: bool,
    chunk: Seq<Seq<char>>,
    p: int,
) -> bool {
    &&& 0 <= p < chunk.len()
    &&& hits(t, target, chunk[p])
    &&& no_hits(t, target, chunk.take(p))
    &&& opt_view(o.matched) == Some(trimmed(chunk[p]))
    &&& !o.exhausted
    &&& hex_digests(records_view(o.local_index@))
    &&& records_view(o.local_index@) == if build_index {
        index_of(t, chunk.take(p + 1))
    } else {
        Seq::empty()
    }
}

/// `o` is the outcome of a worker that scanned all of `chunk` without a match.
pub open spec fn exhausted_on(
    o: SearchOutcome,
    t: HashType,
    target: Seq<char>,
    build_index: bool,
    chunk: Seq<Seq<char>>,
) -> bool {
    &&& no_hits(t, target, chunk)
    &&& o.matched is None
    &&& o.exhausted
    &&& hex_digests(records_view(o.local_index@))
    &&& records_view(o.local_index@) == if build_index {
        index_of(t, chunk)
    } else {
        Seq::empty()
    }
}

/// `o` is the outcome of a worker that saw the search stopped before its first word.
pub open spec fn cancelled_outcome(o: SearchOutcome) -> bool {
    &&& o.matched is None
    &&& !o.exhausted
    &&& o.local_index@.len() == 0
}

/// The result of one search over a wordlist.
pub struct SearchReport {
    /// The matching word, trimmed, if some worker found one.
    pub matched: Option<String>,
    /// How many workers scanned their whole chunk without a match.
    pub exhausted_count: usize,
    /// How many workers the wordlist was split among.
    pub worker_count: usize,
    /// Each worker's outcome, in partition order.
    pub outcomes: Vec<SearchOutcome>,
}

/// What a search over the lines `s` with `k` workers reports: a match exactly
/// when some line matches; on a match, the first worker in partition order
/// whose chunk holds one stopped at its first matching line, every worker
/// before it scanned its whole chunk, and every worker after it gave up;
/// without one, every worker scanned its whole chunk. The number of exhausted
/// workers is counted exactly.
pub open spec fn search_result(
    s: Seq<Seq<char>>,
    k: nat,
    target: Seq<char>,
    t: HashType,
    build_index: bool,
    r: SearchReport,
) -> bool {
    let parts = partition_spec(s, k);
    &&& r.worker_count == parts.len()
    &&& r.worker_count <= k
    &&& r.outcomes@.len() == parts.len()
    &&& r.exhausted_count <= r.worker_count
    &&& some_hit(t, target, s) <==> r.matched is Some
    &&& r.matched is None ==> {
        &&& r.exhausted_count == r.worker_count
        &&& forall|i: int|
            0 <= i < parts.len() ==> exhausted_on(
                #[trigger] r.outcomes@[i],
                t,
                target,
                build_index,
                parts[i],
            )
    }
    &&& r.matched is Some ==> {
        &&& digest_of(t, r.matched->Some_0@) == target
        &&& exists|m: int, p: int|
            {
                &&& 0 <= m < parts.len()
                &&& r.exhausted_count == m
                &&& matched_at(r.outcomes@[m], t, target, build_index, parts[m], p)
                &&& opt_view(r.matched) == Some(trimmed(parts[m][p]))
                &&& forall|i: int|
                    0 <= i < m ==> exhausted_on(
                        #[trigger] r.outcomes@[i],
                        t,
                        target,
                        build_index,
                        parts[i],
                    )
                &&& forall|i: int| m < i < parts.len() ==> cancelled_outcome(#[trigger] r.outcomes@[i])
            }
    }
}

fn clone_words(v: &Vec<String>) -> (r: Vec<String>)
    ensures
        r.deep_view() == v.deep_view(),
{
    let mut r: Vec<String> = Vec::new();
    let mut i: usize = 0;
    while i < v.len()
        invariant
            i <= v.len(),
            r.deep_view() == v.deep_view().take(i as int),
        decreases v.len() - i,
    {
        let ghost before = r.deep_view();
        r.push(v[i].clone());
        proof {
            assert(r.deep_view() =~= before.push(v.deep_view()[i as int]));
            assert(v.deep_view().take(i + 1) =~= v.deep_view().take(i as int).push(
                v.deep_view()[i as int],
            ));
        }
        i = i + 1;
    }
    proof {
        assert(v.deep_view().take(v.len() as int) =~= v.deep_view());
    }
    r
}

proof fn lemma_no_hits_concat(t: HashType, target: Seq<char>, a: Seq<Seq<char>>, b: Seq<Seq<char>>)
    requires
        no_hits(t, target, a),
        no_hits(t, target, b),
    ensures
        no_hits(t, target, a + b),
{
    assert forall|j: int| 0 <= j < (a + b).len() implies !hits(t, target, #[trigger] (a + b)[j]) by {
        if j < a.len() {
            assert((a + b)[j] == a[j]);
        } else {
            assert((a + b)[j] == b[j - a.len()]);
        }
    }
}

/// Runs a whole search: splits `words` among at most `worker_count` workers
/// and lets them scan, one after another, against one cancellation state.
/// Once a worker matches, the workers after it give up before their first word.
pub fn search(
    words: &Vec<String>,
    worker_count: usize,
    target: &String,
    hash_type: HashType,
    build_index: bool,
) -> (r: SearchReport)
    requires
        worker_count >= 1,
    ensures
        search_result(words.deep_view(), worker_count as nat, target@, hash_type, build_index, r),
{
    let ghost s = words.deep_view();
    let ghost t = hash_type;
    let chunks = partition(words, worker_count);
    let ghost parts = chunks.deep_view();
    let k = chunks.len();
    let mut coord = CancellationState::new(k);
    let mut outcomes: Vec<SearchOutcome> = Vec::new();
    let mut matched: Option<String> = None;
    let ghost mut m: int = -1;
    let ghost mut p: int = -1;
    proof {
        lemma_partition_coverage(s, worker_count as nat);
        assert(parts.take(0) =~= Seq::<Seq<Seq<char>>>::empty());
    }
    let mut i: usize = 0;
    while i < k
        invariant
            t == hash_type,
            s == words.deep_view(),
            k == chunks.len(),
            parts == chunks.deep_view(),
            parts == partition_spec(s, worker_count as nat),
            i <= k,
            coord.wf(),
            coord@.worker_count == k,
            outcomes@.len() == i,
            coord@.stopped == (matched is Some || coord@.exhausted_count == k),
            matched is None ==> {
                &&& coord@.exhausted_count == i
                &&& no_hits(t, target@, parts.take(i as int).flatten())
                &&& forall|o: int|
                    0 <= o < i ==> exhausted_on(
                        #[trigger] outcomes@[o],
                        t,
                        target@,
                        build_index,
                        parts[o],
                    )
            },
            matched is Some ==> {
                &&& 0 <= m < i
                &&& coord@.exhausted_count == m
                &&& matched_at(outcomes@[m], t, target@, build_index, parts[m], p)
                &&& opt_view(matched) == Some(trimmed(parts[m][p]))
                &&& forall|o: int|
                    0 <= o < m ==> exhausted_on(
                        #[trigger] outcomes@[o],
                        t,
                        target@,
                        build_index,
                        parts[o],
                    )
                &&& forall|o: int| m < o < i ==> cancelled_outcome(#[trigger] outcomes@[o])
            },
        decreases k - i,
    {
        let chunk = clone_words(&chunks[i]);
        let mut w = SearchWorker::new(chunk, hash_type, target.clone(), build_index);
        let ghost c0 = coord@;
        w.run(&mut coord);
        let ghost wv = w@;
        let o = w.into_outcome();
        proof {
            assert(wv.chunk == parts[i as int]);
            lemma_index_hex(wv);
            assert(wv.hash_type == t);
            assert(wv.target == target@);
            assert(wv.build_index == build_index);
        }
        if matched.is_none() {
            proof {
                assert(!c0.stopped);
                assert(parts.take(i + 1) =~= parts.take(i as int).push(parts[i as int]));
                parts.take(i as int).lemma_flatten_push(parts[i as int]);
            }
            match &o.matched {
                Some(w) => {
                    matched = Some(w.clone());
                    proof {
                        m = i as int;
                        p = wv.pos - 1;
                        assert(no_hits(t, target@, parts[i as int].take(p))) by {
                            assert forall|j: int| 0 <= j < p implies !hits(
                                t,
                                target@,
                                #[trigger] parts[i as int].take(p)[j],
                            ) by {
                                assert(parts[i as int].take(p)[j] == wv.chunk[j]);
                                assert(!hits(wv.hash_type, wv.target, wv.chunk[j]));
                            }
                        }
                        assert(matched_at(o, t, target@, build_index, parts[i as int], p));
                    }
                },
                None => {
                    proof {
                        assert(wv.exhausted);
                        assert(wv.chunk.take(wv.chunk.len() as int) =~= wv.chunk);
                        assert(exhausted_on(o, t, target@, build_index, parts[i as int]));
                        assert(no_hits(t, target@, parts[i as int])) by {
                            assert(wv.clean_len() == wv.chunk.len());
                        }
                        lemma_no_hits_concat(
                            t,
                            target@,
                            parts.take(i as int).flatten(),
                            parts[i as int],
                        );
                    }
                },
            }
        } else {
            proof {
                assert(c0.stopped);
                assert(records_view(o.local_index@).len() == o.local_index@.len());
                assert(cancelled_outcome(o));
            }
        }
        outcomes.push(o);
        i = i + 1;
    }
    proof {
        assert(parts.take(k as int) =~= parts);
        if matched is Some {
            assert(hits(t, target@, parts[m][p]));
            lemma_hit_in_flatten(t, target@, parts, m, p);
            assert(digest_of(t, matched->Some_0@) == target@);
            assert(exists|m2: int, p2: int|
                {
                    &&& 0 <= m2 < parts.len()
                    &&& coord@.exhausted_count == m2
                    &&& matched_at(outcomes@[m2], t, target@, build_index, parts[m2], p2)
                    &&& opt_view(matched) == Some(trimmed(parts[m2][p2]))
                    &&& forall|o: int|
                        0 <= o < m2 ==> exhausted_on(
                            #[trigger] outcomes@[o],
                            t,
                            target@,
                            build_index,
                            parts[o],
                        )
                    &&& forall|o: int| m2 < o < parts.len() ==> cancelled_outcome(#[trigger] outcomes@[o])
                }) by {
                assert(0 <= m < parts.len());
            }
        } else {
            assert(no_hits(t, target@, s));
            if some_hit(t, target@, s) {
                let j = choose|j: int| 0 <= j < s.len() && hits(t, target@, #[trigger] s[j]);
                assert(!hits(t, target@, s[j]));
            }
        }
    }
    let r = SearchReport { matched, exhausted_count: coord.exhausted_count(), worker_count: k, outcomes };
    assert(r.worker_count == parts.len());
    assert(r.worker_count <= worker_count);
    assert(r.outcomes@.len() == parts.len());
    assert(some_hit(t, target@, s) <==> r.matched is Some);
    assert(r.matched is None ==> r.exhausted_count == r.worker_count);
    r
}

proof fn lemma_hit_in_flatten(
    t: HashType,
    target: Seq<char>,
    parts: Seq<Seq<Seq<char>>>,
    m: int,
    p: int,
)
    requires
        0 <= m < parts.len(),
        0 <= p < parts[m].len(),
        hits(t, target, parts[m][p]),
    ensures
        some_hit(t, target, parts.flatten()),
    decreases parts.len(),
{
    let flat = parts.flatten();
    if m == 0 {
        assert(flat == parts[0] + parts.drop_first().flatten());
        assert(flat[p] == parts[0][p]);
    } else {
        lemma_hit_in_flatten(t, target, parts.drop_first(), m - 1, p);
        let rest = parts.drop_first().flatten();
        let j = choose|j: int| 0 <= j < rest.len() && hits(t, target, #[trigger] rest[j]);
        assert(flat == parts[0] + rest);
        assert(flat[parts[0].len() + j] == rest[j]);
    }
}


/// The result of a run: served from a cached index, or searched.
pub struct CrackReport {
    /// The matching word, if one was found.
    pub matched: Option<String>,
    /// Whether the answer came from the cached index, with no worker started.
    pub from_cache: bool,
    /// The search, when one ran.
    pub search: Option<SearchReport>,
    /// The aggregated index to persist: empty unless indexing was asked for
    /// and a search ran.
    pub records: Vec<IndexRecord>,
}

/// Answers from `cache` when it holds a record for `target`; otherwise runs
/// a search and, when indexing, aggregates the workers' local indexes.
pub fn crack(
    cache: &Option<Vec<IndexRecord>>,
    words: &Vec<String>,
    worker_count: usize,
    target: &String,
    hash_type: HashType,
    build_index: bool,
) -> (r: CrackReport)
    requires
        worker_count >= 1 || match cache {
            Some(idx) => lookup_spec(records_view(idx@), target@) is Some,
            None => false,
        },
    ensures
        colon_free(records_view(r.records@)),
        ({
            let cached = match cache {
                Some(idx) => lookup_spec(records_view(idx@), target@),
                None => None,
            };
            &&& cached is Some ==> {
                &&& r.from_cache
                &&& r.search is None
                &&& opt_view(r.matched) == cached
                &&& r.records@.len() == 0
            }
            &&& cached is None ==> {
                &&& !r.from_cache
                &&& r.search is Some
                &&& search_result(
                    words.deep_view(),
                    worker_count as nat,
                    target@,
                    hash_type,
                    build_index,
                    r.search->Some_0,
                )
                &&& opt_view(r.matched) == opt_view(r.search->Some_0.matched)
                &&& records_view(r.records@) == if build_index {
                    outcome_records(r.search->Some_0.outcomes@).flatten()
                } else {
                    Seq::empty()
                }
            }
        }),
{
    match cache {
        Some(idx) => {
            let hit = lookup(idx, target);
            if hit.is_some() {
                return CrackReport { matched: hit, from_cache: true, search: None, records: Vec::new() };
            }
        },
        None => {},
    }
    let report = search(words, worker_count, target, hash_type, build_index);
    let records = if build_index {
        aggregate(&report.outcomes)
    } else {
        Vec::new()
    };
    proof {
        if !build_index {
            assert(records_view(records@) =~= Seq::<(Seq<char>, Seq<char>)>::empty());
        } else {
            let parts = outcome_records(report.outcomes@);
            let pt = partition_spec(words.deep_view(), worker_count as nat);
            assert forall|i: int| 0 <= i < parts.len() implies colon_free(#[trigger] parts[i]) by {
                let o = report.outcomes@[i];
                assert(parts[i] == records_view(o.local_index@));
                if report.matched is None {
                    assert(exhausted_on(o, hash_type, target@, build_index, pt[i]));
                    lemma_hex_colon_free(parts[i]);
                } else {
                    let (m, p) = choose|m: int, p: int|
                        {
                            &&& 0 <= m < pt.len()
                            &&& report.exhausted_count == m
                            &&& matched_at(report.outcomes@[m], hash_type, target@, build_index, pt[m], p)
                            &&& opt_view(report.matched) == Some(trimmed(pt[m][p]))
                            &&& forall|j: int|
                                0 <= j < m ==> exhausted_on(
                                    #[trigger] report.outcomes@[j],
                                    hash_type,
                                    target@,
                                    build_index,
                                    pt[j],
                                )
                            &&& forall|j: int| m < j < pt.len() ==> cancelled_outcome(#[trigger] report.outcomes@[j])
                        };
                    if i < m {
                        assert(exhausted_on(report.outcomes@[i], hash_type, target@, build_index, pt[i]));
                        lemma_hex_colon_free(parts[i]);
                    } else if i == m {
                        lemma_hex_colon_free(parts[i]);
                    } else {
                        assert(cancelled_outcome(report.outcomes@[i]));
                        assert(parts[i].len() == 0);
                    }
                }
            }
            lemma_colon_free_flatten(parts);
        }
    }
    let matched = match &report.matched {
        Some(w) => Some(w.clone()),
        None => None,
    };
    CrackReport { matched, from_cache: false, search: Some(report), records }
}

} // verus!
