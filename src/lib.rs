//! Dictionary search for a word whose digest equals a target digest.
//!
//! The wordlist is split into order-preserving chunks, each scanned by a
//! worker that polls a shared cancellation state; the first match or the
//! exhaustion of every chunk stops the search exactly once. Workers may
//! record the digest of every word they scan, and the records can be
//! written out and consulted later as a cache.

mod coordinator;
mod digest;
mod engine;
mod error;
mod hash_type;
mod index;
mod partition;
mod state;
mod worker;

pub use coordinator::{CancellationState, CancellationView};
pub use digest::{
    digest, digest_len, digest_of, is_ascii_alnum, is_hex_digit, is_lower_hex, md5_hex, sha1_hex,
    sha256_hex, sha512_hex, trimmed,
};
pub use engine::{
    cancelled_outcome, crack, exhausted_on, matched_at, no_hits, search, search_result, some_hit,
    CrackReport, SearchReport,
};
pub use error::CrackError;
pub use hash_type::{get_hash_type, hash_type_for_len, validate_worker_count, HashType, MAX_WORKERS};
pub use index::{
    aggregate, colon_free, drop_space, hex_digests, first_colon, format_record, lemma_index_round_trip, lookup, lookup_spec,
    opt_record_view, outcome_records, parse_index, parse_line, parse_lines, parse_record,
    persist_lines, record_line, records_view, IndexRecord,
};
pub use partition::{chunk_len, chunks_of, lemma_partition_coverage, partition, partition_spec};
pub use state::{
    any_matched, count_cancelled, count_exhausted, count_matched, step_effect, lemma_exhaustion_accounting, lemma_state_index_round_trip,
    lemma_stop_without_match, local_indexes,
    SearchState, SearchStateView,
};
pub use worker::{
    hits, index_of, opt_view, record_of, SearchOutcome, SearchWorker, WorkerEvent, WorkerView,
};
