use dict_crack::{
    aggregate, crack, digest, format_record, get_hash_type, lookup, parse_index, parse_record,
    partition, persist_lines, search, validate_worker_count, CancellationState, CrackError,
    HashType, IndexRecord, SearchWorker, WorkerEvent,
};

fn words(ws: &[&str]) -> Vec<String> {
    ws.iter().map(|w| w.to_string()).collect()
}

fn record(d: &str, w: &str) -> IndexRecord {
    IndexRecord { digest: d.to_string(), word: w.to_string() }
}

#[test]
fn hash_type_from_length() {
    assert_eq!(get_hash_type(&"a".repeat(32)), Ok(HashType::MD5));
    assert_eq!(get_hash_type(&"a".repeat(40)), Ok(HashType::SHA1));
    assert_eq!(get_hash_type(&"a".repeat(64)), Ok(HashType::SHA256));
    assert_eq!(get_hash_type(&"a".repeat(128)), Ok(HashType::SHA512));
}

#[test]
fn hash_type_invalid_length() {
    assert_eq!(get_hash_type("abc"), Err(CrackError::InvalidDigestLength { len: 3 }));
    assert_eq!(get_hash_type(""), Err(CrackError::InvalidDigestLength { len: 0 }));
}

#[test]
fn worker_count_bounds() {
    assert_eq!(validate_worker_count(1), Ok(1));
    assert_eq!(validate_worker_count(10), Ok(10));
    assert_eq!(validate_worker_count(0), Err(CrackError::ConfigurationOutOfRange { workers: 0 }));
    assert_eq!(validate_worker_count(11), Err(CrackError::ConfigurationOutOfRange { workers: 11 }));
}

#[test]
fn digests_known_values() {
    assert_eq!(digest(HashType::MD5, ""), "d41d8cd98f00b204e9800998ecf8427e");
    assert_eq!(digest(HashType::MD5, "abc"), "900150983cd24fb0d6963f7d28e17f72");
    assert_eq!(digest(HashType::SHA1, "abc"), "a9993e364706816aba3e25717850c26c9cd0d89d");
    assert_eq!(
        digest(HashType::SHA256, "abc"),
        "ba7816bf8f01cfea414140de5dae2223b00361a396177a9cb410ff61f20015ad"
    );
    assert_eq!(
        digest(HashType::SHA512, "abc"),
        "ddaf35a193617abacc417349ae20413112e6fa4e89a97ea20a9eeee64b55d39a\
         2192992a274fc1a836ba3c23a3feebbd454d4423643ce80e2a9ac94fa54ca49f"
    );
}

#[test]
fn partition_ceiling_chunks() {
    let w = words(&["a", "b", "c", "d", "e"]);
    assert_eq!(partition(&w, 2), vec![words(&["a", "b", "c"]), words(&["d", "e"])]);
    assert_eq!(
        partition(&w, 3),
        vec![words(&["a", "b"]), words(&["c", "d"]), words(&["e"])]
    );
    assert_eq!(partition(&w, 1), vec![w.clone()]);
    assert_eq!(partition(&w, 10).len(), 5);
}

#[test]
fn partition_empty_wordlist() {
    assert!(partition(&Vec::new(), 4).is_empty());
}

#[test]
fn partition_concatenation_is_wordlist() {
    let w = words(&["1", "2", "3", "4", "5", "6", "7"]);
    for k in 1..=9 {
        let parts = partition(&w, k);
        assert!(parts.len() <= k);
        let flat: Vec<String> = parts.into_iter().flatten().collect();
        assert_eq!(flat, w);
    }
}

#[test]
fn scenario_banana_two_workers() {
    let w = words(&["apple", "banana", "cherry"]);
    let target = digest(HashType::MD5, "banana");
    assert_eq!(target, "72b302bf297a228a75730123efef7c41");
    let r = search(&w, 2, &target, HashType::MD5, false);
    assert_eq!(r.matched, Some("banana".to_string()));
    assert_eq!(r.worker_count, 2);
    assert_eq!(r.exhausted_count, 0);
}

#[test]
fn scenario_more_workers_than_words() {
    let w = words(&["x", "y"]);
    let target = digest(HashType::MD5, "z");
    let parts = partition(&w, 3);
    assert_eq!(parts, vec![words(&["x"]), words(&["y"])]);
    let r = search(&w, 3, &target, HashType::MD5, false);
    assert_eq!(r.matched, None);
    assert_eq!(r.worker_count, 2);
    assert_eq!(r.exhausted_count, 2);
    assert!(r.outcomes.iter().all(|o| o.exhausted && o.matched.is_none()));
}

#[test]
fn search_empty_wordlist_is_a_miss() {
    let target = digest(HashType::SHA1, "a");
    let r = search(&Vec::new(), 3, &target, HashType::SHA1, true);
    assert_eq!(r.matched, None);
    assert_eq!(r.worker_count, 0);
    assert_eq!(r.exhausted_count, 0);
}

#[test]
fn search_trims_words() {
    let w = words(&["  one ", "\ttwo\t", "three"]);
    let target = digest(HashType::SHA256, "two");
    let r = search(&w, 1, &target, HashType::SHA256, false);
    assert_eq!(r.matched, Some("two".to_string()));
}

#[test]
fn search_hit_result_has_target_digest() {
    let w = words(&["alpha", "beta", "gamma", "delta", "epsilon"]);
    for k in 1..=6 {
        for word in ["alpha", "gamma", "epsilon"] {
            let target = digest(HashType::SHA512, word);
            let r = search(&w, k, &target, HashType::SHA512, false);
            let m = r.matched.expect("a listed word must be found");
            assert_eq!(digest(HashType::SHA512, &m), target);
        }
    }
}

#[test]
fn search_exhaustion_accounting_on_hit() {
    let w = words(&["a", "b", "c", "d"]);
    let target = digest(HashType::MD5, "d");
    let r = search(&w, 2, &target, HashType::MD5, true);
    assert_eq!(r.matched, Some("d".to_string()));
    assert_eq!(r.exhausted_count, 1);
    assert!(r.outcomes[0].exhausted);
    assert!(!r.outcomes[1].exhausted);
    let target = digest(HashType::MD5, "a");
    let r = search(&w, 2, &target, HashType::MD5, true);
    assert_eq!(r.exhausted_count, 0);
    assert!(!r.outcomes[1].exhausted);
    assert!(r.outcomes[1].matched.is_none());
    assert!(r.outcomes[1].local_index.is_empty());
}

#[test]
fn search_builds_index_in_order() {
    let w = words(&["a", "b", "c", "d"]);
    let target = digest(HashType::MD5, "c");
    let r = search(&w, 2, &target, HashType::MD5, true);
    let records = aggregate(&r.outcomes);
    let expected: Vec<IndexRecord> =
        ["a", "b", "c"].iter().map(|x| record(&digest(HashType::MD5, x), x)).collect();
    assert_eq!(records, expected);
    let r = search(&w, 2, &target, HashType::MD5, false);
    assert!(aggregate(&r.outcomes).is_empty());
}

#[test]
fn coordinator_exhaustion_stops_once() {
    let mut c = CancellationState::new(2);
    assert!(!c.is_stopped());
    assert!(!c.signal_exhausted());
    assert!(!c.is_stopped());
    assert!(c.signal_exhausted());
    assert!(c.is_stopped());
    assert_eq!(c.exhausted_count(), 2);
    assert!(!c.signal_exhausted());
    assert_eq!(c.exhausted_count(), 2);
}

#[test]
fn coordinator_found_is_idempotent() {
    let mut c = CancellationState::new(3);
    assert!(c.signal_found());
    assert!(c.is_stopped());
    assert!(!c.signal_found());
    assert_eq!(c.exhausted_count(), 0);
    assert_eq!(c.worker_count(), 3);
}

#[test]
fn coordinator_without_workers_starts_stopped() {
    assert!(CancellationState::new(0).is_stopped());
}

#[test]
fn worker_steps() {
    let target = digest(HashType::MD5, "b");
    let mut w = SearchWorker::new(words(&["a", "b", "c"]), HashType::MD5, target, true);
    assert_eq!(w.step(false), WorkerEvent::Continue);
    assert_eq!(w.step(false), WorkerEvent::Found);
    assert!(w.is_done());
    assert_eq!(w.step(false), WorkerEvent::Idle);
    let o = w.into_outcome();
    assert_eq!(o.matched, Some("b".to_string()));
    assert_eq!(o.local_index.len(), 2);
}

#[test]
fn worker_cancelled_and_exhausted() {
    let target = digest(HashType::MD5, "zzz");
    let mut w = SearchWorker::new(words(&["a"]), HashType::MD5, target.clone(), false);
    assert_eq!(w.step(false), WorkerEvent::Continue);
    assert_eq!(w.step(false), WorkerEvent::Exhausted);
    assert!(w.into_outcome().exhausted);
    let mut w = SearchWorker::new(words(&["a"]), HashType::MD5, target, false);
    assert_eq!(w.step(true), WorkerEvent::Cancelled);
    let o = w.into_outcome();
    assert!(!o.exhausted && o.matched.is_none());
}

#[test]
fn worker_run_signals_coordinator() {
    let target = digest(HashType::SHA1, "c");
    let mut c = CancellationState::new(2);
    let mut w = SearchWorker::new(words(&["a", "b"]), HashType::SHA1, target.clone(), false);
    w.run(&mut c);
    assert_eq!(c.exhausted_count(), 1);
    assert!(!c.is_stopped());
    let mut w = SearchWorker::new(words(&["c"]), HashType::SHA1, target, false);
    w.run(&mut c);
    assert!(c.is_stopped());
    assert_eq!(w.into_outcome().matched, Some("c".to_string()));
}

#[test]
fn lookup_first_record() {
    let rs = vec![record("d1", "one"), record("d2", "two"), record("d2", "deux")];
    assert_eq!(lookup(&rs, &"d2".to_string()), Some("two".to_string()));
    assert_eq!(lookup(&rs, &"d3".to_string()), None);
    assert_eq!(lookup(&Vec::new(), &"d1".to_string()), None);
}

#[test]
fn record_line_format_and_parse() {
    assert_eq!(format_record(&record("abc", "word")), "abc: word");
    assert_eq!(parse_record("abc: word"), Some(record("abc", "word")));
    assert_eq!(parse_record("abc:word"), Some(record("abc", "word")));
    assert_eq!(parse_record("abc:  word"), Some(record("abc", " word")));
    assert_eq!(parse_record("abc: a:b"), Some(record("abc", "a:b")));
    assert_eq!(parse_record("abc:"), Some(record("abc", "")));
    assert_eq!(parse_record("no colon here"), None);
}

#[test]
fn index_round_trip() {
    let w = words(&["red", "green", " blue", "a:b"]);
    let target = digest(HashType::SHA256, "none");
    let r = search(&w, 3, &target, HashType::SHA256, true);
    let records = aggregate(&r.outcomes);
    assert_eq!(records.len(), 4);
    let lines = persist_lines(&records);
    assert_eq!(lines[0], format!("{}: red", digest(HashType::SHA256, "red")));
    assert_eq!(parse_index(&lines), records);
}

#[test]
fn parse_index_skips_malformed_lines() {
    let lines = words(&["d1: one", "garbage", "d2: two"]);
    assert_eq!(parse_index(&lines), vec![record("d1", "one"), record("d2", "two")]);
}

#[test]
fn crack_served_from_cache() {
    let target = digest(HashType::MD5, "secret");
    let cache = Some(vec![record("00", "x"), record(&target, "secret")]);
    let r = crack(&cache, &words(&["secret"]), 2, &target, HashType::MD5, true);
    assert!(r.from_cache);
    assert!(r.search.is_none());
    assert_eq!(r.matched, Some("secret".to_string()));
    assert!(r.records.is_empty());
}

#[test]
fn crack_searches_on_cache_miss() {
    let target = digest(HashType::MD5, "banana");
    let w = words(&["apple", "banana"]);
    let cache = Some(vec![record("00", "x")]);
    let r = crack(&cache, &w, 2, &target, HashType::MD5, true);
    assert!(!r.from_cache);
    assert_eq!(r.matched, Some("banana".to_string()));
    assert_eq!(r.records.len(), 2);
    let r = crack(&None, &w, 1, &target, HashType::MD5, false);
    assert!(!r.from_cache);
    assert_eq!(r.search.as_ref().map(|s| s.worker_count), Some(1));
    assert!(r.records.is_empty());
}

#[test]
fn digest_lengths_match_hash_type() {
    for (t, n) in [
        (HashType::MD5, 32),
        (HashType::SHA1, 40),
        (HashType::SHA256, 64),
        (HashType::SHA512, 128),
    ] {
        let d = digest(t, "password");
        assert_eq!(d.len(), n);
        assert!(d.chars().all(|c| c.is_ascii_digit() || ('a'..='f').contains(&c)));
        assert_eq!(get_hash_type(&d), Ok(t));
    }
}

#[test]
fn crack_cache_hit_needs_no_workers() {
    let target = digest(HashType::SHA1, "cached");
    let cache = Some(vec![record(&target, "cached")]);
    let r = crack(&cache, &Vec::new(), 0, &target, HashType::SHA1, true);
    assert!(r.from_cache);
    assert_eq!(r.matched, Some("cached".to_string()));
}

#[test]
fn crack_records_have_hex_digests() {
    let target = digest(HashType::MD5, "none");
    let r = crack(&None, &words(&["a:b", " c "]), 2, &target, HashType::MD5, true);
    assert_eq!(r.records.len(), 2);
    assert!(r.records.iter().all(|x| !x.digest.contains(':')));
    assert_eq!(r.records[1].word, "c");
}
