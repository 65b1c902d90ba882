use dict_crack::{digest, HashType, SearchState, WorkerEvent};

fn words(ws: &[&str]) -> Vec<String> {
    ws.iter().map(|w| w.to_string()).collect()
}

#[test]
fn interleaved_hit_stops_others() {
    let w = words(&["a", "b", "c", "d", "e", "f"]);
    let target = digest(HashType::MD5, "e");
    let mut s = SearchState::new(&w, 3, &target, HashType::MD5, true);
    assert_eq!(s.worker_count(), 3);
    assert_eq!(s.step_worker(0), WorkerEvent::Continue);
    assert_eq!(s.step_worker(2), WorkerEvent::Found);
    assert!(s.is_stopped());
    assert_eq!(s.step_worker(0), WorkerEvent::Cancelled);
    assert_eq!(s.step_worker(1), WorkerEvent::Cancelled);
    assert_eq!(s.step_worker(2), WorkerEvent::Idle);
    assert_eq!(s.exhausted_count(), 0);
    let outcomes = s.into_outcomes();
    assert_eq!(outcomes[2].matched, Some("e".to_string()));
    assert_eq!(outcomes[0].local_index.len(), 1);
    assert!(outcomes[1].local_index.is_empty());
    assert!(outcomes.iter().all(|o| !o.exhausted));
}

#[test]
fn round_robin_miss_exhausts_all() {
    let w = words(&["a", "b", "c", "d", "e"]);
    let target = digest(HashType::SHA1, "zz");
    let mut s = SearchState::new(&w, 2, &target, HashType::SHA1, false);
    let mut exhausted = 0;
    let mut turn = 0;
    while !s.is_stopped() {
        if s.step_worker(turn % s.worker_count()) == WorkerEvent::Exhausted {
            exhausted += 1;
        }
        turn += 1;
    }
    assert_eq!(exhausted, 2);
    assert_eq!(s.exhausted_count(), 2);
    let outcomes = s.into_outcomes();
    assert!(outcomes.iter().all(|o| o.exhausted && o.matched.is_none()));
}

#[test]
fn empty_search_state_is_stopped() {
    let target = digest(HashType::SHA256, "x");
    let s = SearchState::new(&Vec::new(), 4, &target, HashType::SHA256, false);
    assert!(s.is_stopped());
    assert_eq!(s.worker_count(), 0);
    assert!(s.into_outcomes().is_empty());
}

#[test]
fn interleaved_index_round_trip() {
    let w = words(&["one", "two", "three", "four", "five"]);
    let target = digest(HashType::SHA256, "four");
    let mut s = SearchState::new(&w, 2, &target, HashType::SHA256, true);
    let mut turn = 0;
    while !s.is_stopped() {
        s.step_worker(turn % 2);
        turn += 1;
    }
    let records = dict_crack::aggregate(&s.into_outcomes());
    assert!(records.iter().any(|r| r.word == "four"));
    let lines = dict_crack::persist_lines(&records);
    assert_eq!(dict_crack::parse_index(&lines), records);
}

#[test]
fn step_worker_counts_exhaustion_once() {
    let w = words(&["a", "b"]);
    let target = digest(HashType::MD5, "q");
    let mut s = SearchState::new(&w, 2, &target, HashType::MD5, false);
    assert_eq!(s.step_worker(0), WorkerEvent::Continue);
    assert_eq!(s.step_worker(0), WorkerEvent::Exhausted);
    assert_eq!(s.exhausted_count(), 1);
    assert!(!s.is_stopped());
    assert_eq!(s.step_worker(0), WorkerEvent::Idle);
    assert_eq!(s.exhausted_count(), 1);
    assert_eq!(s.step_worker(1), WorkerEvent::Continue);
    assert_eq!(s.step_worker(1), WorkerEvent::Exhausted);
    assert_eq!(s.exhausted_count(), 2);
    assert!(s.is_stopped());
}
