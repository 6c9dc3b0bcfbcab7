use std::collections::HashSet;
use std::sync::Mutex;

use rayon::iter::{IntoParallelIterator, ParallelIterator};

use vansol::engine::{
    plan, replay, unfiltered_report, Absorbed, ConfigError, SearchConfig, SearchMode, SearchState,
};
use vansol::keys::{generate_candidate, search_round};
use vansol::pattern::MatchSpec;

fn spec(prefix: Option<&str>, suffix: Option<&str>, contains: Option<&str>) -> MatchSpec {
    MatchSpec {
        prefix: prefix.map(|s| s.to_string()),
        suffix: suffix.map(|s| s.to_string()),
        contains: contains.map(|s| s.to_string()),
    }
}

fn anything() -> MatchSpec {
    spec(None, None, Some(""))
}

fn config(spec: MatchSpec, target_count: usize, worker_count: usize, batch_size: usize) -> SearchConfig {
    SearchConfig { spec, target_count, worker_count, batch_size }
}

fn ids(v: &[&str]) -> Vec<String> {
    v.iter().map(|s| s.to_string()).collect()
}

#[test]
fn plan_picks_modes_and_refuses_bad_configs() {
    assert_eq!(plan(&config(anything(), 0, 1, 1)), Err(ConfigError::ZeroTargetCount));
    assert_eq!(plan(&config(anything(), 1, 0, 1)), Err(ConfigError::ZeroWorkerCount));
    assert_eq!(plan(&config(anything(), 1, 1, 0)), Err(ConfigError::ZeroBatchSize));
    assert_eq!(plan(&config(spec(None, None, None), 2, 1, 1)), Err(ConfigError::PatternlessMultiple));
    assert_eq!(plan(&config(spec(None, None, None), 1, 4, 1)), Ok(SearchMode::Unfiltered));
    assert_eq!(plan(&config(anything(), 1, 4, 1)), Ok(SearchMode::FirstMatch));
    assert_eq!(plan(&config(anything(), 5, 4, 1)), Ok(SearchMode::Quota));
}

#[test]
fn absorb_reports_each_outcome() {
    let mut state: SearchState<u8> = SearchState::new(spec(Some("A"), None, None), 2);
    assert_eq!(state.absorb("Bxx".to_string(), 0), Absorbed::NotMatched);
    assert_eq!(state.absorb("Axx".to_string(), 1), Absorbed::Registered);
    assert_eq!(state.absorb("Axx".to_string(), 2), Absorbed::Duplicate);
    assert!(!state.is_complete());
    assert_eq!(state.absorb("Ayy".to_string(), 3), Absorbed::Registered);
    assert!(state.is_complete());
    assert_eq!(state.absorb("Azz".to_string(), 4), Absorbed::QuotaReached);
    assert_eq!(state.attempts(), 5);
    assert_eq!(state.match_count(), 2);
    assert_eq!(state.target(), 2);
    let report = state.into_report(77);
    assert_eq!(report.attempts, 5);
    assert_eq!(report.elapsed_nanos, 77);
    let got: Vec<(String, u8)> = report.matches.into_iter().map(|h| (h.public_id, h.keypair)).collect();
    assert_eq!(got, vec![("Axx".to_string(), 1), ("Ayy".to_string(), 3)]);
}

#[test]
fn replay_single_target_takes_first_match() {
    let source = ids(&["zz1", "So1a", "So1b", "xSo1"]);
    let report = replay(spec(Some("So1"), None, None), 1, &source);
    assert_eq!(report.attempts, 2);
    assert_eq!(report.matches.len(), 1);
    assert_eq!(report.matches[0].public_id, "So1a");
    assert_eq!(report.matches[0].keypair, 1);
}

#[test]
fn replay_is_reproducible() {
    let source = ids(&["a1", "b2", "a3", "a1", "c4", "a5", "a6"]);
    let first = replay(spec(Some("a"), None, None), 3, &source);
    let second = replay(spec(Some("a"), None, None), 3, &source);
    assert_eq!(first.attempts, 6);
    assert_eq!(first.attempts, second.attempts);
    let a: Vec<(String, usize)> = first.matches.into_iter().map(|h| (h.public_id, h.keypair)).collect();
    let b: Vec<(String, usize)> = second.matches.into_iter().map(|h| (h.public_id, h.keypair)).collect();
    assert_eq!(a, vec![("a1".to_string(), 0), ("a3".to_string(), 2), ("a5".to_string(), 5)]);
    assert_eq!(a, b);
}

#[test]
fn replay_reports_first_occurrence() {
    let source = ids(&["k1", "a1", "a1", "a2"]);
    let report = replay(spec(Some("a"), None, None), 2, &source);
    assert_eq!(report.attempts, 4);
    let got: Vec<(String, usize)> = report.matches.into_iter().map(|h| (h.public_id, h.keypair)).collect();
    assert_eq!(got, vec![("a1".to_string(), 1), ("a2".to_string(), 3)]);
}

#[test]
fn replay_extra_miss_costs_one_attempt() {
    let a = replay(spec(Some("a"), None, None), 2, &ids(&["a1", "b1", "a2", "a3"]));
    let b = replay(spec(Some("a"), None, None), 2, &ids(&["a1", "zz", "b1", "a2", "a3"]));
    assert_eq!(a.attempts, 3);
    assert_eq!(b.attempts, a.attempts + 1);
    let ma: Vec<String> = a.matches.into_iter().map(|h| h.public_id).collect();
    let mb: Vec<String> = b.matches.into_iter().map(|h| h.public_id).collect();
    assert_eq!(ma, mb);
}

#[test]
fn replay_exhausted_source() {
    let source = ids(&["q", "r"]);
    let report = replay(spec(None, Some("x"), None), 2, &source);
    assert_eq!(report.attempts, 2);
    assert!(report.matches.is_empty());
    let empty: Vec<String> = Vec::new();
    let report = replay(anything(), 1, &empty);
    assert_eq!(report.attempts, 0);
}

#[test]
fn replay_permissive_quota_is_exact() {
    let source: Vec<String> = (0..200).map(|i| format!("id{}", i)).collect();
    let report = replay(anything(), 50, &source);
    assert_eq!(report.matches.len(), 50);
    assert_eq!(report.attempts, 50);
}

#[test]
fn patternless_single_target_counts_one_attempt() {
    let hit = generate_candidate();
    let id = hit.public_id.clone();
    let report = unfiltered_report(hit.public_id, hit.keypair, 5);
    assert_eq!(report.attempts, 1);
    assert_eq!(report.matches.len(), 1);
    assert_eq!(report.matches[0].public_id, id);
}

#[test]
fn candidates_carry_base58_identifiers() {
    let a = generate_candidate();
    let b = generate_candidate();
    assert!(a.public_id.len() >= 32 && a.public_id.len() <= 44);
    assert!(b.public_id.len() >= 32 && b.public_id.len() <= 44);
    assert!(a.public_id.chars().all(|c| c.is_ascii_alphanumeric() && c != '0' && c != 'O' && c != 'I' && c != 'l'));
    assert_ne!(a.public_id, b.public_id);
}

#[test]
fn single_worker_round_stops_at_quota() {
    let mut state = SearchState::new(anything(), 3);
    let drawn = search_round(&mut state, 10);
    assert_eq!(drawn, 3);
    assert!(state.is_complete());
    assert_eq!(state.attempts(), 3);
    assert_eq!(search_round(&mut state, 10), 0);
    assert_eq!(state.attempts(), 3);
}

#[test]
fn single_worker_round_counts_misses() {
    let mut state = SearchState::new(spec(Some("!"), None, None), 1);
    assert_eq!(search_round(&mut state, 25), 25);
    assert_eq!(state.attempts(), 25);
    assert_eq!(state.match_count(), 0);
}

fn parallel_run(spec: MatchSpec, target: usize, workers: usize) -> (u64, Vec<String>, usize) {
    let pool = rayon::ThreadPoolBuilder::new().num_threads(workers).build().unwrap();
    let state = Mutex::new(SearchState::new(spec, target));
    let winners = Mutex::new(0usize);
    pool.install(|| {
        while !state.lock().unwrap().is_complete() {
            (0..1000).into_par_iter().for_each(|_| {
                if state.lock().unwrap().is_complete() {
                    return;
                }
                let hit = generate_candidate();
                let r = state.lock().unwrap().absorb(hit.public_id, hit.keypair);
                if r == Absorbed::Registered {
                    *winners.lock().unwrap() += 1;
                }
            });
        }
    });
    let report = state.into_inner().unwrap().into_report(0);
    let ids = report.matches.iter().map(|h| h.public_id.clone()).collect();
    (report.attempts, ids, winners.into_inner().unwrap())
}

#[test]
fn parallel_single_target_has_one_winner() {
    let (attempts, ids, winners) = parallel_run(anything(), 1, 16);
    assert_eq!(ids.len(), 1);
    assert_eq!(winners, 1);
    assert!(attempts >= 1);
}

#[test]
fn parallel_quota_never_overshoots() {
    let (attempts, ids, winners) = parallel_run(anything(), 50, 16);
    assert_eq!(ids.len(), 50);
    assert_eq!(winners, 50);
    let distinct: HashSet<String> = ids.into_iter().collect();
    assert_eq!(distinct.len(), 50);
    assert!(attempts >= 50);
}
