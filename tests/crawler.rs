use meta_crawler::crawler::{latest_checkpoint, resume_start_id, CrawlSession, CrawlerState, ProbeOutcome};
use meta_crawler::errors::ApiClientError;

fn state(last_event_id: i32, last_crawl: i64) -> CrawlerState {
    CrawlerState {
        last_event_id,
        total_events: 0,
        last_crawl,
        crawl_type: "historical".to_string(),
    }
}

/// Drives a session over simulated outcomes, as the crawl loop does; returns
/// the session and the ids probed.
fn run(start: i64, threshold: i32, found: &dyn Fn(i64) -> bool) -> (CrawlSession, Vec<i64>, Vec<i32>) {
    let mut session = CrawlSession::new(start, threshold);
    let mut probed = Vec::new();
    let mut checkpoints = Vec::new();
    while session.is_active() {
        let id = session.probe_id();
        probed.push(id);
        let outcome = if found(id) { ProbeOutcome::Found } else { ProbeOutcome::NotFound };
        if session.record(outcome) {
            checkpoints.push(session.checkpoint(0, "historical").last_event_id);
        }
        assert!(probed.len() < 10_000);
    }
    checkpoints.push(session.checkpoint(0, "historical").last_event_id);
    (session, probed, checkpoints)
}

#[test]
fn crawl_halts_after_ten_misses_past_last_event() {
    let (session, probed, checkpoints) = run(5, 10, &|id| (5..=7).contains(&id));
    assert_eq!(*probed.last().unwrap(), 17);
    assert_eq!(session.last_probed(), 17);
    assert_eq!(session.events_found(), 3);
    assert_eq!(*checkpoints.last().unwrap(), 17);
    let final_state = session.checkpoint(42, "historical");
    assert_eq!(final_state.last_event_id, 17);
    assert_eq!(final_state.total_events, 3);
    assert_eq!(final_state.last_crawl, 42);
}

#[test]
fn crawl_halts_exactly_at_threshold() {
    // finds at 1, 4 and 9; gaps of 2 and 4 misses stay below the threshold of 5
    let (session, probed, _) = run(1, 5, &|id| id == 1 || id == 4 || id == 9);
    assert_eq!(probed, (1..=14).collect::<Vec<i64>>());
    assert_eq!(session.consecutive_misses(), 5);
    assert!(!session.is_active());
}

#[test]
fn crawl_with_no_threshold_probes_nothing() {
    let (session, probed, checkpoints) = run(8, 0, &|_| true);
    assert!(probed.is_empty());
    assert_eq!(session.last_probed(), 7);
    assert_eq!(checkpoints, vec![7]);
}

#[test]
fn crawl_never_probes_below_start() {
    let (_, probed, _) = run(100, 3, &|id| id % 2 == 0 && id < 105);
    assert!(probed.iter().all(|&id| id >= 100));
    assert_eq!(probed, (100..=107).collect::<Vec<i64>>());
}

#[test]
fn found_resets_miss_run() {
    let mut s = CrawlSession::new(1, 3);
    s.record(ProbeOutcome::Empty);
    s.record(ProbeOutcome::Failed);
    assert_eq!(s.consecutive_misses(), 2);
    s.record(ProbeOutcome::Found);
    assert_eq!(s.consecutive_misses(), 0);
    assert_eq!(s.events_found(), 1);
    assert!(s.is_active());
}

#[test]
fn checkpoint_due_every_tenth_id() {
    let mut s = CrawlSession::new(1, 100);
    let mut due = Vec::new();
    for _ in 0..25 {
        if s.record(ProbeOutcome::NotFound) {
            due.push(s.last_probed());
        }
    }
    assert_eq!(due, vec![9, 19]);
}

#[test]
fn probe_outcome_of_fetch_results() {
    let found: Result<Option<u8>, ApiClientError> = Ok(Some(1));
    let empty: Result<Option<u8>, ApiClientError> = Ok(None);
    let missing: Result<Option<u8>, ApiClientError> = Err(ApiClientError::NotFound);
    let failed: Result<Option<u8>, ApiClientError> = Err(ApiClientError::Timeout);
    assert_eq!(ProbeOutcome::of_fetch(&found), ProbeOutcome::Found);
    assert_eq!(ProbeOutcome::of_fetch(&empty), ProbeOutcome::Empty);
    assert_eq!(ProbeOutcome::of_fetch(&missing), ProbeOutcome::NotFound);
    assert_eq!(ProbeOutcome::of_fetch(&failed), ProbeOutcome::Failed);
    assert!(!ProbeOutcome::Found.is_miss());
    assert!(ProbeOutcome::Failed.is_miss());
}

#[test]
fn resume_uses_latest_checkpoint_not_highest_id() {
    let states = vec![state(500, 1_000), state(120, 3_000), state(900, 2_000)];
    assert_eq!(latest_checkpoint(&states), Some(1));
    assert_eq!(resume_start_id(&states), 121);
}

#[test]
fn resume_without_checkpoint_starts_at_one() {
    assert_eq!(latest_checkpoint(&Vec::new()), None);
    assert_eq!(resume_start_id(&Vec::new()), 1);
}

#[test]
fn resume_picks_first_of_equally_late() {
    let states = vec![state(10, 5), state(20, 7), state(30, 7)];
    assert_eq!(resume_start_id(&states), 21);
}
