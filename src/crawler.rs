//! The discovery crawler: a cursor over event ids that probes them one at a
//! time and stops after a run of consecutive misses.
use vstd::prelude::*;
use crate::errors::ApiClientError;

verus! {

/// Probed ids between two periodic checkpoints.
pub const CHECKPOINT_EVERY: i64 = 10;

/// What a fetch of one event id produced.
#[derive(Debug, Clone, Copy, PartialEq, Eq, Structural)]
pub enum ProbeOutcome {
    /// The event exists.
    Found,
    /// The upstream answered without data.
    Empty,
    /// The upstream answered 404.
    NotFound,
    /// The request failed in any other way.
    Failed,
}

impl ProbeOutcome {
    /// The outcome of an event fetch.
    pub fn of_fetch<T>(r: &Result<Option<T>, ApiClientError>) -> (o: ProbeOutcome)
        ensures
            (o == ProbeOutcome::Found) <==> (r is Ok && r->Ok_0 is Some),
            (o == ProbeOutcome::Empty) <==> (r is Ok && r->Ok_0 is None),
            (o == ProbeOutcome::NotFound) <==> (r is Err && r->Err_0 is NotFound),
    {
        match r {
            Ok(Some(_)) => ProbeOutcome::Found,
            Ok(None) => ProbeOutcome::Empty,
            Err(ApiClientError::NotFound) => ProbeOutcome::NotFound,
            Err(_) => ProbeOutcome::Failed,
        }
    }

    /// Whether this outcome counts towards the run of misses.
    pub fn is_miss(&self) -> (r: bool)
        ensures
            r == (*self != ProbeOutcome::Found),
    {
        !matches!(self, ProbeOutcome::Found)
    }
}

/// The number of misses at the end of a probe history (`true` = found).
pub open spec fn trailing_misses(h: Seq<bool>) -> nat
    decreases h.len(),
{
    if h.len() == 0 {
        0
    } else if h.last() {
        0
    } else {
        trailing_misses(h.drop_last()) + 1
    }
}

/// The number of events found in a probe history.
pub open spec fn found_count(h: Seq<bool>) -> nat
    decreases h.len(),
{
    if h.len() == 0 {
        0
    } else {
        found_count(h.drop_last()) + if h.last() {
            1nat
        } else {
            0nat
        }
    }
}

/// Whether a history has reached the halting threshold.
pub open spec fn halted(h: Seq<bool>, threshold: int) -> bool {
    trailing_misses(h) >= threshold
}

/// A checkpoint record: how far a crawl got.
#[derive(Debug, Clone)]
pub struct CrawlerState {
    /// The highest id probed.
    pub last_event_id: i32,
    /// Events found by the crawl so far.
    pub total_events: u64,
    /// When the record was written, in milliseconds since the Unix epoch.
    pub last_crawl: i64,
    /// What kind of crawl wrote the record.
    pub crawl_type: String,
}

/// The state of one crawl: where it started, the next id to probe, and the
/// run of misses that decides when it stops.
pub struct CrawlSession {
    start_id: i64,
    next_id: i64,
    max_misses: i32,
    consecutive_misses: u32,
    events_found: u64,
    history: Ghost<Seq<bool>>,
}

impl CrawlSession {
    /// The id the crawl started at.
    pub closed spec fn start(&self) -> int {
        self.start_id as int
    }

    /// The next id to probe.
    pub closed spec fn cursor(&self) -> int {
        self.next_id as int
    }

    /// The halting threshold.
    pub closed spec fn threshold(&self) -> int {
        self.max_misses as int
    }

    /// What each probe so far found, in probe order.
    pub closed spec fn probes(&self) -> Seq<bool> {
        self.history@
    }

    /// The running count of events found.
    pub closed spec fn found(&self) -> int {
        self.events_found as int
    }

    /// The run of misses at the end of the history.
    pub closed spec fn misses(&self) -> int {
        self.consecutive_misses as int
    }

    /// The session's invariant.
    pub closed spec fn wf(&self) -> bool {
        &&& i32::MIN < self.start_id <= i32::MAX + 1
        &&& self.next_id == self.start_id + self.history@.len()
        &&& self.next_id <= i32::MAX + 1
        &&& self.consecutive_misses == trailing_misses(self.history@)
        &&& self.events_found == found_count(self.history@)
        &&& forall|k: int|
            0 <= k < self.history@.len() ==> !halted(
                #[trigger] self.history@.take(k),
                self.max_misses as int,
            )
    }

    /// Whether the crawl probes another id.
    pub open spec fn active(&self) -> bool {
        !halted(self.probes(), self.threshold())
    }

    /// The facts that the invariant gives a caller.
    pub proof fn lemma_wf(&self)
        requires
            self.wf(),
        ensures
            self.cursor() == self.start() + self.probes().len(),
            self.misses() == trailing_misses(self.probes()),
            self.found() == found_count(self.probes()),
            i32::MIN < self.start() <= self.cursor() <= i32::MAX + 1,
            forall|k: int|
                0 <= k < self.probes().len() ==> !halted(
                    #[trigger] self.probes().take(k),
                    self.threshold(),
                ),
    {
    }

    /// A crawl that starts at `start_id` and stops after `max_misses`
    /// consecutive misses.
    pub fn new(start_id: i64, max_misses: i32) -> (s: CrawlSession)
        requires
            i32::MIN < start_id <= i32::MAX + 1,
        ensures
            s.wf(),
            s.start() == start_id,
            s.cursor() == start_id,
            s.threshold() == max_misses,
            s.probes() == Seq::<bool>::empty(),
            s.found() == 0,
    {
        CrawlSession {
            start_id,
            next_id: start_id,
            max_misses,
            consecutive_misses: 0,
            events_found: 0,
            history: Ghost(Seq::empty()),
        }
    }

    /// Whether the crawl goes on: the run of misses is below the threshold.
    pub fn is_active(&self) -> (r: bool)
        requires
            self.wf(),
        ensures
            r == self.active(),
    {
        (self.consecutive_misses as i64) < (self.max_misses as i64)
    }

    /// The id to probe next; never below the start.
    pub fn probe_id(&self) -> (id: i64)
        requires
            self.wf(),
        ensures
            id == self.cursor(),
            id >= self.start(),
    {
        self.next_id
    }

    /// Events found so far.
    pub fn events_found(&self) -> (n: u64)
        requires
            self.wf(),
        ensures
            n == self.found(),
            n == found_count(self.probes()),
    {
        self.events_found
    }

    /// Consecutive misses at the end of the history.
    pub fn consecutive_misses(&self) -> (n: u32)
        requires
            self.wf(),
        ensures
            n == trailing_misses(self.probes()),
    {
        self.consecutive_misses
    }

    /// Records the outcome of probing `probe_id()` and moves to the next id:
    /// a find resets the run of misses, anything else extends it. Returns
    /// whether a periodic checkpoint is due.
    pub fn record(&mut self, outcome: ProbeOutcome) -> (due: bool)
        requires
            old(self).wf(),
            old(self).active(),
            old(self).cursor() <= i32::MAX,
        ensures
            final(self).wf(),
            final(self).start() == old(self).start(),
            final(self).threshold() == old(self).threshold(),
            final(self).probes() == old(self).probes().push(outcome == ProbeOutcome::Found),
            final(self).cursor() == old(self).cursor() + 1,
            final(self).found() == old(self).found() + if outcome == ProbeOutcome::Found {
                1int
            } else {
                0int
            },
            final(self).misses() == if outcome == ProbeOutcome::Found {
                0
            } else {
                old(self).misses() + 1
            },
            due == (final(self).cursor() % (CHECKPOINT_EVERY as int) == 0),
    {
        let found = !outcome.is_miss();
        let ghost h = self.history@;
        let ghost h2 = h.push(found);
        proof {
            lemma_found_count_bounded(h);
            assert(h2.drop_last() =~= h);
            assert forall|k: int| 0 <= k < h2.len() implies !halted(
                #[trigger] h2.take(k),
                self.max_misses as int,
            ) by {
                if k < h.len() {
                    assert(h2.take(k) =~= h.take(k));
                } else {
                    assert(h2.take(k) =~= h);
                }
            }
        }
        if found {
            self.consecutive_misses = 0;
            self.events_found = self.events_found + 1;
        } else {
            self.consecutive_misses = self.consecutive_misses + 1;
        }
        self.next_id = self.next_id + 1;
        self.history = Ghost(h2);
        self.next_id % CHECKPOINT_EVERY == 0
    }

    /// The highest id probed so far (one below the start when none was).
    pub fn last_probed(&self) -> (id: i32)
        requires
            self.wf(),
        ensures
            id == self.cursor() - 1,
    {
        (self.next_id - 1) as i32
    }

    /// The checkpoint record for the crawl so far.
    pub fn checkpoint(&self, crawled_at: i64, crawl_type: &str) -> (c: CrawlerState)
        requires
            self.wf(),
        ensures
            c.last_event_id == self.cursor() - 1,
            c.total_events == self.found(),
            c.last_crawl == crawled_at,
            c.crawl_type@ == crawl_type@,
    {
        CrawlerState {
            last_event_id: self.last_probed(),
            total_events: self.events_found,
            last_crawl: crawled_at,
            crawl_type: crawl_type.to_owned(),
        }
    }
}

/// A crawl halts exactly when its run of consecutive misses first reaches the
/// threshold: no probe was made after an earlier history had reached it, and a
/// halted crawl has a run equal to the threshold, not beyond it. With a
/// threshold of zero or less nothing is probed.
pub proof fn lemma_halts_at_first_threshold(s: &CrawlSession)
    requires
        s.wf(),
    ensures
        forall|k: int|
            0 <= k < s.probes().len() ==> trailing_misses(#[trigger] s.probes().take(k))
                < s.threshold(),
        !s.active() <==> trailing_misses(s.probes()) >= s.threshold(),
        !s.active() && s.probes().len() > 0 ==> trailing_misses(s.probes()) == s.threshold(),
        s.threshold() <= 0 ==> s.probes().len() == 0,
{
    let h = s.probes();
    s.lemma_wf();
    if h.len() > 0 {
        assert(h.take(h.len() - 1) =~= h.drop_last());
        assert(!halted(h.take(h.len() - 1), s.threshold()));
    }
    if s.threshold() <= 0 && h.len() > 0 {
        assert(h.take(0) =~= Seq::<bool>::empty());
        assert(!halted(h.take(0), s.threshold()));
    }
}

/// Whether record `i` is the one a resume reads: the latest by timestamp, the
/// first among equally late ones.
pub open spec fn is_latest(states: Seq<CrawlerState>, i: int) -> bool {
    &&& 0 <= i < states.len()
    &&& forall|j: int| 0 <= j < states.len() ==> #[trigger] states[j].last_crawl <= states[i].last_crawl
    &&& forall|j: int| 0 <= j < i ==> #[trigger] states[j].last_crawl < states[i].last_crawl
}

/// The index of the latest checkpoint record, if there is any.
pub fn latest_checkpoint(states: &Vec<CrawlerState>) -> (r: Option<usize>)
    ensures
        r is None <==> states.len() == 0,
        r is Some ==> is_latest(states@, r->Some_0 as int),
{
    if states.len() == 0 {
        return None;
    }
    let mut best: usize = 0;
    let mut i: usize = 1;
    while i < states.len()
        invariant
            0 <= best < i <= states.len(),
            forall|j: int| 0 <= j < i ==> #[trigger] states@[j].last_crawl <= states@[best as int].last_crawl,
            forall|j: int| 0 <= j < best ==> #[trigger] states@[j].last_crawl < states@[best as int].last_crawl,
        decreases states.len() - i,
    {
        if states[i].last_crawl > states[best].last_crawl {
            best = i;
        }
        i = i + 1;
    }
    Some(best)
}

/// The id a resumed crawl starts at: one past the latest checkpoint's last
/// id, or 1 when there is no checkpoint.
pub fn resume_start_id(states: &Vec<CrawlerState>) -> (id: i64)
    ensures
        states.len() == 0 ==> id == 1,
        states.len() > 0 ==> exists|i: int|
            is_latest(states@, i) && id == states@[i].last_event_id + 1,
        i32::MIN < id <= i32::MAX + 1,
{
    match latest_checkpoint(states) {
        None => 1,
        Some(i) => states[i].last_event_id as i64 + 1,
    }
}

proof fn lemma_found_count_bounded(h: Seq<bool>)
    ensures
        found_count(h) <= h.len(),
    decreases h.len(),
{
    if h.len() > 0 {
        lemma_found_count_bounded(h.drop_last());
    }
}

} // verus!
