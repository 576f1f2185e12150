//! The [`EventIndexer`]: what it watches, and every decision of its poll
//! loop — where to start, what to ask the RPC, which events to hand on, how
//! long to wait, and when to stop.

use std::sync::atomic::AtomicBool;
use std::sync::atomic::Ordering;
use std::sync::Arc;
use std::time::Duration;
use vstd::arithmetic::power2::pow2;
use vstd::prelude::*;

use crate::config::{duration_as_secs, duration_from_secs, interval_duration, secs_duration, whole_secs, IndexerConfig};
use crate::event::{decode_event, decodes_from, filter_accepts, rfc3339_instant, EventFilter, IndexedEvent, LedgerTime};
use crate::rpc::{GetEventsParams, PaginationOptions, RpcEventFilter, RpcEventInfo};

verus! {

/// Cap on exponential backoff after repeated poll errors, so we never
/// wait longer than this between retries regardless of failure streak.
pub const MAX_BACKOFF_SECS: u64 = 60;

/// Seconds of ledger history available via RPC (7 days, conservative estimate)
pub const LEDGER_RETENTION_SECS: u32 = 7 * 24 * 3600;

/// Average ledger close time in seconds
pub const LEDGER_CLOSE_SECS: u32 = 6;

/// Ledgers retained ≈ 7 days worth
pub const LEDGER_RETENTION_COUNT: u32 = LEDGER_RETENTION_SECS / LEDGER_CLOSE_SECS;

// ─── Backoff ─────────────────────────────────────────────────────────────────

/// Seconds to wait after `attempt` consecutive failures with a base interval
/// of `base_secs` whole seconds: the base (at least one second) doubled for
/// each failure after the first, counting at most ten, and never more than
/// [`MAX_BACKOFF_SECS`]. Attempt 0 counts as attempt 1.
pub open spec fn backoff_secs(base_secs: int, attempt: int) -> int {
    let capped = if attempt < 10 { attempt } else { 10 };
    let exp = if capped >= 1 { capped - 1 } else { 0 };
    let base = if base_secs >= 1 { base_secs } else { 1 };
    let product = base * pow2(exp as nat);
    if product < MAX_BACKOFF_SECS { product } else { MAX_BACKOFF_SECS as int }
}

/// Compute the delay before the next retry after `attempt` consecutive
/// failures, doubling each time up to [`MAX_BACKOFF_SECS`].
///
/// `attempt` is 1 on the first failure. The base poll interval is used
/// as the starting point so a fast-polling indexer still backs off
/// meaningfully instead of hammering a struggling RPC endpoint.
pub fn backoff_delay(base: Duration, attempt: u32) -> (r: Duration)
    ensures
        r == secs_duration(backoff_secs(whole_secs(base) as int, attempt as int) as u64),
        whole_secs(r) == backoff_secs(whole_secs(base) as int, attempt as int),
{
    let capped_attempt: u32 = if attempt < 10 { attempt } else { 10 };
    let shift: u64 = if capped_attempt >= 1 { (capped_attempt - 1) as u64 } else { 0 };
    proof {
        vstd::arithmetic::power2::lemma2_to64();
        assert(1u64 * pow2(shift as nat) <= u64::MAX);
        vstd::bits::lemma_u64_shl_is_mul(1u64, shift);
    }
    let multiplier: u64 = 1u64 << shift;
    let base_secs = duration_as_secs(&base);
    let floor: u64 = if base_secs >= 1 { base_secs } else { 1 };
    let backoff_secs: u64 = match floor.checked_mul(multiplier) {
        Some(p) => p,
        None => u64::MAX,
    };
    let capped_secs: u64 = if backoff_secs < MAX_BACKOFF_SECS { backoff_secs } else { MAX_BACKOFF_SECS };
    duration_from_secs(capped_secs)
}

/// A backoff lasts at least one second and at most [`MAX_BACKOFF_SECS`].
pub proof fn lemma_backoff_bounds(base_secs: int, attempt: int)
    ensures
        1 <= backoff_secs(base_secs, attempt) <= MAX_BACKOFF_SECS,
{
    let capped = if attempt < 10 { attempt } else { 10 };
    let exp = if capped >= 1 { capped - 1 } else { 0 };
    let base = if base_secs >= 1 { base_secs } else { 1 };
    vstd::arithmetic::power2::lemma_pow2_pos(exp as nat);
    assert(base * pow2(exp as nat) >= 1) by (nonlinear_arith)
        requires
            base >= 1,
            pow2(exp as nat) >= 1,
    ;
}

/// The first failure waits the base interval (at least a second, at most the cap).
pub proof fn lemma_backoff_first_failure(base_secs: int)
    ensures
        backoff_secs(base_secs, 1) == if base_secs < 1 {
            1
        } else if base_secs < MAX_BACKOFF_SECS {
            base_secs
        } else {
            MAX_BACKOFF_SECS as int
        },
{
    let base = if base_secs >= 1 { base_secs } else { 1 };
    vstd::arithmetic::power2::lemma2_to64();
    assert(base * pow2(0) == base) by (nonlinear_arith)
        requires
            pow2(0) == 1,
    ;
}

/// A zero attempt count waits as long as the first failure does.
pub proof fn lemma_backoff_zero_as_first(base_secs: int)
    ensures
        backoff_secs(base_secs, 0) == backoff_secs(base_secs, 1),
{
}

/// Each further failure doubles the wait, up to the cap.
pub proof fn lemma_backoff_doubles(base_secs: int, attempt: int)
    requires
        attempt >= 1,
    ensures
        backoff_secs(base_secs, attempt + 1) == if 2 * backoff_secs(base_secs, attempt) < MAX_BACKOFF_SECS {
            2 * backoff_secs(base_secs, attempt)
        } else {
            MAX_BACKOFF_SECS as int
        },
{
    let base = if base_secs >= 1 { base_secs } else { 1 };
    vstd::arithmetic::power2::lemma2_to64();
    if attempt < 10 {
        let e = (attempt - 1) as nat;
        assert(pow2(e + 1) == 2 * pow2(e)) by {
            vstd::arithmetic::power2::lemma_pow2_unfold(e + 1);
        }
        assert(base * pow2(e + 1) == 2 * (base * pow2(e))) by (nonlinear_arith)
            requires
                pow2(e + 1) == 2 * pow2(e),
        ;
    } else {
        assert(base * pow2(9) >= 512) by (nonlinear_arith)
            requires
                base >= 1,
                pow2(9) == 512,
        ;
    }
}

/// More failures never shorten the wait.
pub proof fn lemma_backoff_monotone(base_secs: int, a1: int, a2: int)
    requires
        a1 <= a2,
    ensures
        backoff_secs(base_secs, a1) <= backoff_secs(base_secs, a2),
    decreases a2 - a1,
{
    if a1 < a2 {
        lemma_backoff_monotone(base_secs, a1, a2 - 1);
        if a2 - 1 >= 1 {
            lemma_backoff_doubles(base_secs, a2 - 1);
            lemma_backoff_bounds(base_secs, a2 - 1);
        } else {
            lemma_backoff_zero_as_first(base_secs);
            if a2 - 1 < 0 {
                assert(backoff_secs(base_secs, a2 - 1) == backoff_secs(base_secs, 0));
            }
        }
    }
}

// ─── The indexer ─────────────────────────────────────────────────────────────

/// The main indexer. Create one per contract you want to watch.
pub struct EventIndexer {
    config: IndexerConfig,
    filter: Option<EventFilter>,
    stopped: Arc<AtomicBool>,
}

/// A handle for cleanly stopping a running indexer from another thread.
pub struct StopHandle(Arc<AtomicBool>);

/// Calls `Arc::clone`, which makes another pointer to the same allocation.
/// Claimed: the clone is the same shared flag as `flag`.
#[verifier::external_body]
fn share_flag(flag: &Arc<AtomicBool>) -> (r: Arc<AtomicBool>)
    ensures
        r == *flag,
{
    Arc::clone(flag)
}

impl StopHandle {
    /// The stop flag that this handle sets.
    pub closed spec fn flag(&self) -> Arc<AtomicBool> {
        self.0
    }

    /// Signal the indexer to stop after its current poll completes.
    pub fn stop(&self) {
        self.0.store(true, Ordering::SeqCst);
    }
}

impl EventIndexer {
    /// The configuration the indexer was made with.
    pub closed spec fn config_spec(&self) -> IndexerConfig {
        self.config
    }

    /// The stop flag that the poll loop reads.
    pub closed spec fn stop_flag(&self) -> Arc<AtomicBool> {
        self.stopped
    }

    /// The filter attached to the indexer, if any.
    pub closed spec fn filter_spec(&self) -> Option<EventFilter> {
        self.filter
    }

    /// Create a new indexer with the given configuration.
    pub fn new(config: IndexerConfig) -> (r: Self)
        ensures
            r.config_spec() == config,
            r.filter_spec() is None,
    {
        EventIndexer { config, filter: None, stopped: Arc::new(AtomicBool::new(false)) }
    }

    /// Attach an optional event filter. Only matching events will be yielded.
    pub fn with_filter(self, filter: EventFilter) -> (r: Self)
        ensures
            r.config_spec() == self.config_spec(),
            r.filter_spec() == Some(filter),
            r.stop_flag() == self.stop_flag(),
    {
        EventIndexer { filter: Some(filter), ..self }
    }

    /// Returns a handle that, when called, will stop the indexer's poll loop.
    /// The handle sets the very flag that this indexer's loop reads.
    pub fn stop_handle(&self) -> (r: StopHandle)
        ensures
            r.flag() == self.stop_flag(),
    {
        StopHandle(share_flag(&self.stopped))
    }

    /// Whether a [`StopHandle`] of this indexer has been used. The flag is
    /// shared between threads, so no value is promised.
    pub fn is_stopped(&self) -> bool {
        self.stopped.load(Ordering::SeqCst)
    }

    /// The configuration the indexer was made with.
    pub fn config(&self) -> (r: &IndexerConfig)
        ensures
            *r == self.config_spec(),
    {
        &self.config
    }

    /// The filter attached to the indexer, if any.
    pub fn filter(&self) -> (r: &Option<EventFilter>)
        ensures
            *r == self.filter_spec(),
    {
        &self.filter
    }
}


// ─── The poll loop's decisions ───────────────────────────────────────────────

/// Where polling begins when no start ledger is configured: about seven
/// days of ledgers before `latest`, or ledger 0 when there are fewer.
pub open spec fn auto_start(latest: u32) -> u32 {
    if latest >= LEDGER_RETENTION_COUNT { (latest - LEDGER_RETENTION_COUNT) as u32 } else { 0 }
}

/// The position of a running poll loop.
#[derive(Debug, Clone, Copy, PartialEq, Eq, Structural)]
pub struct WatchState {
    /// The ledger the next poll asks events from.
    pub current_ledger: u32,
    /// How many polls in a row have failed.
    pub consecutive_errors: u32,
}

/// What the poll loop does next.
#[derive(Debug)]
pub enum WatchStep {
    /// Return: the indexer was stopped.
    Stop,
    /// Call `getEvents` with these parameters.
    Poll(GetEventsParams),
}

/// How a poll ended.
#[derive(Debug, Clone, Copy, PartialEq, Eq, Structural)]
pub enum PollOutcome {
    /// The RPC answered and every accepted event was handled; the RPC's
    /// latest ledger came with the answer.
    Fetched { latest_ledger: u32 },
    /// The RPC call, or the handler of an event, failed.
    Failed,
}

/// Whether `p` asks for the contract events of `config` from `ledger` on.
pub open spec fn polls_from(p: GetEventsParams, config: IndexerConfig, ledger: u32) -> bool {
    &&& p.start_ledger == ledger
    &&& p.filters@.len() == 1
    &&& p.filters@[0].event_type@ == "contract"@
    &&& p.filters@[0].contract_ids@.len() == 1
    &&& p.filters@[0].contract_ids@[0]@ == config.contract_id@
    &&& p.filters@[0].topics@.len() == 0
    &&& p.pagination.limit == config.max_events_per_poll
}

/// The loop's position after a poll: a fetch moves to the RPC's latest
/// ledger when that is ahead and clears the failure streak; a failure keeps
/// the ledger and lengthens the streak.
pub open spec fn next_watch_state(state: WatchState, outcome: PollOutcome) -> WatchState {
    match outcome {
        PollOutcome::Fetched { latest_ledger } => WatchState {
            current_ledger: if latest_ledger > state.current_ledger { latest_ledger } else { state.current_ledger },
            consecutive_errors: 0,
        },
        PollOutcome::Failed => WatchState {
            current_ledger: state.current_ledger,
            consecutive_errors: (state.consecutive_errors + 1) as u32,
        },
    }
}

/// How long the loop sleeps after reaching `state`: the poll interval after
/// a fetch, the backoff for the failure streak after a failure.
pub open spec fn pause_for(config: IndexerConfig, state: WatchState) -> Duration {
    if state.consecutive_errors == 0 {
        interval_duration(config.poll_interval)
    } else {
        secs_duration(
            backoff_secs(whole_secs(interval_duration(config.poll_interval)) as int, state.consecutive_errors as int) as u64,
        )
    }
}

/// Whether `f` (if any) lets `e` through.
pub open spec fn passes(f: Option<EventFilter>, e: IndexedEvent) -> bool {
    match f {
        None => true,
        Some(f) => filter_accepts(f, e),
    }
}

/// The events of `ds` that `f` (if any) lets through, in order.
pub open spec fn passing(f: Option<EventFilter>, ds: Seq<IndexedEvent>) -> Seq<IndexedEvent>
    decreases ds.len(),
{
    if ds.len() == 0 {
        Seq::empty()
    } else if passes(f, ds.last()) {
        passing(f, ds.drop_last()).push(ds.last())
    } else {
        passing(f, ds.drop_last())
    }
}

/// The events handed on are exactly the filter of the decoded events, in
/// order: every one of them passes the filter (the first like any other),
/// every decoded event that passes is among them, and none is added.
pub proof fn lemma_passing_is_filter(f: Option<EventFilter>, ds: Seq<IndexedEvent>)
    ensures
        passing(f, ds) == ds.filter(|e: IndexedEvent| passes(f, e)),
        forall|i: int| 0 <= i < passing(f, ds).len() ==> passes(f, #[trigger] passing(f, ds)[i]),
        forall|i: int|
            0 <= i < passing(f, ds).len() ==> (f matches Some(g) ==> filter_accepts(g, #[trigger] passing(f, ds)[i])),
        forall|i: int| 0 <= i < ds.len() && passes(f, ds[i]) ==> #[trigger] passing(f, ds).contains(ds[i]),
        forall|e: IndexedEvent| #[trigger] passing(f, ds).contains(e) ==> ds.contains(e),
        passing(f, ds).len() <= ds.len(),
        (forall|i: int| 0 <= i < ds.len() ==> passes(f, #[trigger] ds[i])) ==> passing(f, ds) == ds,
    decreases ds.len(),
{
    let pred = |e: IndexedEvent| passes(f, e);
    reveal(Seq::filter);
    if ds.len() > 0 {
        lemma_passing_is_filter(f, ds.drop_last());
    }
    assert(passing(f, ds) =~= ds.filter(pred));
    ds.filter_lemma(pred);
    assert forall|i: int| 0 <= i < ds.len() && passes(f, ds[i]) implies #[trigger] passing(f, ds).contains(ds[i]) by {
        ds.lemma_filter_contains(pred, i);
    }
    assert forall|e: IndexedEvent| #[trigger] passing(f, ds).contains(e) implies ds.contains(e) by {
        ds.lemma_filter_contains_rev(pred, e);
    }
    ds.lemma_filter_len(pred);
    if forall|i: int| 0 <= i < ds.len() ==> passes(f, #[trigger] ds[i]) {
        lemma_passing_keeps_all(f, ds);
    }
}

/// Where every decoded event passes, all of them are handed on.
pub proof fn lemma_passing_keeps_all(f: Option<EventFilter>, ds: Seq<IndexedEvent>)
    requires
        forall|i: int| 0 <= i < ds.len() ==> passes(f, #[trigger] ds[i]),
    ensures
        passing(f, ds) == ds,
    decreases ds.len(),
{
    if ds.len() > 0 {
        assert(passes(f, ds[ds.len() - 1]));
        assert forall|i: int| 0 <= i < ds.drop_last().len() implies passes(f, #[trigger] ds.drop_last()[i]) by {
            assert(ds.drop_last()[i] == ds[i]);
        }
        lemma_passing_keeps_all(f, ds.drop_last());
        assert(ds.drop_last().push(ds.last()) =~= ds);
    }
}

/// Whether `e` is `raw` decoded as [`decode_event`] promises.
pub open spec fn decoded_as_promised(e: IndexedEvent, raw: RpcEventInfo) -> bool {
    &&& exists|t: LedgerTime| decodes_from(e, raw, t)
    &&& (rfc3339_instant(raw.ledger_closed_at@) matches Some(p) ==> decodes_from(
        e,
        raw,
        LedgerTime { unix_seconds: p.0, subsec_nanos: p.1 },
    ))
}

/// The ledger to start from when none is configured.
pub fn auto_start_ledger(latest: u32) -> (r: u32)
    ensures
        r == auto_start(latest),
{
    latest.saturating_sub(LEDGER_RETENTION_COUNT)
}

impl EventIndexer {
    /// Whether the loop must ask the RPC for its latest ledger before it
    /// starts: when no start ledger is configured.
    pub fn needs_latest_ledger(&self) -> (r: bool)
        ensures
            r == self.config_spec().start_ledger is None,
    {
        self.config.start_ledger.is_none()
    }

    /// The loop's first position: the configured start ledger, else about
    /// seven days before `latest_ledger`; no failures yet.
    pub fn start_state(&self, latest_ledger: Option<u32>) -> (r: WatchState)
        requires
            self.config_spec().start_ledger is None ==> latest_ledger is Some,
        ensures
            r.consecutive_errors == 0,
            r.current_ledger == match self.config_spec().start_ledger {
                Some(l) => l,
                None => auto_start(latest_ledger.unwrap()),
            },
    {
        let start = match self.config.start_ledger {
            Some(l) => l,
            None => auto_start_ledger(latest_ledger.unwrap()),
        };
        WatchState { current_ledger: start, consecutive_errors: 0 }
    }

    /// The `getEvents` parameters for a poll from `ledger`: contract events
    /// of the configured contract, at most the configured number of them.
    pub fn poll_params(&self, ledger: u32) -> (r: GetEventsParams)
        ensures
            polls_from(r, self.config_spec(), ledger),
    {
        let mut contract_ids: Vec<String> = Vec::new();
        contract_ids.push(self.config.contract_id.clone());
        let mut filters: Vec<RpcEventFilter> = Vec::new();
        filters.push(RpcEventFilter { event_type: "contract".to_owned(), contract_ids, topics: Vec::new() });
        GetEventsParams {
            start_ledger: ledger,
            filters,
            pagination: PaginationOptions { limit: self.config.max_events_per_poll },
        }
    }

    /// What the loop does at `state`: stop when `stopped`, else poll from
    /// the current ledger.
    pub fn next_step(&self, state: &WatchState, stopped: bool) -> (r: WatchStep)
        ensures
            stopped ==> r is Stop,
            !stopped ==> (r matches WatchStep::Poll(p) && polls_from(p, self.config_spec(), state.current_ledger)),
    {
        if stopped {
            WatchStep::Stop
        } else {
            WatchStep::Poll(self.poll_params(state.current_ledger))
        }
    }

    /// Decodes a raw event and hands it on when the filter (if any) lets it
    /// through.
    pub fn accept(&self, raw: RpcEventInfo) -> (r: Option<IndexedEvent>)
        ensures
            match r {
                Some(e) => decoded_as_promised(e, raw) && passes(self.filter_spec(), e),
                None => exists|e: IndexedEvent| decoded_as_promised(e, raw) && !passes(self.filter_spec(), e),
            },
    {
        let ghost raw_copy = raw;
        let event = decode_event(raw);
        let pass = match &self.filter {
            Some(f) => f.matches(&event),
            None => true,
        };
        if pass {
            Some(event)
        } else {
            assert(decoded_as_promised(event, raw_copy));
            None
        }
    }

    /// The events of one `getEvents` answer that the handler receives, in
    /// the order the RPC gave them: each raw event decoded, kept where the
    /// filter (if any) lets it through.
    pub fn select_events(&self, events: Vec<RpcEventInfo>) -> (r: Vec<IndexedEvent>)
        ensures
            exists|ds: Seq<IndexedEvent>|
                {
                    &&& ds.len() == events@.len()
                    &&& forall|i: int| 0 <= i < ds.len() ==> decoded_as_promised(#[trigger] ds[i], events@[i])
                    &&& r@ == passing(self.filter_spec(), ds)
                },
            forall|i: int| 0 <= i < r@.len() ==> passes(self.filter_spec(), #[trigger] r@[i]),
            forall|i: int|
                0 <= i < r@.len() ==> (self.filter_spec() matches Some(f) ==> filter_accepts(f, #[trigger] r@[i])),
            r@.len() <= events@.len(),
    {
        broadcast use vstd::std_specs::vec::axiom_spec_into_iter;
        let ghost evs = events@;
        let ghost mut ds: Seq<IndexedEvent> = Seq::empty();
        let mut out: Vec<IndexedEvent> = Vec::new();
        for raw in it: events.into_iter()
            invariant
                it.seq() == evs,
                ds.len() == it.index(),
                forall|i: int| 0 <= i < ds.len() ==> decoded_as_promised(#[trigger] ds[i], evs[i]),
                out@ == passing(self.filter_spec(), ds),
        {
            let ghost raw_copy = raw;
            let event = decode_event(raw);
            let pass = match &self.filter {
                Some(f) => f.matches(&event),
                None => true,
            };
            proof {
                assert(raw_copy == evs[ds.len() as int]);
                let next = ds.push(event);
                assert(next.drop_last() =~= ds);
                assert forall|i: int| 0 <= i < next.len() implies decoded_as_promised(#[trigger] next[i], evs[i]) by {
                    if i < ds.len() {
                        assert(next[i] == ds[i]);
                    }
                }
                ds = next;
            }
            if pass {
                out.push(event);
            }
        }
        proof { lemma_passing_is_filter(self.filter_spec(), ds); }
        out
    }

    /// The loop's position after a poll that ended with `outcome`, and how
    /// long to sleep before the next one.
    pub fn after_poll(&self, state: WatchState, outcome: PollOutcome) -> (r: (WatchState, Duration))
        requires
            outcome is Failed ==> state.consecutive_errors < u32::MAX,
        ensures
            r.0 == next_watch_state(state, outcome),
            r.1 == pause_for(self.config_spec(), r.0),
    {
        let base = self.config.poll_interval.as_duration();
        match outcome {
            PollOutcome::Fetched { latest_ledger } => {
                let current = if latest_ledger > state.current_ledger { latest_ledger } else { state.current_ledger };
                (WatchState { current_ledger: current, consecutive_errors: 0 }, base)
            },
            PollOutcome::Failed => {
                let errors = state.consecutive_errors + 1;
                (WatchState { current_ledger: state.current_ledger, consecutive_errors: errors }, backoff_delay(base, errors))
            },
        }
    }
}

/// The loop never moves back: every poll leaves the ledger where it was or
/// ahead of it.
pub proof fn lemma_ledger_never_decreases(state: WatchState, outcome: PollOutcome)
    ensures
        next_watch_state(state, outcome).current_ledger >= state.current_ledger,
{
}

/// A fetch that reports a newer ledger makes the next poll start there; any
/// fetch clears the failure streak.
pub proof fn lemma_fetch_resumes_at_latest(state: WatchState, latest_ledger: u32)
    ensures
        next_watch_state(state, PollOutcome::Fetched { latest_ledger }).consecutive_errors == 0,
        latest_ledger > state.current_ledger ==> next_watch_state(
            state,
            PollOutcome::Fetched { latest_ledger },
        ).current_ledger == latest_ledger,
{
}

/// A failed poll is retried from the same ledger, after the backoff for
/// the lengthened failure streak: never longer than the cap, and no shorter
/// than the backoff before it.
pub proof fn lemma_failure_retries_same_ledger(config: IndexerConfig, state: WatchState)
    requires
        state.consecutive_errors < u32::MAX,
    ensures
        ({
            let next = next_watch_state(state, PollOutcome::Failed);
            let base = whole_secs(interval_duration(config.poll_interval)) as int;
            &&& next.current_ledger == state.current_ledger
            &&& next.consecutive_errors == state.consecutive_errors + 1
            &&& pause_for(config, next) == secs_duration(backoff_secs(base, next.consecutive_errors as int) as u64)
            &&& 1 <= backoff_secs(base, next.consecutive_errors as int) <= MAX_BACKOFF_SECS
            &&& backoff_secs(base, state.consecutive_errors as int) <= backoff_secs(base, next.consecutive_errors as int)
        }),
{
    let base = whole_secs(interval_duration(config.poll_interval)) as int;
    let n = state.consecutive_errors as int;
    lemma_backoff_bounds(base, n + 1);
    lemma_backoff_monotone(base, n, n + 1);
}

// ─── Runs of the poll loop ───────────────────────────────────────────────────

/// The loop's position after polls that ended with `outcomes`, in order,
/// starting at `start`.
pub open spec fn run_state(start: WatchState, outcomes: Seq<PollOutcome>) -> WatchState
    decreases outcomes.len(),
{
    if outcomes.len() == 0 {
        start
    } else {
        next_watch_state(run_state(start, outcomes.drop_last()), outcomes.last())
    }
}

/// The highest of `start` and the latest ledgers that fetches in `outcomes` reported.
pub open spec fn highest_ledger(start: u32, outcomes: Seq<PollOutcome>) -> u32
    decreases outcomes.len(),
{
    if outcomes.len() == 0 {
        start
    } else {
        let h = highest_ledger(start, outcomes.drop_last());
        match outcomes.last() {
            PollOutcome::Fetched { latest_ledger } => if latest_ledger > h { latest_ledger } else { h },
            PollOutcome::Failed => h,
        }
    }
}

/// How many polls at the end of `outcomes` failed in a row.
pub open spec fn trailing_failures(outcomes: Seq<PollOutcome>) -> nat
    decreases outcomes.len(),
{
    if outcomes.len() == 0 {
        0
    } else if outcomes.last() is Failed {
        trailing_failures(outcomes.drop_last()) + 1
    } else {
        0
    }
}

/// Over any run, the loop polls from the highest of its start ledger and
/// every latest ledger that a fetch reported.
pub proof fn lemma_run_ledger(start: WatchState, outcomes: Seq<PollOutcome>)
    ensures
        run_state(start, outcomes).current_ledger == highest_ledger(start.current_ledger, outcomes),
    decreases outcomes.len(),
{
    if outcomes.len() > 0 {
        lemma_run_ledger(start, outcomes.drop_last());
    }
}

/// Over any run, the polled ledger never moves back: a later position is at
/// or ahead of an earlier one.
pub proof fn lemma_run_ledger_never_decreases(start: WatchState, outcomes: Seq<PollOutcome>, i: int, j: int)
    requires
        0 <= i <= j <= outcomes.len(),
    ensures
        run_state(start, outcomes.take(i)).current_ledger <= run_state(start, outcomes.take(j)).current_ledger,
    decreases j - i,
{
    if i < j {
        lemma_run_ledger_never_decreases(start, outcomes, i, j - 1);
        assert(outcomes.take(j).drop_last() =~= outcomes.take(j - 1));
    }
}

/// Over any run, the polled ledger is at or ahead of every latest ledger
/// that a fetch reported so far.
pub proof fn lemma_run_ledger_covers_fetches(start: WatchState, outcomes: Seq<PollOutcome>, j: int)
    requires
        0 <= j <= outcomes.len(),
    ensures
        forall|k: int|
            0 <= k < j ==> (#[trigger] outcomes[k] matches PollOutcome::Fetched { latest_ledger }
                ==> latest_ledger <= run_state(start, outcomes.take(j)).current_ledger),
    decreases j,
{
    if j > 0 {
        lemma_run_ledger_covers_fetches(start, outcomes, j - 1);
        assert(outcomes.take(j).drop_last() =~= outcomes.take(j - 1));
        assert(outcomes.take(j).last() == outcomes[j - 1]);
    }
}

/// Over any run that does not overflow the counter, the failure count is the
/// number of polls that failed in a row at its end (added to the starting
/// count when every poll of the run failed); the next pause is then the
/// backoff for that many failures, or the poll interval after a fetch.
pub proof fn lemma_run_failure_streak(config: IndexerConfig, start: WatchState, outcomes: Seq<PollOutcome>)
    requires
        start.consecutive_errors + outcomes.len() <= u32::MAX,
    ensures
        run_state(start, outcomes).consecutive_errors == if trailing_failures(outcomes) == outcomes.len() {
            start.consecutive_errors + outcomes.len()
        } else {
            trailing_failures(outcomes) as int
        },
        trailing_failures(outcomes) < outcomes.len() ==> pause_for(config, run_state(start, outcomes))
            == if trailing_failures(outcomes) == 0 {
            interval_duration(config.poll_interval)
        } else {
            secs_duration(
                backoff_secs(
                    whole_secs(interval_duration(config.poll_interval)) as int,
                    trailing_failures(outcomes) as int,
                ) as u64,
            )
        },
    decreases outcomes.len(),
{
    if outcomes.len() > 0 {
        lemma_run_failure_streak(config, start, outcomes.drop_last());
        lemma_trailing_failures_bounded(outcomes.drop_last());
    }
}

/// No more polls fail in a row than there are polls.
pub proof fn lemma_trailing_failures_bounded(outcomes: Seq<PollOutcome>)
    ensures
        trailing_failures(outcomes) <= outcomes.len(),
    decreases outcomes.len(),
{
    if outcomes.len() > 0 {
        lemma_trailing_failures_bounded(outcomes.drop_last());
    }
}

} // verus!
