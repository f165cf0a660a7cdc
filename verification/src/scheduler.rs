//! The rotation scheduler. A timer state machine decides when rotation
//! cycles run: a new interval always cancels the armed timer, a zero
//! interval disables rotation, and a rearmed timer's first tick is
//! discarded so rearming never fires immediately. Each tick then drives
//! one rotation cycle, itself a state machine that sequences trim, source
//! pick, queue selection with one refill on a miss, cache resolution,
//! the wallpaper-set call and the queue mark; any failure ends only that
//! cycle.

use vstd::prelude::*;

use crate::HostError;
use crate::candidate::Candidate;

verus! {

/// The scheduler: no timer armed, or a periodic timer running. An armed
/// timer is `primed` once its first tick has been discarded.
#[derive(Clone, Copy, Debug, PartialEq, Eq, Structural)]
pub enum SchedulerState {
    /// No timer armed; rotation is off.
    Idle,
    /// A periodic timer is running with this period in milliseconds.
    Armed { interval_ms: u64, primed: bool },
}

/// What the runtime's timer must do after an interval change.
#[derive(Clone, Copy, Debug, PartialEq, Eq, Structural)]
pub enum TimerCommand {
    /// Cancel the armed timer, arm nothing.
    Disarm,
    /// Cancel the armed timer and arm a fresh periodic one.
    Rearm { interval_ms: u64 },
}

/// What one tick amounts to.
#[derive(Clone, Copy, Debug, PartialEq, Eq, Structural)]
pub enum TickOutcome {
    /// No timer should be running; the tick is stale and ignored.
    Ignored,
    /// The first tick after rearming, discarded by design.
    DiscardedFirst,
    /// A real tick: run one rotation cycle.
    RunCycle,
}

/// The state after an interval change: zero disables rotation, anything
/// else arms a fresh unprimed timer.
pub open spec fn spec_set_interval(interval_ms: u64) -> (SchedulerState, TimerCommand) {
    if interval_ms == 0 {
        (SchedulerState::Idle, TimerCommand::Disarm)
    } else {
        (
            SchedulerState::Armed { interval_ms, primed: false },
            TimerCommand::Rearm { interval_ms },
        )
    }
}

/// The state after a tick: an unprimed timer swallows it, a primed one
/// runs a cycle.
pub open spec fn spec_on_tick(s: SchedulerState) -> (SchedulerState, TickOutcome) {
    match s {
        SchedulerState::Idle => (s, TickOutcome::Ignored),
        SchedulerState::Armed { interval_ms, primed } => {
            if primed {
                (s, TickOutcome::RunCycle)
            } else {
                (
                    SchedulerState::Armed { interval_ms, primed: true },
                    TickOutcome::DiscardedFirst,
                )
            }
        },
    }
}

impl SchedulerState {
    /// Receives a new interval. Whatever was armed before is cancelled;
    /// zero means Idle, anything else arms a fresh timer whose first tick
    /// will be discarded.
    pub fn set_interval(&mut self, interval_ms: u64) -> (cmd: TimerCommand)
        ensures
            (*final(self), cmd) == spec_set_interval(interval_ms),
    {
        if interval_ms == 0 {
            *self = SchedulerState::Idle;
            TimerCommand::Disarm
        } else {
            *self = SchedulerState::Armed { interval_ms, primed: false };
            TimerCommand::Rearm { interval_ms }
        }
    }

    /// Receives one timer tick.
    pub fn on_tick(&mut self) -> (outcome: TickOutcome)
        ensures
            (*final(self), outcome) == spec_on_tick(*old(self)),
    {
        match *self {
            SchedulerState::Idle => TickOutcome::Ignored,
            SchedulerState::Armed { interval_ms, primed } => {
                if primed {
                    TickOutcome::RunCycle
                } else {
                    *self = SchedulerState::Armed { interval_ms, primed: true };
                    TickOutcome::DiscardedFirst
                }
            },
        }
    }
}

/// Changing the interval while a timer is armed cancels the old timer and
/// arms a fresh one for the new period; the fresh timer's first tick is
/// discarded, so no cycle runs before the new interval has elapsed, and
/// the second tick runs one.
pub proof fn lemma_rearm_never_fires_early(s: SchedulerState, new_interval_ms: u64)
    requires
        new_interval_ms != 0,
    ensures
        ({
            let (armed, cmd) = spec_set_interval(new_interval_ms);
            let (after_first, first) = spec_on_tick(armed);
            let (after_second, second) = spec_on_tick(after_first);
            &&& cmd == TimerCommand::Rearm { interval_ms: new_interval_ms }
            &&& armed == SchedulerState::Armed { interval_ms: new_interval_ms, primed: false }
            &&& first == TickOutcome::DiscardedFirst
            &&& second == TickOutcome::RunCycle
        }),
{
}

/// One rotation cycle, as the stations it passes through. The driver
/// performs the station's work (a queue call, a plugin call, a download,
/// the wallpaper-set call) and feeds the outcome back as a `CycleEvent`.
#[derive(Debug)]
pub enum CycleStep {
    /// Trim history, then pick a configured source key at random.
    PickSource,
    /// Ask the queue for the newest unshown candidate of the source.
    QueryQueue { source: String },
    /// The queue had nothing: fetch from the owning plugin and refill.
    Refill { source: String },
    /// Ask the queue once more after the one refill.
    Requery { source: String },
    /// Resolve the candidate in the cache, downloading on a miss.
    ResolveCache { candidate: Candidate },
    /// Apply the cached file as the desktop background.
    Apply { candidate: Candidate, path: String },
    /// Mark the candidate as shown and refresh its timestamp.
    Mark { candidate: Candidate },
    /// Announce the new wallpaper to the shell.
    Emit { candidate: Candidate },
    /// The cycle finished; this wallpaper is up.
    Done { applied_id: String },
    /// The cycle failed and ended; the next tick starts a fresh one.
    Failed { error: HostError },
}

/// What the driver reports back to the cycle.
#[derive(Debug)]
pub enum CycleEvent {
    /// The random pick among configured sources, `None` when none are
    /// configured.
    SourcePicked { source: Option<String> },
    /// The queue's answer to a selection query.
    QueueAnswer { candidate: Option<Candidate> },
    /// Whether fetching from the plugin and inserting the batch worked.
    RefillOutcome { ok: bool },
    /// The cache file path the candidate resolved or downloaded to.
    CacheOutcome { path: Result<String, HostError> },
    /// Whether the wallpaper-set call succeeded.
    ApplyOutcome { ok: bool },
    /// The queue row is marked as shown.
    MarkDone,
    /// The shell has been told.
    EmitDone,
}

/// Which events a station can be answered with.
pub open spec fn cycle_expects(s: CycleStep, e: CycleEvent) -> bool {
    match (s, e) {
        (CycleStep::PickSource, CycleEvent::SourcePicked { .. }) => true,
        (CycleStep::QueryQueue { .. }, CycleEvent::QueueAnswer { .. }) => true,
        (CycleStep::Refill { .. }, CycleEvent::RefillOutcome { .. }) => true,
        (CycleStep::Requery { .. }, CycleEvent::QueueAnswer { .. }) => true,
        (CycleStep::ResolveCache { .. }, CycleEvent::CacheOutcome { .. }) => true,
        (CycleStep::Apply { .. }, CycleEvent::ApplyOutcome { .. }) => true,
        (CycleStep::Mark { .. }, CycleEvent::MarkDone) => true,
        (CycleStep::Emit { .. }, CycleEvent::EmitDone) => true,
        _ => false,
    }
}

/// The transition table of one rotation cycle: strictly trim, pick,
/// select, refill once on a miss and select again, cache, apply, mark,
/// emit; every failure ends the cycle with its error class, and a missing
/// candidate after the one refill is the queue-empty error.
pub open spec fn spec_cycle_step(s: CycleStep, e: CycleEvent) -> CycleStep {
    match (s, e) {
        (CycleStep::PickSource, CycleEvent::SourcePicked { source }) => match source {
            Some(key) => CycleStep::QueryQueue { source: key },
            None => CycleStep::Failed { error: HostError::NotFound },
        },
        (CycleStep::QueryQueue { source }, CycleEvent::QueueAnswer { candidate }) => match candidate {
            Some(c) => CycleStep::ResolveCache { candidate: c },
            None => CycleStep::Refill { source },
        },
        (CycleStep::Refill { source }, CycleEvent::RefillOutcome { ok }) => {
            if ok {
                CycleStep::Requery { source }
            } else {
                CycleStep::Failed { error: HostError::Transport }
            }
        },
        (CycleStep::Requery { .. }, CycleEvent::QueueAnswer { candidate }) => match candidate {
            Some(c) => CycleStep::ResolveCache { candidate: c },
            None => CycleStep::Failed { error: HostError::QueueEmpty },
        },
        (CycleStep::ResolveCache { candidate }, CycleEvent::CacheOutcome { path }) => match path {
            Ok(p) => CycleStep::Apply { candidate, path: p },
            Err(err) => CycleStep::Failed { error: err },
        },
        (CycleStep::Apply { candidate, .. }, CycleEvent::ApplyOutcome { ok }) => {
            if ok {
                CycleStep::Mark { candidate }
            } else {
                CycleStep::Failed { error: HostError::Platform }
            }
        },
        (CycleStep::Mark { candidate }, CycleEvent::MarkDone) => CycleStep::Emit { candidate },
        (CycleStep::Emit { candidate }, CycleEvent::EmitDone) => CycleStep::Done {
            applied_id: candidate.id,
        },
        (_, _) => s,
    }
}

impl CycleStep {
    /// A fresh cycle, about to trim and pick a source.
    pub fn start() -> (r: CycleStep)
        ensures
            r == CycleStep::PickSource,
    {
        CycleStep::PickSource
    }

    /// Advances the cycle by one driver-reported outcome.
    pub fn step(self, e: CycleEvent) -> (r: CycleStep)
        requires
            cycle_expects(self, e),
        ensures
            r == spec_cycle_step(self, e),
    {
        match (self, e) {
            (CycleStep::PickSource, CycleEvent::SourcePicked { source }) => match source {
                Some(key) => CycleStep::QueryQueue { source: key },
                None => CycleStep::Failed { error: HostError::NotFound },
            },
            (CycleStep::QueryQueue { source }, CycleEvent::QueueAnswer { candidate }) => match candidate {
                Some(c) => CycleStep::ResolveCache { candidate: c },
                None => CycleStep::Refill { source },
            },
            (CycleStep::Refill { source }, CycleEvent::RefillOutcome { ok }) => {
                if ok {
                    CycleStep::Requery { source }
                } else {
                    CycleStep::Failed { error: HostError::Transport }
                }
            },
            (CycleStep::Requery { source }, CycleEvent::QueueAnswer { candidate }) => match candidate {
                Some(c) => CycleStep::ResolveCache { candidate: c },
                None => CycleStep::Failed { error: HostError::QueueEmpty },
            },
            (CycleStep::ResolveCache { candidate }, CycleEvent::CacheOutcome { path }) => match path {
                Ok(p) => CycleStep::Apply { candidate, path: p },
                Err(err) => CycleStep::Failed { error: err },
            },
            (CycleStep::Apply { candidate, path }, CycleEvent::ApplyOutcome { ok }) => {
                if ok {
                    CycleStep::Mark { candidate }
                } else {
                    CycleStep::Failed { error: HostError::Platform }
                }
            },
            (CycleStep::Mark { candidate }, CycleEvent::MarkDone) => CycleStep::Emit { candidate },
            (CycleStep::Emit { candidate }, CycleEvent::EmitDone) => CycleStep::Done {
                applied_id: candidate.id,
            },
            (s, _) => s,
        }
    }

    /// Whether the cycle has ended, well or badly.
    pub fn finished(&self) -> (r: bool)
        ensures
            r == (self is Done || self is Failed),
    {
        match self {
            CycleStep::Done { .. } => true,
            CycleStep::Failed { .. } => true,
            _ => false,
        }
    }
}

/// Relies on `rand::random_range`: a uniformly random index below `n`;
/// the range is non-empty, so the call cannot panic. Nothing more can be
/// promised of a random draw.
#[verifier::external_body]
fn random_below(n: usize) -> (r: usize)
    requires
        n >= 1,
    ensures
        r < n,
{
    rand::random_range(0..n)
}

/// Picks the source key for this cycle uniformly at random, or reports
/// that no source is configured.
pub fn pick_source(sources: &Vec<String>) -> (r: Result<&String, HostError>)
    ensures
        match r {
            Ok(s) => exists|i: int| 0 <= i < sources@.len() && *s == sources@[i],
            Err(e) => e == HostError::NotFound && sources@.len() == 0,
        },
{
    if sources.len() == 0 {
        return Err(HostError::NotFound);
    }
    let i = random_below(sources.len());
    Ok(&sources[i])
}

} // verus!
