use vstd::prelude::*;

use crate::raw_sample::RawSample;

verus! {

/// The states of the sampling loop. Both terminal states are normal,
/// successful ends of a run: cancellation is not an error.
#[derive(Debug, Clone, Copy, PartialEq, Eq, Structural)]
pub enum LoopState {
    Running,
    TimedOut,
    Cancelled,
}

/// The wait between two snapshot ticks: a coarse sleep for long intervals,
/// a poll-and-yield spin for short ones, where coarse sleeps are not
/// reliable on general-purpose schedulers.
#[derive(Debug, Clone, Copy, PartialEq, Eq, Structural)]
pub enum WaitMethod {
    Sleep,
    Spin,
}

/// Intervals above this many nanoseconds are waited out with a coarse
/// sleep; at or below it, with a spin.
pub const SLEEP_THRESHOLD_NANOS: u64 = 20_000_000;

/// Picks how the inter-tick wait is performed for the given interval.
pub fn wait_method(interval_nanos: u64) -> (r: WaitMethod)
    ensures
        r == (if interval_nanos > SLEEP_THRESHOLD_NANOS {
            WaitMethod::Sleep
        } else {
            WaitMethod::Spin
        }),
{
    if interval_nanos > SLEEP_THRESHOLD_NANOS {
        WaitMethod::Sleep
    } else {
        WaitMethod::Spin
    }
}

/// The decision taken at the top of one loop iteration: past the duration
/// the run times out; otherwise a pending cancellation request ends it at
/// once; otherwise it keeps running.
pub open spec fn step_state(duration_nanos: u64, elapsed_nanos: u64, cancel_requested: bool) -> LoopState {
    if elapsed_nanos >= duration_nanos {
        LoopState::TimedOut
    } else if cancel_requested {
        LoopState::Cancelled
    } else {
        LoopState::Running
    }
}

/// What one poll at the top of a loop iteration saw, and what the tick
/// behind it would capture.
pub ghost struct LoopPoll {
    pub elapsed_nanos: u64,
    pub cancel_requested: bool,
    pub captured: Seq<RawSample>,
}

/// The loop unrolled over a run's successive polls: the state it ends in
/// and every sample it collects, one capture per iteration that proceeds.
/// This is `begin_tick`'s decision followed by `record_tick`'s capture,
/// folded over the whole run.
pub open spec fn run_model(duration_nanos: u64, polls: Seq<LoopPoll>) -> (LoopState, Seq<
    RawSample,
>)
    decreases polls.len(),
{
    if polls.len() == 0 {
        (LoopState::Running, Seq::empty())
    } else {
        let st = step_state(duration_nanos, polls[0].elapsed_nanos, polls[0].cancel_requested);
        if st != LoopState::Running {
            (st, Seq::empty())
        } else {
            let rest = run_model(duration_nanos, polls.drop_first());
            (rest.0, polls[0].captured + rest.1)
        }
    }
}

/// Cancellation precedence: a cancellation request already visible at the
/// first poll, before the duration has elapsed, ends the run as Cancelled —
/// not TimedOut — with zero ticks taken and zero samples collected.
pub proof fn lemma_cancellation_precedence(duration_nanos: u64, polls: Seq<LoopPoll>)
    requires
        polls.len() > 0,
        polls[0].elapsed_nanos < duration_nanos,
        polls[0].cancel_requested,
    ensures
        run_model(duration_nanos, polls).0 == LoopState::Cancelled,
        run_model(duration_nanos, polls).1 =~= Seq::<RawSample>::empty(),
{
}

/// One bounded, cancellable sampling run: the configured duration, the
/// state reached so far, the samples accumulated, and the ticks taken.
/// The driver polls the clock and the cancellation flag, hands both to
/// `begin_tick`, and on `true` captures one snapshot, records it with
/// `record_tick`, and waits out the interval per `wait_method`.
#[derive(Debug)]
pub struct SamplingLoop {
    pub duration_nanos: u64,
    pub state: LoopState,
    pub samples: Vec<RawSample>,
    pub ticks: u64,
}

impl SamplingLoop {
    pub fn new(duration_nanos: u64) -> (r: Self)
        ensures
            r.duration_nanos == duration_nanos,
            r.state == LoopState::Running,
            r.samples@ == Seq::<RawSample>::empty(),
            r.ticks == 0,
    {
        let r = Self { duration_nanos, state: LoopState::Running, samples: Vec::new(), ticks: 0 };
        proof {
            assert(r.samples@ =~= Seq::<RawSample>::empty());
        }
        r
    }

    /// Decides whether another snapshot tick may run, from the elapsed time
    /// and the cancellation flag as polled at the top of the iteration.
    /// On `false` the run has ended in the returned terminal state.
    pub fn begin_tick(&mut self, elapsed_nanos: u64, cancel_requested: bool) -> (proceed: bool)
        requires
            old(self).state == LoopState::Running,
        ensures
            final(self).duration_nanos == old(self).duration_nanos,
            final(self).samples == old(self).samples,
            final(self).ticks == old(self).ticks,
            final(self).state == step_state(
                old(self).duration_nanos,
                elapsed_nanos,
                cancel_requested,
            ),
            proceed == (final(self).state == LoopState::Running),
    {
        if elapsed_nanos >= self.duration_nanos {
            self.state = LoopState::TimedOut;
            false
        } else if cancel_requested {
            self.state = LoopState::Cancelled;
            false
        } else {
            true
        }
    }

    /// Appends one tick's snapshot to the accumulated samples.
    pub fn record_tick(&mut self, snapshot: Vec<RawSample>)
        requires
            old(self).state == LoopState::Running,
            old(self).ticks < u64::MAX,
        ensures
            final(self).duration_nanos == old(self).duration_nanos,
            final(self).state == old(self).state,
            final(self).samples@ == old(self).samples@ + snapshot@,
            final(self).ticks == old(self).ticks + 1,
    {
        let mut snapshot = snapshot;
        self.samples.append(&mut snapshot);
        self.ticks = self.ticks + 1;
    }
}

} // verus!
