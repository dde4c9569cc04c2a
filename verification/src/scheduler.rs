//! The scheduler: starts the cycle loop once and decides, after each cycle,
//! whether the loop sleeps or the process gives up.

use vstd::prelude::*;
use crate::cycle::{CycleError, CycleOutcome};

verus! {

/// The pause between the end of one cycle and the start of the next, in seconds.
pub const CYCLE_INTERVAL_SECONDS: u64 = 1200;

/// What the loop does after a cycle.
#[derive(Clone, Copy, Debug, PartialEq, Eq, Structural)]
pub enum LoopAction {
    /// Sleep for this many seconds, then run the next cycle.
    Sleep(u64),
    /// Stop the process: the cycle failed, and a restart is the only recovery.
    Crash(CycleError),
}

/// What the loop does after a cycle that ended with `outcome`.
pub open spec fn loop_action(outcome: CycleOutcome) -> LoopAction {
    match outcome {
        CycleOutcome::Failed(e) => LoopAction::Crash(e),
        _ => LoopAction::Sleep(CYCLE_INTERVAL_SECONDS),
    }
}

/// Decides what the loop does after a cycle: any failure is fatal, and after
/// every other cycle the loop sleeps for the fixed interval.
pub fn after_cycle(outcome: CycleOutcome) -> (action: LoopAction)
    ensures
        action == loop_action(outcome),
{
    match outcome {
        CycleOutcome::Failed(e) => LoopAction::Crash(e),
        _ => LoopAction::Sleep(CYCLE_INTERVAL_SECONDS),
    }
}

/// The guard of the cycle loop: idle until the loop is started, running from
/// then on.
pub struct Scheduler {
    running: bool,
}

impl View for Scheduler {
    type V = bool;

    /// Whether the loop is running.
    closed spec fn view(&self) -> bool {
        self.running
    }
}

/// The guard after a session signal, and whether that signal starts the loop:
/// it does where the loop was not running.
pub open spec fn signal(running: bool) -> (bool, bool) {
    (true, !running)
}

/// How many of `signals` session signals in a row start the loop.
pub open spec fn starts(running: bool, signals: nat) -> nat
    decreases signals,
{
    if signals == 0 {
        0
    } else {
        let (next, start) = signal(running);
        (if start {
            1nat
        } else {
            0nat
        }) + starts(next, (signals - 1) as nat)
    }
}

impl Scheduler {
    /// A scheduler whose loop has not been started.
    pub fn new() -> (scheduler: Scheduler)
        ensures
            !scheduler@,
    {
        Scheduler { running: false }
    }

    /// Whether the loop is running.
    pub fn is_running(&self) -> (running: bool)
        ensures
            running == self@,
    {
        self.running
    }

    /// Takes the signal that the transport has established a session, which may
    /// come any number of times. Tells whether the caller has to start the
    /// loop: it has on the first signal and never again.
    pub fn session_established(&mut self) -> (start: bool)
        ensures
            (final(self)@, start) == signal(old(self)@),
    {
        let start = !self.running;
        self.running = true;
        start
    }
}

/// Started once: however many session signals come, the loop is started by the
/// first of them and by no other.
pub proof fn law_started_once(signals: nat)
    ensures
        starts(false, signals) == (if signals == 0 {
            0nat
        } else {
            1nat
        }),
        starts(true, signals) == 0,
    decreases signals,
{
    if signals > 0 {
        law_started_once((signals - 1) as nat);
    }
}

} // verus!
