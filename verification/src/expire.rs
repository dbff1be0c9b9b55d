//! When to sweep.
//!
//! Old readings are discarded by a task that sleeps for a fixed interval,
//! sweeps the store, and sleeps again, for as long as the service runs.  The
//! task is not meant to end: if it does, whoever supervises it waits a
//! moment and starts it afresh.  What to do next is decided here; the
//! sleeping and the sweeping are done by the caller.

use vstd::prelude::*;

verus! {

/// How long to wait before the task is started again after it has ended.
pub const RESTART_DELAY: u64 = 10;

/// Where the task stands.
#[derive(Clone, Copy, Debug, PartialEq, Eq, Structural)]
pub enum ExpireState {
    /// Asleep between two sweeps.
    Idle,
    /// Sweeping the store.
    Sweeping,
    /// Ended, and waiting to be started again.
    Restarting,
}

/// What has happened.
#[derive(Clone, Copy, Debug, PartialEq, Eq, Structural)]
pub enum ExpireEvent {
    /// The sleep that was asked for is over.
    Woke,
    /// The sweep that was asked for is done.
    Swept,
    /// The task has ended, which it should not.
    Exited,
}

/// What to do next.
#[derive(Clone, Copy, Debug, PartialEq, Eq, Structural)]
pub enum ExpireAction {
    /// Sleep for this long, then report `Woke`.
    Sleep(u64),
    /// Sweep the store, then report `Swept`.
    Sweep,
}

/// The state and the action that follow `event` in `state`, for a task that
/// sweeps every `interval`.
///
/// The end of the task leads to a wait of `RESTART_DELAY` from any state, and
/// a finished sweep to a sleep of `interval`.  Waking up leads to a sweep,
/// except after the wait that follows the end of the task: the task that is
/// started then begins, as every task does, by sleeping for `interval`.
pub open spec fn next(state: ExpireState, event: ExpireEvent, interval: u64) -> (
    ExpireState,
    ExpireAction,
) {
    match event {
        ExpireEvent::Exited => (ExpireState::Restarting, ExpireAction::Sleep(RESTART_DELAY)),
        ExpireEvent::Swept => (ExpireState::Idle, ExpireAction::Sleep(interval)),
        ExpireEvent::Woke => match state {
            ExpireState::Restarting => (ExpireState::Idle, ExpireAction::Sleep(interval)),
            _ => (ExpireState::Sweeping, ExpireAction::Sweep),
        },
    }
}

/// The task that discards old readings, as far as its decisions go.
#[derive(Clone, Copy, Debug, PartialEq, Eq, Structural)]
pub struct ExpireTask {
    pub interval: u64,
    pub state: ExpireState,
}

impl ExpireTask {
    /// A task that sweeps every `interval`, and the first thing it does: it
    /// sleeps for `interval`.
    pub fn start(interval: u64) -> (r: (ExpireTask, ExpireAction))
        ensures
            r.0 == (ExpireTask { interval, state: ExpireState::Idle }),
            r.1 == ExpireAction::Sleep(interval),
    {
        (ExpireTask { interval, state: ExpireState::Idle }, ExpireAction::Sleep(interval))
    }

    /// Takes note of `event` and says what to do next.
    pub fn step(&mut self, event: ExpireEvent) -> (action: ExpireAction)
        ensures
            final(self).interval == old(self).interval,
            (final(self).state, action) == next(old(self).state, event, old(self).interval),
    {
        let (state, action) = match event {
            ExpireEvent::Exited => (ExpireState::Restarting, ExpireAction::Sleep(RESTART_DELAY)),
            ExpireEvent::Swept => (ExpireState::Idle, ExpireAction::Sleep(self.interval)),
            ExpireEvent::Woke => match self.state {
                ExpireState::Restarting => (ExpireState::Idle, ExpireAction::Sleep(self.interval)),
                _ => (ExpireState::Sweeping, ExpireAction::Sweep),
            },
        };
        self.state = state;
        action
    }
}

} // verus!
