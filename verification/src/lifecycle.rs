//! The lifecycle driver's decisions: what one event on the main loop makes
//! the process do with its listeners.

use vstd::prelude::*;

verus! {

/// The seconds in-flight requests are given to finish when a generation is
/// drained.
pub open spec fn spec_drain_deadline_secs() -> u64 {
    10
}

/// What woke the main loop.
#[derive(PartialEq, Eq, Structural, Clone, Copy, Debug)]
pub enum LifecycleEvent {
    /// The watched configuration file was modified.
    ConfigChanged,
    /// The operating system asked the process to stop.
    Interrupt,
    /// The configuration watcher itself stopped.
    WatcherStopped,
}

/// What the driver does next.
#[derive(PartialEq, Eq, Structural, Clone, Copy, Debug)]
pub enum LifecycleAction {
    /// Drain the listeners within the deadline, then rebuild from the
    /// configuration and serve again.
    GracefulRestart { drain_secs: u64 },
    /// Drain immediately and exit.
    ExitNow,
    /// Stop serving without rebuilding.
    StopServing,
}

/// Maps a main-loop event onto the driver's action: a configuration change
/// restarts gracefully within the ten-second drain deadline, an interrupt
/// exits, a stopped watcher ends serving.
pub fn lifecycle_decision(event: LifecycleEvent) -> (r: LifecycleAction)
    ensures
        event == LifecycleEvent::ConfigChanged ==> r == (LifecycleAction::GracefulRestart {
            drain_secs: spec_drain_deadline_secs(),
        }),
        event == LifecycleEvent::Interrupt ==> r == LifecycleAction::ExitNow,
        event == LifecycleEvent::WatcherStopped ==> r == LifecycleAction::StopServing,
{
    match event {
        LifecycleEvent::ConfigChanged => LifecycleAction::GracefulRestart { drain_secs: 10 },
        LifecycleEvent::Interrupt => LifecycleAction::ExitNow,
        LifecycleEvent::WatcherStopped => LifecycleAction::StopServing,
    }
}

} // verus!
