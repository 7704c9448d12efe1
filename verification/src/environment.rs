//! Lifecycle traits: the tunable settings a run starts from, the
//! capabilities a host injects, and the environment facade contract.

use crate::event_queue::EventEngineError;
use vstd::prelude::*;

verus! {

/// Default number of dispatched events between two yield boundaries.
pub const DEFAULT_ITER_COUNT_SLEEP: u64 = 5000;

/// Default duration of one yield, in milliseconds.
pub const DEFAULT_SLEEP_DURATION_MS: u64 = 100;

/// Default absolute bound on dispatched events.
pub const DEFAULT_MAX_ITER: u64 = u64::MAX;

/// The tunables a run starts from. The spec functions say which values a
/// settings object configures and default to the documented constants;
/// each accessor returns exactly its spec function's value, so the
/// scheduling loop's starting tunables are pinned to the settings it was
/// given. Once a run began, mutation goes through inbound control
/// messages only.
pub trait EnvironmentSettings {
    /// The configured number of dispatched events between two yield
    /// boundaries.
    open spec fn spec_iter_count(&self) -> u64 {
        DEFAULT_ITER_COUNT_SLEEP
    }

    /// The configured duration of each yield, in milliseconds.
    open spec fn spec_sleep_ms(&self) -> u64 {
        DEFAULT_SLEEP_DURATION_MS
    }

    /// The configured absolute upper bound on dispatched events.
    open spec fn spec_max_iter(&self) -> u64 {
        DEFAULT_MAX_ITER
    }

    /// Number of dispatched events between two yield boundaries.
    fn get_iter_count(&self) -> (r: u64)
        ensures
            r == self.spec_iter_count(),
    ;

    /// Duration of each yield, in milliseconds.
    fn get_sleep_ms(&self) -> (r: u64)
        ensures
            r == self.spec_sleep_ms(),
    ;

    /// Absolute upper bound on dispatched events.
    fn get_max_iter(&self) -> (r: u64)
        ensures
            r == self.spec_max_iter(),
    ;
}

/// The capabilities a caller injects into a run: a sink for short status
/// strings and a scheduler hook that suspends the loop at each yield
/// boundary. Nothing is promised of either; the engine's contracts hold
/// whatever they do.
pub trait Runtime {
    /// Records one status string.
    fn log(&mut self, message: &str);

    /// Suspends the caller for `duration_ms` milliseconds.
    fn sleep(&mut self, duration_ms: u64);
}

/// Lifecycle wrapper around a set of agents: constructs the initial event
/// seed, launches the scheduling loop, and steers it through control
/// messages.
pub trait AgentEnvironment: Sized {
    /// The injected host capabilities.
    type TRuntime: Runtime;

    /// The settings a run starts from.
    type TEnvironmentSettings: EnvironmentSettings;

    /// Records the injected capabilities; no agents yet.
    fn new(runtime: Self::TRuntime) -> Self;

    /// Instantiates agents, seeds the queue with one zero-time event per
    /// agent, and runs the scheduling loop to completion.
    fn run(&mut self, settings: Self::TEnvironmentSettings) -> Result<(), EventEngineError>;

    /// Asks the running loop to stop before its next dispatch.
    fn halt(&mut self);

    /// Changes the duration of each yield, in milliseconds.
    fn change_sleep_time(&mut self, time_ms: u64);

    /// Changes the number of dispatches between two yield boundaries.
    fn change_sleep_iter_count(&mut self, count: u64);

    /// Changes the absolute bound on dispatched events.
    fn change_max_iter_count(&mut self, count: u64);
}

} // verus!
