//! The two words that drive the profiler: where it is, and where the user wants it.

use vstd::prelude::*;

verus! {

/// The actual lifecycle position of the profiler.
#[derive(Clone, Copy, Debug, PartialEq, Eq, Structural)]
pub enum State {
    /// Nothing has run yet; one-shot startup is still owed.
    Uninitialized,
    /// Startup has run and no worker is alive.
    Disabled,
    /// One caller has won the right to start the worker and is doing so.
    Starting,
    /// The worker is alive and intercepted calls are recorded.
    Enabled,
    /// The worker has been told to exit and is draining.
    Stopping,
    /// The process is a fork child: nothing will ever run again.
    PermanentlyDisabled,
}

/// What the user has asked for.
#[derive(Clone, Copy, Debug, PartialEq, Eq, Structural)]
pub enum DesiredState {
    /// Terminate and join the worker. Also the initial value.
    Disabled,
    /// Started once, paused now, may be resumed.
    Suspended,
    /// Trace.
    Enabled,
}

/// How far the caller that is starting the worker has come.
///
/// It is `Idle` except while the state is `Starting`; while it is not `Idle` the
/// startup lock is held.
#[derive(Clone, Copy, Debug, PartialEq, Eq, Structural)]
pub enum StartupPhase {
    /// Nobody is starting the worker.
    Idle,
    /// The worker has been asked for and has not reported yet, or has just done so.
    Spawning,
    /// Every known thread is enabled; the unwinder's frame hooks are being looked up.
    Resolving,
    /// The in-binary allocator is being patched.
    Patching,
}

/// What the caller that runs the startup protocol reports.
#[derive(Clone, Copy, Debug, PartialEq, Eq, Structural)]
pub enum StartupEvent {
    /// An intercepted call found the profiler not enabled.
    Attempt,
    /// The worker thread has been spawned and the caller has seen it running.
    WorkerRunning,
    /// The lookup of the two frame registration functions has ended, each with
    /// its address or with nothing.
    SymbolsResolved { register_frame: Option<usize>, deregister_frame: Option<usize> },
    /// The allocator's entry points have been patched, or there were none.
    AllocatorPatched,
}

/// What the caller that runs the startup protocol has to do next.
#[derive(Clone, Copy, Debug, PartialEq, Eq, Structural)]
pub enum StartupAction {
    /// Give up: this call proceeds untraced.
    Refuse,
    /// Yield, then report the same event again.
    Wait,
    /// Run the one-shot startup, then report `Attempt` again.
    RunStartup,
    /// Prime the unwinder, spawn the worker, wait until it runs, then report `WorkerRunning`.
    SpawnWorker,
    /// Look up the frame registration functions, then report `SymbolsResolved`.
    ResolveSymbols,
    /// Patch the allocator, then report `AllocatorPatched`.
    PatchAllocator,
    /// Tracing is on.
    Done,
}

impl State {
    /// Whether a transition is under way.
    pub open spec fn is_transient(self) -> bool {
        self == State::Starting || self == State::Stopping
    }
}

/// The value that `toggle` moves a desired state to.
///
/// Both `Disabled` and `Suspended` go to `Enabled`; `Enabled` goes to `Suspended`.
/// `Disabled` is never the result: it is reserved for shutdown.
pub open spec fn toggled(desired: DesiredState) -> DesiredState {
    match desired {
        DesiredState::Disabled => DesiredState::Enabled,
        DesiredState::Suspended => DesiredState::Enabled,
        DesiredState::Enabled => DesiredState::Suspended,
    }
}

} // verus!
