//! The process state as a mathematical value, its invariant, and what each
//! operation makes of it.
//!
//! Every executable operation of this crate is specified by one function of
//! this file: its contract says that the state after the call is that function
//! of the state before.

use vstd::prelude::*;
use crate::state::{toggled, DesiredState, StartupAction, StartupEvent, StartupPhase, State};
use crate::thread::{RawThreadHandle, ThreadData, Timestamp, THROTTLE_LIMIT};

verus! {

/// The grace period, in seconds, that a dead thread's entry stays in the registry.
pub const DEAD_THREAD_GRACE_SECS: u64 = 3;

/// A thread that has exited and whose registry entry awaits collection.
#[derive(Clone, Copy, Debug, PartialEq, Eq, Structural)]
pub struct DeadThread {
    pub time_of_death: Timestamp,
    pub thread: RawThreadHandle,
}

/// The whole state of the control core.
///
/// `records` holds every per-thread record ever made, in order of creation:
/// the record with dense id `n` is `records[n - 1]`. The registry's table from
/// system thread id to record is the set of records marked `registered`.
#[verifier::ext_equal]
pub struct Model {
    pub state: State,
    pub desired_state: DesiredState,
    pub thread_running: bool,
    pub startup: StartupPhase,
    pub enabled_for_new_threads: bool,
    pub records: Seq<ThreadData>,
    pub dead_thread_queue: Seq<DeadThread>,
    /// The system thread id of the holder of the allocation lock, which holds
    /// the registry lock with it.
    pub allocation_lock: Option<u32>,
    pub sym_register_frame: Option<usize>,
    pub sym_deregister_frame: Option<usize>,
}

impl Model {
    /// The state of a process in which nothing has run.
    pub open spec fn initial() -> Model {
        Model {
            state: State::Uninitialized,
            desired_state: DesiredState::Disabled,
            thread_running: false,
            startup: StartupPhase::Idle,
            enabled_for_new_threads: false,
            records: Seq::empty(),
            dead_thread_queue: Seq::empty(),
            allocation_lock: None,
            sym_register_frame: None,
            sym_deregister_frame: None,
        }
    }

    /// The dense id that the next new record gets.
    pub open spec fn thread_counter(self) -> nat {
        self.records.len() + 1
    }

    /// Whether `handle` names a record of this state.
    pub open spec fn has_record(self, handle: RawThreadHandle) -> bool {
        &&& 1 <= handle.internal_thread_id <= self.records.len()
        &&& self.records[handle.internal_thread_id - 1].thread_id == handle.thread_id
    }

    /// The record that `handle` names.
    pub open spec fn record(self, handle: RawThreadHandle) -> ThreadData {
        self.records[handle.internal_thread_id - 1]
    }

    /// Whether the registry maps `thread_id` to `records[i]`.
    pub open spec fn is_registered_at(self, i: int, thread_id: u32) -> bool {
        &&& 0 <= i < self.records.len()
        &&& self.records[i].registered
        &&& self.records[i].thread_id == thread_id
    }

    /// The index of the record that the registry maps `thread_id` to.
    pub open spec fn lookup(self, thread_id: u32) -> Option<int> {
        if exists|i: int| self.is_registered_at(i, thread_id) {
            Some(choose|i: int| self.is_registered_at(i, thread_id))
        } else {
            None
        }
    }

    /// What the allocation lock, as it is held now, adds to the refcount of `r`.
    pub open spec fn lock_delta(self, r: ThreadData) -> usize {
        match self.allocation_lock {
            Some(owner) => if r.is_traced() && r.thread_id != owner {
                THROTTLE_LIMIT
            } else {
                0
            },
            None => 0,
        }
    }

    /// Whether a record can still be added.
    pub open spec fn has_room(self) -> bool {
        self.records.len() + 1 < usize::MAX
    }

    /// The records are indexed by their dense id, the registry maps a system
    /// thread id to at most one of them, and each carries exactly what the
    /// allocation lock has put on it.
    pub open spec fn records_wf(self) -> bool {
        &&& self.records.len() < usize::MAX
        &&& forall|i: int|
            0 <= i < self.records.len() ==> (#[trigger] self.records[i]).internal_thread_id == i
                + 1
        &&& forall|i: int, j: int|
            #![trigger self.records[i], self.records[j]]
            0 <= i < self.records.len() && 0 <= j < self.records.len() && i != j
                && self.records[i].registered && self.records[j].registered
                ==> self.records[i].thread_id != self.records[j].thread_id
        &&& forall|i: int|
            0 <= i < self.records.len() ==> (#[trigger] self.records[i]).throttle
                == self.lock_delta(self.records[i])
        &&& forall|i: int|
            0 <= i < self.records.len() ==> (#[trigger] self.records[i]).strong_handles
                + self.records[i].weak_handles <= usize::MAX - THROTTLE_LIMIT
        &&& forall|k: int|
            0 <= k < self.dead_thread_queue.len() ==> self.has_record(
                (#[trigger] self.dead_thread_queue[k]).thread,
            )
    }

    /// The flags agree with the lifecycle state.
    pub open spec fn lifecycle_wf(self) -> bool {
        &&& self.state == State::Enabled || self.state == State::Stopping ==> self.thread_running
            && self.enabled_for_new_threads
        &&& self.state == State::Uninitialized || self.state == State::Disabled || self.state
            == State::PermanentlyDisabled ==> !self.thread_running
            && !self.enabled_for_new_threads
        &&& self.state == State::Starting <==> self.startup != StartupPhase::Idle
        &&& self.startup == StartupPhase::Spawning ==> !self.enabled_for_new_threads
        &&& self.startup == StartupPhase::Resolving || self.startup == StartupPhase::Patching
            ==> self.thread_running && self.enabled_for_new_threads
    }

    /// While new threads start enabled, every other traced thread is enabled
    /// too, unless it holds a strong handle.
    pub open spec fn threads_enabled_wf(self) -> bool {
        self.enabled_for_new_threads ==> forall|i: int|
            0 <= i < self.records.len() && (#[trigger] self.records[i]).is_traced()
                && self.records[i].strong_handles == 0 ==> self.records[i].enabled
    }

    /// The invariant of the control core.
    pub open spec fn wf(self) -> bool {
        &&& self.records_wf()
        &&& self.lifecycle_wf()
        &&& self.threads_enabled_wf()
    }
}


/// What a thread's thread-local slot holds.
#[derive(PartialEq, Eq, Structural)]
pub enum Tls {
    /// The thread has not made an intercepted call yet.
    Uninitialized,
    /// The slot holds the sentinel of the thread's record.
    Alive(RawThreadHandle),
    /// The thread is exiting and the slot has been torn down.
    Destroyed,
}

/// How an attempt to acquire a strong handle ends.
#[derive(PartialEq, Eq, Structural)]
pub enum Acquired {
    /// A strong handle to this record.
    Handle(RawThreadHandle),
    /// None: tracing is off, or off for this thread, or the thread is inside the profiler.
    Nothing,
    /// The thread is parked by the allocation lock, or needs the registry
    /// while it is locked: it yields and tries again.
    Blocked,
    /// Tracing is asked for and not on yet: the caller does what the action
    /// says, and tries again with the event that the action names.
    Startup(StartupAction),
}

// Lifecycle
impl Model {
    pub open spec fn toggle(self) -> Model {
        if self.state == State::PermanentlyDisabled {
            self
        } else {
            Model { desired_state: toggled(self.desired_state), ..self }
        }
    }

    pub open spec fn enable(self) -> (Model, bool) {
        if self.state == State::PermanentlyDisabled {
            (self, false)
        } else {
            (
                Model { desired_state: DesiredState::Enabled, ..self },
                self.desired_state != DesiredState::Enabled,
            )
        }
    }

    pub open spec fn disable(self) -> (Model, bool) {
        if self.state == State::PermanentlyDisabled {
            (self, false)
        } else {
            (
                Model { desired_state: DesiredState::Suspended, ..self },
                self.desired_state == DesiredState::Enabled,
            )
        }
    }

    /// Whether a caller of `sync` has to keep waiting.
    pub open spec fn is_busy(self) -> bool {
        ||| self.state.is_transient()
        ||| (self.desired_state == DesiredState::Disabled && self.thread_running && self.state
            == State::Enabled)
    }

    /// Whether the worker's join handle is to be taken and joined.
    pub open spec fn may_join(self) -> bool {
        self.state == State::Stopping || self.state == State::Disabled
    }

    pub open spec fn is_actively_running(self) -> bool {
        self.desired_state == DesiredState::Enabled
    }

    /// The second component says whether the `Exit` event is to be sent.
    pub open spec fn try_disable_if_requested(self) -> (Model, bool) {
        if self.desired_state == DesiredState::Disabled && self.state == State::Enabled {
            (Model { state: State::Stopping, ..self }, true)
        } else {
            (self, false)
        }
    }

    /// The second component says whether the `Exit` event is to be sent and the
    /// worker waited for.
    pub open spec fn on_exit(self) -> (Model, bool) {
        if self.state == State::PermanentlyDisabled {
            (self, false)
        } else {
            (Model { desired_state: DesiredState::Disabled, ..self }, true)
        }
    }

    /// The records after every traced thread's `enabled` flag has been set to `value`.
    pub open spec fn swept(self, value: bool) -> Seq<ThreadData> {
        Seq::new(
            self.records.len(),
            |i: int|
                if self.records[i].is_traced() {
                    self.records[i].with_enabled(value)
                } else {
                    self.records[i]
                },
        )
    }

    /// One step of the startup protocol.
    pub open spec fn try_enable(self, event: StartupEvent) -> (Model, StartupAction) {
        if self.state == State::PermanentlyDisabled {
            (self, StartupAction::Refuse)
        } else {
            match event {
                StartupEvent::Attempt => {
                    if self.state == State::Uninitialized {
                        (Model { state: State::Disabled, ..self }, StartupAction::RunStartup)
                    } else if self.desired_state == DesiredState::Disabled {
                        (self, StartupAction::Refuse)
                    } else if self.state != State::Disabled {
                        (self, StartupAction::Refuse)
                    } else if self.allocation_lock is Some {
                        (self, StartupAction::Wait)
                    } else {
                        (
                            Model {
                                state: State::Starting,
                                startup: StartupPhase::Spawning,
                                ..self
                            },
                            StartupAction::SpawnWorker,
                        )
                    }
                },
                StartupEvent::WorkerRunning => {
                    if self.startup != StartupPhase::Spawning {
                        (self, StartupAction::Refuse)
                    } else if !self.thread_running || self.allocation_lock is Some {
                        (self, StartupAction::Wait)
                    } else {
                        (
                            Model {
                                enabled_for_new_threads: true,
                                records: self.swept(true),
                                startup: StartupPhase::Resolving,
                                ..self
                            },
                            StartupAction::ResolveSymbols,
                        )
                    }
                },
                StartupEvent::SymbolsResolved { register_frame, deregister_frame } => {
                    if self.startup != StartupPhase::Resolving {
                        (self, StartupAction::Refuse)
                    } else if register_frame is Some && deregister_frame is Some {
                        (
                            Model {
                                sym_register_frame: register_frame,
                                sym_deregister_frame: deregister_frame,
                                startup: StartupPhase::Patching,
                                ..self
                            },
                            StartupAction::PatchAllocator,
                        )
                    } else {
                        (
                            Model { startup: StartupPhase::Patching, ..self },
                            StartupAction::PatchAllocator,
                        )
                    }
                },
                StartupEvent::AllocatorPatched => {
                    if self.startup != StartupPhase::Patching {
                        (self, StartupAction::Refuse)
                    } else {
                        (
                            Model { state: State::Enabled, startup: StartupPhase::Idle, ..self },
                            StartupAction::Done,
                        )
                    }
                },
            }
        }
    }
}

} // verus!
