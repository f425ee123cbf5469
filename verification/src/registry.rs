//! What the thread registry, the handle protocol and the allocation lock make
//! of the state.

use vstd::prelude::*;
use crate::model::{Acquired, DeadThread, Model, Tls, DEAD_THREAD_GRACE_SECS};
use crate::state::{DesiredState, StartupAction, StartupEvent, StartupPhase, State};
use crate::thread::{InternalAllocationId, RawThreadHandle, ThreadData, Timestamp, THROTTLE_LIMIT};

verus! {

/// Whether a thread that died at `time_of_death` is older than the grace period at `now`.
pub open spec fn is_expired(time_of_death: Timestamp, now: Timestamp) -> bool {
    time_of_death.secs + DEAD_THREAD_GRACE_SECS < now.secs
}

/// The length of the longest prefix of `queue[from..]` whose entries have all expired.
pub open spec fn expired_count_from(queue: Seq<DeadThread>, now: Timestamp, from: int) -> nat
    decreases queue.len() - from,
{
    if 0 <= from < queue.len() && is_expired(queue[from].time_of_death, now) {
        1 + expired_count_from(queue, now, from + 1)
    } else {
        0
    }
}

/// The handles of the traced records among the first `n`, in order of creation.
pub open spec fn traced_handles(records: Seq<ThreadData>, n: int) -> Seq<RawThreadHandle>
    decreases n,
{
    if n <= 0 {
        Seq::empty()
    } else if records[n - 1].is_traced() {
        traced_handles(records, n - 1).push(records[n - 1].handle())
    } else {
        traced_handles(records, n - 1)
    }
}

impl Model {
    /// The state with the record that `handle` names replaced by `record`.
    pub open spec fn with_record(self, handle: RawThreadHandle, record: ThreadData) -> Model {
        Model { records: self.records.update(handle.internal_thread_id - 1, record), ..self }
    }

    /// Whether `tls` is a slot of this state.
    pub open spec fn has_tls(self, tls: Tls) -> bool {
        tls matches Tls::Alive(handle) ==> self.has_record(handle)
    }

    /// The thread-local initializer: a new record for `thread_id`, registered in
    /// place of any record that the registry held for that id.
    pub open spec fn register(self, thread_id: u32) -> (Model, RawThreadHandle) {
        let record = ThreadData::fresh(
            thread_id,
            (self.records.len() + 1) as u64,
            self.enabled_for_new_threads,
        );
        let kept = Seq::new(
            self.records.len(),
            |i: int|
                if self.records[i].thread_id == thread_id {
                    self.records[i].with_registered(false)
                } else {
                    self.records[i]
                },
        );
        (Model { records: kept.push(record), ..self }, record.handle())
    }

    /// Access to the thread-local slot of thread `thread_id`, which initializes it on first use.
    pub open spec fn tls_with(self, tls: Tls, thread_id: u32) -> (Model, Tls, Option<
        RawThreadHandle,
    >) {
        match tls {
            Tls::Uninitialized => {
                let (next, handle) = self.register(thread_id);
                (next, Tls::Alive(handle), Some(handle))
            },
            Tls::Alive(handle) => (self, tls, Some(handle)),
            Tls::Destroyed => (self, tls, None),
        }
    }

    /// The thread that owns `tls` exits.
    pub open spec fn thread_exit(self, tls: Tls, now: Timestamp) -> (Model, Tls) {
        match tls {
            Tls::Alive(handle) => match self.lookup(handle.thread_id) {
                Some(i) => (
                    Model {
                        dead_thread_queue: self.dead_thread_queue.push(
                            DeadThread { time_of_death: now, thread: self.records[i].handle() },
                        ),
                        ..self
                    },
                    Tls::Destroyed,
                ),
                None => (self, Tls::Destroyed),
            },
            _ => (self, Tls::Destroyed),
        }
    }

    /// The number of entries at the head of the dead thread queue that `now` lets go.
    pub open spec fn expired_count(self, now: Timestamp) -> nat {
        expired_count_from(self.dead_thread_queue, now, 0)
    }

    /// Whether one of the first `count` entries of the dead thread queue names `records[i]`.
    pub open spec fn is_named_dead(self, i: int, count: int) -> bool {
        exists|k: int|
            0 <= k < count && (#[trigger] self.dead_thread_queue[k]).thread.internal_thread_id == i
                + 1
    }

    pub open spec fn garbage_collect_dead_threads(self, now: Timestamp) -> Model {
        let count = self.expired_count(now) as int;
        Model {
            records: Seq::new(
                self.records.len(),
                |i: int|
                    if self.is_named_dead(i, count) {
                        self.records[i].with_registered(false)
                    } else {
                        self.records[i]
                    },
            ),
            dead_thread_queue: self.dead_thread_queue.subrange(
                count,
                self.dead_thread_queue.len() as int,
            ),
            ..self
        }
    }

    /// The fast path of acquisition, on the record of the calling thread's sentinel.
    pub open spec fn acquire_fast(self, handle: RawThreadHandle) -> (Model, Acquired) {
        let record = self.record(handle);
        if record.refcount() >= THROTTLE_LIMIT {
            (self, Acquired::Blocked)
        } else if !record.enabled {
            (self, Acquired::Nothing)
        } else {
            (
                self.with_record(
                    handle,
                    record.with_enabled(false).with_strong_handles(
                        (record.strong_handles + 1) as usize,
                    ),
                ),
                Acquired::Handle(handle),
            )
        }
    }

    /// The fallback for a thread whose slot has been torn down: the registry's
    /// record for its system thread id, if there is one.
    pub open spec fn acquire_slow(self, thread_id: u32) -> (Model, Acquired) {
        match self.lookup(thread_id) {
            Some(i) => {
                let record = self.records[i];
                if record.strong_handles + record.weak_handles < usize::MAX - THROTTLE_LIMIT {
                    (
                        self.with_record(
                            record.handle(),
                            record.with_strong_handles((record.strong_handles + 1) as usize),
                        ),
                        Acquired::Handle(record.handle()),
                    )
                } else {
                    (self, Acquired::Nothing)
                }
            },
            None => (self, Acquired::Nothing),
        }
    }

    /// The acquisition proper, once tracing is on: through the calling
    /// thread's slot, which is initialized on first use, or, after the slot's
    /// teardown, through the registry.
    pub open spec fn acquire_handle(self, tls: Tls, thread_id: u32) -> (Model, Tls, Acquired) {
        match tls {
            Tls::Uninitialized => if self.allocation_lock is Some {
                (self, tls, Acquired::Blocked)
            } else {
                let (registered, handle) = self.register(thread_id);
                let (next, acquired) = registered.acquire_fast(handle);
                (next, Tls::Alive(handle), acquired)
            },
            Tls::Alive(handle) => {
                let (next, acquired) = self.acquire_fast(handle);
                (next, tls, acquired)
            },
            Tls::Destroyed => if self.allocation_lock is Some {
                (self, tls, Acquired::Blocked)
            } else {
                let (next, acquired) = self.acquire_slow(thread_id);
                (next, tls, acquired)
            },
        }
    }

    /// An intercepted call of thread `thread_id`, whose slot is `tls`, asks
    /// for a strong handle.
    ///
    /// If the state is `Enabled` the handle is acquired, and `event` plays no
    /// part. Otherwise the call takes one step of the startup protocol with
    /// `event`: if the step is refused there is no handle; if it ends the
    /// startup the handle is acquired in the same call; and any other action
    /// is handed to the caller, before anything of the caller's slot is
    /// looked at.
    pub open spec fn acquire(self, tls: Tls, thread_id: u32, event: StartupEvent) -> (
        Model,
        Tls,
        Acquired,
    ) {
        if self.state == State::Enabled {
            self.acquire_handle(tls, thread_id)
        } else {
            let (next, action) = self.try_enable(event);
            match action {
                StartupAction::Refuse => (next, tls, Acquired::Nothing),
                StartupAction::Done => next.acquire_handle(tls, thread_id),
                _ => (next, tls, Acquired::Startup(action)),
            }
        }
    }

    /// Whether a strong handle to the record that `handle` names is outstanding.
    pub open spec fn holds_strong(self, handle: RawThreadHandle) -> bool {
        self.has_record(handle) && self.record(handle).strong_handles >= 1
    }

    /// Whether a weak handle to the record that `handle` names is outstanding.
    pub open spec fn holds_weak(self, handle: RawThreadHandle) -> bool {
        self.has_record(handle) && self.record(handle).weak_handles >= 1
    }

    /// A strong handle is dropped.
    pub open spec fn release_strong(self, handle: RawThreadHandle) -> Model {
        let record = self.record(handle);
        self.with_record(
            handle,
            record.with_enabled(true).with_strong_handles((record.strong_handles - 1) as usize),
        )
    }

    /// A strong handle becomes a weak one.
    pub open spec fn decay(self, handle: RawThreadHandle) -> Model {
        let record = self.record(handle);
        self.with_record(
            handle,
            record.with_enabled(true).with_strong_handles(
                (record.strong_handles - 1) as usize,
            ).with_weak_handles((record.weak_handles + 1) as usize),
        )
    }

    /// A weak handle is dropped.
    pub open spec fn release_weak(self, handle: RawThreadHandle) -> Model {
        let record = self.record(handle);
        self.with_record(handle, record.with_weak_handles((record.weak_handles - 1) as usize))
    }

    /// The holder of a strong handle records an allocation.
    pub open spec fn on_new_allocation(self, handle: RawThreadHandle) -> (
        Model,
        InternalAllocationId,
    ) {
        let record = self.record(handle);
        (
            self.with_record(
                handle,
                record.with_allocation_counter((record.allocation_counter + 1) as u64),
            ),
            InternalAllocationId {
                thread: record.internal_thread_id,
                allocation: record.allocation_counter,
            },
        )
    }

    /// The records with each one's throttle set to what the allocation lock of
    /// `holder` puts on it.
    pub open spec fn throttled(self, holder: Option<u32>) -> Seq<ThreadData> {
        let locked = Model { allocation_lock: holder, ..self };
        Seq::new(
            self.records.len(),
            |i: int| self.records[i].with_throttle(locked.lock_delta(self.records[i])),
        )
    }

    /// Thread `thread_id` takes the allocation lock.
    pub open spec fn lock_allocations(self, thread_id: u32) -> Model {
        Model {
            allocation_lock: Some(thread_id),
            records: self.throttled(Some(thread_id)),
            ..self
        }
    }

    /// Whether no thread that the allocation lock has parked holds a handle.
    pub open spec fn is_quiescent(self) -> bool {
        forall|i: int|
            0 <= i < self.records.len() && self.lock_delta(#[trigger] self.records[i])
                == THROTTLE_LIMIT ==> self.records[i].refcount() == THROTTLE_LIMIT
    }

    /// Whether the wait of thread `holder` for the barrier is over: no thread
    /// that its lock has parked holds a handle, or the lock is no longer its
    /// own, a fork having forced it open.
    pub open spec fn barrier_reached(self, holder: u32) -> bool {
        self.allocation_lock != Some(holder) || self.is_quiescent()
    }

    /// The allocation lock is dropped.
    pub open spec fn unlock_allocations(self) -> Model {
        Model { allocation_lock: None, records: self.throttled(None), ..self }
    }

    /// Thread `holder` drops its allocation lock; nothing changes if the lock
    /// is no longer its own, a fork having forced it open.
    pub open spec fn unlock_allocations_of(self, holder: u32) -> Model {
        if self.allocation_lock == Some(holder) {
            self.unlock_allocations()
        } else {
            self
        }
    }

    /// The worker thread, whose slot is `tls`, enters its body. The last
    /// component says whether it was expected.
    pub open spec fn processing_thread_started(self, tls: Tls, thread_id: u32) -> (
        Model,
        Tls,
        bool,
    ) {
        if self.state == State::PermanentlyDisabled || self.startup != StartupPhase::Spawning
            || self.thread_running {
            (self, tls, false)
        } else {
            let (next, slot, handle) = self.tls_with(tls, thread_id);
            match handle {
                Some(handle) => (
                    Model {
                        thread_running: true,
                        ..next.with_record(
                            handle,
                            next.record(handle).with_internal(true).with_throttle(0),
                        )
                    },
                    slot,
                    true,
                ),
                None => (Model { thread_running: true, ..next }, slot, true),
            }
        }
    }

    /// The worker thread has left its body, normally or by unwinding.
    pub open spec fn processing_thread_finished(self, panicked: bool) -> Model {
        if self.state == State::PermanentlyDisabled {
            self
        } else {
            Model {
                desired_state: if panicked {
                    DesiredState::Disabled
                } else {
                    self.desired_state
                },
                enabled_for_new_threads: false,
                records: self.swept(false),
                state: State::Disabled,
                thread_running: false,
                startup: StartupPhase::Idle,
                ..self
            }
        }
    }

    /// The records of a fork child in which only thread `thread_id` goes on.
    pub open spec fn retained(self, thread_id: u32) -> Seq<ThreadData> {
        Seq::new(
            self.records.len(),
            |i: int|
                ThreadData {
                    registered: self.records[i].registered && self.records[i].thread_id
                        == thread_id,
                    throttle: 0,
                    ..self.records[i]
                },
        )
    }

    /// The state of a fork child before the slot of its only thread is looked at.
    pub open spec fn forked(self, thread_id: u32) -> Model {
        Model {
            state: State::PermanentlyDisabled,
            desired_state: DesiredState::Disabled,
            thread_running: false,
            startup: StartupPhase::Idle,
            allocation_lock: None,
            enabled_for_new_threads: false,
            records: self.retained(thread_id),
            ..self
        }
    }

    /// The process is a fork child and thread `thread_id`, whose slot is `tls`, is its only thread.
    pub open spec fn on_fork(self, tls: Tls, thread_id: u32) -> (Model, Tls) {
        let (next, slot, handle) = self.forked(thread_id).tls_with(tls, thread_id);
        match handle {
            Some(handle) => (
                next.with_record(handle, next.record(handle).with_enabled(false)),
                slot,
            ),
            None => (next, slot),
        }
    }
}

} // verus!
