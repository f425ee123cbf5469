//! The per-thread handle protocol.
//!
//! A strong handle brackets one intercepted allocation. While a thread holds
//! one that it got through its thread-local slot, the thread's `enabled` flag is
//! false, so that an allocation made by the profiler's own work on that thread is
//! passed through and not recorded.

use vstd::prelude::*;
use crate::global::{lemma_table_kept, register, Global};
use crate::model::{Acquired, DeadThread, Tls};
use crate::global::try_enable;
use crate::preservation::{
    lemma_acquire_handle_keeps_wf, lemma_acquire_keeps_wf, lemma_decay_keeps_wf,
    lemma_lookup_has_record,
    lemma_on_new_allocation_keeps_wf, lemma_release_strong_keeps_wf, lemma_release_weak_keeps_wf,
    lemma_thread_exit_keeps_wf,
};
use crate::state::{StartupAction, StartupEvent, State};
use crate::thread::{InternalAllocationId, RawThreadHandle, Timestamp, THROTTLE_LIMIT};

verus! {

/// The value in a thread's thread-local slot: its being dropped is the thread's death.
pub struct ThreadSentinel {
    pub(crate) handle: RawThreadHandle,
}

/// A thread's thread-local slot.
pub enum ThreadLocal {
    /// The thread has not made an intercepted call yet.
    Uninitialized,
    /// The thread has a record.
    Alive(ThreadSentinel),
    /// The thread is exiting and the slot has been torn down.
    Destroyed,
}


/// A handle to per-thread storage that only tells which thread it is.
///
/// It can be sent to other threads.
pub struct WeakThreadHandle {
    pub(crate) handle: RawThreadHandle,
}

/// A handle to per-thread storage.
///
/// It can only be acquired for the current thread, and is not to be sent to
/// other threads.
pub struct StrongThreadHandle {
    pub(crate) handle: RawThreadHandle,
}

impl View for ThreadSentinel {
    type V = RawThreadHandle;

    open(crate) spec fn view(&self) -> RawThreadHandle {
        self.handle
    }
}

impl View for ThreadLocal {
    type V = Tls;

    open(crate) spec fn view(&self) -> Tls {
        match self {
            ThreadLocal::Uninitialized => Tls::Uninitialized,
            ThreadLocal::Alive(sentinel) => Tls::Alive(sentinel.handle),
            ThreadLocal::Destroyed => Tls::Destroyed,
        }
    }
}

impl View for WeakThreadHandle {
    type V = RawThreadHandle;

    open(crate) spec fn view(&self) -> RawThreadHandle {
        self.handle
    }
}

impl View for StrongThreadHandle {
    type V = RawThreadHandle;

    open(crate) spec fn view(&self) -> RawThreadHandle {
        self.handle
    }
}

/// How an intercepted call's request for a strong handle ends.
pub enum Acquire {
    /// A strong handle for the calling thread.
    Handle(StrongThreadHandle),
    /// None: tracing is off, or off for this thread, or the thread is inside the profiler.
    Nothing,
    /// The thread is parked by the allocation lock, or needs the registry
    /// while it is locked: it yields and asks again.
    Blocked,
    /// Tracing is asked for and not on yet: the caller does what the action
    /// says and asks again, with the event that the action names.
    Startup(StartupAction),
}

impl View for Acquire {
    type V = Acquired;

    open spec fn view(&self) -> Acquired {
        match self {
            Acquire::Handle(handle) => Acquired::Handle(handle@),
            Acquire::Nothing => Acquired::Nothing,
            Acquire::Blocked => Acquired::Blocked,
            Acquire::Startup(action) => Acquired::Startup(*action),
        }
    }
}

impl ThreadLocal {
    /// The slot of a thread that has just started.
    pub fn new() -> (tls: ThreadLocal)
        ensures
            tls@ == Tls::Uninitialized,
    {
        ThreadLocal::Uninitialized
    }

    /// The handle of the thread's record, if the slot holds one.
    pub fn handle(&self) -> (handle: Option<RawThreadHandle>)
        ensures
            handle == match self@ {
                Tls::Alive(handle) => Some(handle),
                _ => None,
            },
    {
        match self {
            ThreadLocal::Alive(sentinel) => Some(sentinel.handle),
            _ => None,
        }
    }

    /// Access to the slot by thread `thread_id`: the first one makes the
    /// thread's record, and after the slot's teardown there is none.
    pub fn with(&mut self, global: &mut Global, thread_id: u32) -> (handle: Option<
        RawThreadHandle,
    >)
        requires
            old(global).wf(),
            old(global)@.has_tls(old(self)@),
            old(self)@ is Uninitialized ==> old(global)@.allocation_lock is None && old(
                global,
            )@.has_room(),
        ensures
            (final(global)@, final(self)@, handle) == old(global)@.tls_with(old(self)@, thread_id),
            final(global).wf(),
            final(global)@.has_tls(final(self)@),
            handle matches Some(h) ==> final(global)@.has_record(h),
    {
        match self {
            ThreadLocal::Uninitialized => {
                let handle = register(global, thread_id);
                *self = ThreadLocal::Alive(ThreadSentinel { handle });
                Some(handle)
            },
            ThreadLocal::Alive(sentinel) => Some(sentinel.handle),
            ThreadLocal::Destroyed => None,
        }
    }

    /// The thread that owns the slot exits at `now`: if the registry still has
    /// a record for the thread's system id, that record joins the queue of the
    /// dead. The record stays registered, so that an allocation made during the
    /// rest of the teardown still finds it.
    pub fn destroy(&mut self, global: &mut Global, now: Timestamp)
        requires
            old(global).wf(),
            old(global)@.allocation_lock is None,
        ensures
            (final(global)@, final(self)@) == old(global)@.thread_exit(old(self)@, now),
            final(global).wf(),
            final(global)@.has_tls(final(self)@),
    {
        proof {
            lemma_thread_exit_keeps_wf(global@, self@, now);
        }
        if let ThreadLocal::Alive(sentinel) = self {
            if let Some(thread) = global.find(sentinel.handle.thread_id) {
                global.registry.dead_thread_queue.push(DeadThread { time_of_death: now, thread });
            }
        }
        proof {
            lemma_table_kept(old(global).registry, global.registry);
        }
        *self = ThreadLocal::Destroyed;
    }
}

impl WeakThreadHandle {
    pub fn system_tid(&self) -> (tid: u32)
        ensures
            tid == self@.thread_id,
    {
        self.handle.thread_id
    }

    pub fn unique_tid(&self) -> (tid: u64)
        ensures
            tid == self@.internal_thread_id,
    {
        self.handle.internal_thread_id
    }

    /// Drops the handle.
    pub fn release(self, global: &mut Global)
        requires
            old(global).wf(),
            old(global)@.holds_weak(self@),
        ensures
            final(global)@ == old(global)@.release_weak(self@),
            final(global).wf(),
    {
        proof {
            lemma_release_weak_keeps_wf(global@, self@);
        }
        let at = (self.handle.internal_thread_id - 1) as usize;
        let mut record = global.registry.records[at];
        record.weak_handles = record.weak_handles - 1;
        global.registry.records.set(at, record);
        proof {
            lemma_table_kept(old(global).registry, global.registry);
        }
    }
}

impl StrongThreadHandle {
    /// An intercepted call of the calling thread, whose system id is
    /// `current_thread_id` and whose thread-local slot is `tls`, asks for a
    /// strong handle.
    ///
    /// The caller asks with the event `Attempt`. If tracing is on, `event`
    /// plays no part. If it is not, the call takes one step of the startup
    /// protocol: where that step is refused there is no handle, and where it
    /// leaves work to do the action comes back as `Startup`; the caller does
    /// it and asks again with the event that the action names, until the last
    /// step turns tracing on and the same call goes on to acquire.
    ///
    /// With a live slot the handle is given if and only if the thread's
    /// `enabled` flag is set, and the flag is cleared with it; a thread parked
    /// by the allocation lock is told to yield and come back. After the slot's
    /// teardown the registry's record for the thread's system id is handed
    /// out, if there is one.
    pub fn acquire(
        global: &mut Global,
        tls: &mut ThreadLocal,
        current_thread_id: u32,
        event: StartupEvent,
    ) -> (outcome: Acquire)
        requires
            old(global).wf(),
            old(global)@.has_tls(old(tls)@),
            old(tls)@ is Uninitialized ==> old(global)@.has_room(),
        ensures
            (final(global)@, final(tls)@, outcome@) == old(global)@.acquire(
                old(tls)@,
                current_thread_id,
                event,
            ),
            final(global).wf(),
            final(global)@.has_tls(final(tls)@),
            outcome matches Acquire::Handle(handle) ==> final(global)@.holds_strong(handle@),
    {
        proof {
            lemma_acquire_keeps_wf(global@, tls@, current_thread_id, event);
        }
        if global.state != State::Enabled {
            let action = try_enable(global, event);
            match action {
                StartupAction::Refuse => {
                    return Acquire::Nothing;
                },
                StartupAction::Done => {},
                _ => {
                    return Acquire::Startup(action);
                },
            }
        }
        Self::acquire_handle(global, tls, current_thread_id)
    }

    /// The acquisition proper, once tracing is on.
    fn acquire_handle(global: &mut Global, tls: &mut ThreadLocal, current_thread_id: u32) -> (outcome:
        Acquire)
        requires
            old(global).wf(),
            old(global)@.has_tls(old(tls)@),
            old(tls)@ is Uninitialized ==> old(global)@.has_room(),
        ensures
            (final(global)@, final(tls)@, outcome@) == old(global)@.acquire_handle(
                old(tls)@,
                current_thread_id,
            ),
            final(global).wf(),
    {
        proof {
            lemma_acquire_handle_keeps_wf(global@, tls@, current_thread_id);
        }
        let handle = match tls {
            ThreadLocal::Uninitialized => {
                if global.registry.allocation_lock.is_some() {
                    return Acquire::Blocked;
                }
                let handle = register(global, current_thread_id);
                *tls = ThreadLocal::Alive(ThreadSentinel { handle });
                handle
            },
            ThreadLocal::Alive(sentinel) => sentinel.handle,
            ThreadLocal::Destroyed => {
                if global.registry.allocation_lock.is_some() {
                    return Acquire::Blocked;
                }
                return Self::acquire_slow(global, current_thread_id);
            },
        };
        let ghost registered = global.registry;
        let at = (handle.internal_thread_id - 1) as usize;
        let mut record = global.registry.records[at];
        if record.strong_handles + record.weak_handles + record.throttle >= THROTTLE_LIMIT {
            return Acquire::Blocked;
        }
        if !record.enabled {
            return Acquire::Nothing;
        }
        record.enabled = false;
        record.strong_handles = record.strong_handles + 1;
        global.registry.records.set(at, record);
        proof {
            lemma_table_kept(registered, global.registry);
        }
        Acquire::Handle(StrongThreadHandle { handle })
    }

    /// The fallback of `acquire` for a thread whose slot has been torn down.
    fn acquire_slow(global: &mut Global, current_thread_id: u32) -> (outcome: Acquire)
        requires
            old(global).wf(),
        ensures
            (final(global)@, outcome@) == old(global)@.acquire_slow(current_thread_id),
            final(global).registry.table_wf(),
    {
        proof {
            lemma_lookup_has_record(global@, current_thread_id);
        }
        match global.find(current_thread_id) {
            Some(handle) => {
                let at = (handle.internal_thread_id - 1) as usize;
                let mut record = global.registry.records[at];
                if record.strong_handles + record.weak_handles < usize::MAX - THROTTLE_LIMIT {
                    record.strong_handles = record.strong_handles + 1;
                    global.registry.records.set(at, record);
                    proof {
                        lemma_table_kept(old(global).registry, global.registry);
                    }
                    Acquire::Handle(StrongThreadHandle { handle })
                } else {
                    Acquire::Nothing
                }
            },
            None => Acquire::Nothing,
        }
    }

    /// The record that the handle is for.
    pub fn thread(&self) -> (handle: RawThreadHandle)
        ensures
            handle == self@,
    {
        self.handle
    }

    /// Gives the handle up for a weak one and re-enables the thread.
    pub fn decay(self, global: &mut Global) -> (weak: WeakThreadHandle)
        requires
            old(global).wf(),
            old(global)@.holds_strong(self@),
        ensures
            final(global)@ == old(global)@.decay(self@),
            weak@ == self@,
            final(global).wf(),
            final(global)@.holds_weak(weak@),
    {
        proof {
            lemma_decay_keeps_wf(global@, self@);
        }
        let at = (self.handle.internal_thread_id - 1) as usize;
        let mut record = global.registry.records[at];
        record.enabled = true;
        record.strong_handles = record.strong_handles - 1;
        record.weak_handles = record.weak_handles + 1;
        global.registry.records.set(at, record);
        proof {
            lemma_table_kept(old(global).registry, global.registry);
        }
        WeakThreadHandle { handle: self.handle }
    }

    /// Drops the handle and re-enables the thread.
    pub fn release(self, global: &mut Global)
        requires
            old(global).wf(),
            old(global)@.holds_strong(self@),
        ensures
            final(global)@ == old(global)@.release_strong(self@),
            final(global).wf(),
    {
        proof {
            lemma_release_strong_keeps_wf(global@, self@);
        }
        let at = (self.handle.internal_thread_id - 1) as usize;
        let mut record = global.registry.records[at];
        record.enabled = true;
        record.strong_handles = record.strong_handles - 1;
        global.registry.records.set(at, record);
        proof {
            lemma_table_kept(old(global).registry, global.registry);
        }
    }

    /// The id of the thread's next allocation: its dense id and its running
    /// count, which goes up by one.
    pub fn on_new_allocation(&mut self, global: &mut Global) -> (id: InternalAllocationId)
        requires
            old(global).wf(),
            old(global)@.holds_strong(old(self)@),
            old(global)@.record(old(self)@).allocation_counter < u64::MAX,
        ensures
            (final(global)@, id) == old(global)@.on_new_allocation(old(self)@),
            final(self)@ == old(self)@,
            final(global).wf(),
            final(global)@.holds_strong(final(self)@),
    {
        proof {
            lemma_on_new_allocation_keeps_wf(global@, self@);
        }
        let at = (self.handle.internal_thread_id - 1) as usize;
        let mut record = global.registry.records[at];
        let allocation = record.allocation_counter;
        record.allocation_counter = allocation + 1;
        global.registry.records.set(at, record);
        proof {
            lemma_table_kept(old(global).registry, global.registry);
        }
        InternalAllocationId::new(record.internal_thread_id, allocation)
    }
}

} // verus!
