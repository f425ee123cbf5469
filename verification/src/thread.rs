//! Per-thread records and the plain values that name them.

use vstd::prelude::*;

verus! {

/// The refcount delta by which the allocation lock parks a thread.
///
/// A thread whose count of outstanding handles reaches this value yields on its
/// next acquisition, and the lock waits until the refcount of every parked
/// thread is exactly this value.
pub const THROTTLE_LIMIT: usize = 8192;

/// A monotonic point in time, to the second.
#[derive(Clone, Copy, Debug, PartialEq, Eq, Structural)]
pub struct Timestamp {
    pub secs: u64,
}

impl Timestamp {
    pub fn from_secs(secs: u64) -> (t: Timestamp)
        ensures
            t.secs == secs,
    {
        Timestamp { secs }
    }

    pub fn as_secs(&self) -> (secs: u64)
        ensures
            secs == self.secs,
    {
        self.secs
    }
}

/// The identifier attached to one recorded allocation: the dense id of the thread
/// that made it, and that thread's running count.
#[derive(Clone, Copy, Debug, PartialEq, Eq, Structural)]
pub struct InternalAllocationId {
    pub thread: u64,
    pub allocation: u64,
}

impl InternalAllocationId {
    pub fn new(thread: u64, allocation: u64) -> (id: InternalAllocationId)
        ensures
            id.thread == thread,
            id.allocation == allocation,
    {
        InternalAllocationId { thread, allocation }
    }
}

/// A reference to one per-thread record.
///
/// Two handles refer to the same record exactly when their `internal_thread_id`
/// is equal: a record's dense id is given once and never reused.
#[derive(Clone, Copy, Debug, PartialEq, Eq, Structural)]
pub struct RawThreadHandle {
    pub thread_id: u32,
    pub internal_thread_id: u64,
}

/// The record kept for one thread that has made an intercepted call.
#[derive(Clone, Copy, Debug, PartialEq, Eq, Structural)]
pub struct ThreadData {
    /// The operating system's id of the thread.
    pub thread_id: u32,
    /// The dense, process-unique id, starting at 1.
    pub internal_thread_id: u64,
    /// True exactly for the profiler's own worker thread.
    pub is_internal: bool,
    /// Whether an intercepted call made by this thread is to be recorded.
    pub enabled: bool,
    /// The count that the thread's next recorded allocation will carry.
    pub allocation_counter: u64,
    /// How many strong handles to this record are outstanding.
    pub strong_handles: usize,
    /// How many weak handles to this record are outstanding.
    pub weak_handles: usize,
    /// What the allocation lock has added to the refcount: 0 or `THROTTLE_LIMIT`.
    pub throttle: usize,
    /// Whether the registry maps `thread_id` to this record.
    pub registered: bool,
}

impl ThreadData {
    /// The record of a thread seen for the first time.
    pub open spec fn fresh(thread_id: u32, internal_thread_id: u64, enabled: bool) -> ThreadData {
        ThreadData {
            thread_id,
            internal_thread_id,
            is_internal: false,
            enabled,
            allocation_counter: 1,
            strong_handles: 0,
            weak_handles: 0,
            throttle: 0,
            registered: true,
        }
    }

    /// The quiescence signal: outstanding handles plus the allocation lock's delta.
    pub open spec fn refcount(self) -> int {
        self.strong_handles + self.weak_handles + self.throttle
    }

    /// The handle that names this record.
    pub open spec fn handle(self) -> RawThreadHandle {
        RawThreadHandle { thread_id: self.thread_id, internal_thread_id: self.internal_thread_id }
    }

    /// Whether the enable and disable sweeps, and the allocation lock, act on this record.
    pub open spec fn is_traced(self) -> bool {
        self.registered && !self.is_internal
    }

    pub open spec fn with_enabled(self, value: bool) -> ThreadData {
        ThreadData { enabled: value, ..self }
    }

    pub open spec fn with_registered(self, value: bool) -> ThreadData {
        ThreadData { registered: value, ..self }
    }

    pub open spec fn with_throttle(self, value: usize) -> ThreadData {
        ThreadData { throttle: value, ..self }
    }

    pub open spec fn with_internal(self, value: bool) -> ThreadData {
        ThreadData { is_internal: value, ..self }
    }

    pub open spec fn with_strong_handles(self, value: usize) -> ThreadData {
        ThreadData { strong_handles: value, ..self }
    }

    pub open spec fn with_weak_handles(self, value: usize) -> ThreadData {
        ThreadData { weak_handles: value, ..self }
    }

    pub open spec fn with_allocation_counter(self, value: u64) -> ThreadData {
        ThreadData { allocation_counter: value, ..self }
    }

    #[inline(always)]
    pub fn is_enabled(&self) -> (enabled: bool)
        ensures
            enabled == self.enabled,
    {
        self.enabled
    }

    #[inline(always)]
    pub fn is_internal(&self) -> (internal: bool)
        ensures
            internal == self.is_internal,
    {
        self.is_internal
    }

    pub fn set_enabled(&mut self, value: bool)
        ensures
            *final(self) == old(self).with_enabled(value),
    {
        self.enabled = value;
    }
}

} // verus!
