//! The quiescence barrier.
//!
//! Whoever needs a consistent picture of the process's allocations takes the
//! allocation lock: it holds the registry, so that no thread appears or leaves,
//! and it parks every other traced thread by raising its refcount by
//! `THROTTLE_LIMIT`. The barrier is reached once each of those refcounts is
//! exactly `THROTTLE_LIMIT`: no handle is outstanding, and none can be acquired.

use vstd::prelude::*;
use crate::global::{lemma_table_kept, Global};
use crate::preservation::{lemma_lock_allocations_keeps_wf, lemma_unlock_allocations_keeps_wf};
use crate::model::Model;
use crate::thread::THROTTLE_LIMIT;

verus! {

/// The allocation lock, held by one thread.
pub struct AllocationLock {
    pub(crate) current_thread_id: u32,
}

impl View for AllocationLock {
    type V = u32;

    /// The system id of the thread that holds the lock.
    open(crate) spec fn view(&self) -> u32 {
        self.current_thread_id
    }
}

impl AllocationLock {
    /// Takes the lock for the thread `current_thread_id`: the registry is
    /// locked, and the refcount of every traced thread other than the caller
    /// goes up by `THROTTLE_LIMIT`. The caller then yields until `is_quiescent`.
    pub fn new(global: &mut Global, current_thread_id: u32) -> (lock: AllocationLock)
        requires
            old(global).wf(),
            old(global)@.allocation_lock is None,
        ensures
            final(global)@ == old(global)@.lock_allocations(current_thread_id),
            lock@ == current_thread_id,
            final(global).wf(),
    {
        proof {
            lemma_lock_allocations_keeps_wf(global@, current_thread_id);
        }
        global.registry.allocation_lock = Some(current_thread_id);
        let n = global.registry.records.len();
        let mut i: usize = 0;
        while i < n
            invariant
                i <= n,
                old(global).wf(),
                old(global)@.allocation_lock is None,
                n == old(global)@.records.len(),
                global@.records.len() == n,
                forall|j: int|
                    0 <= j < i ==> global@.records[j] == old(global)@.throttled(
                        Some(current_thread_id),
                    )[j],
                forall|j: int| i <= j < n ==> global@.records[j] == old(global)@.records[j],
                global@ == (Model {
                    allocation_lock: Some(current_thread_id),
                    records: global@.records,
                    ..old(global)@
                }),
                global.registry.table() == old(global).registry.table(),
            decreases n - i,
        {
            let mut record = global.registry.records[i];
            assert(old(global)@.records[i as int].throttle == old(global)@.lock_delta(
                old(global)@.records[i as int],
            ));
            if record.thread_id != current_thread_id && record.registered && !record.is_internal {
                record.throttle = THROTTLE_LIMIT;
                global.registry.records.set(i, record);
            }
            i += 1;
        }
        assert(global@.records =~= old(global)@.throttled(Some(current_thread_id)));
        proof {
            lemma_table_kept(old(global).registry, global.registry);
        }
        AllocationLock { current_thread_id }
    }

    /// Whether the holder's wait is over: the refcount of every parked thread
    /// is exactly `THROTTLE_LIMIT`. It is also over where the lock is no longer
    /// the holder's own, a fork having forced it open: there is nothing left
    /// to wait for.
    pub fn is_quiescent(&self, global: &Global) -> (quiescent: bool)
        requires
            global.wf(),
        ensures
            quiescent == global@.barrier_reached(self@),
    {
        if global.registry.allocation_lock != Some(self.current_thread_id) {
            return true;
        }
        let n = global.registry.records.len();
        let mut i: usize = 0;
        while i < n
            invariant
                i <= n,
                global.wf(),
                global@.allocation_lock == Some(self@),
                n == global@.records.len(),
                forall|j: int|
                    0 <= j < i && global@.lock_delta(#[trigger] global@.records[j])
                        == THROTTLE_LIMIT ==> global@.records[j].refcount() == THROTTLE_LIMIT,
            decreases n - i,
        {
            let record = &global.registry.records[i];
            assert(global@.records[i as int].throttle == global@.lock_delta(
                global@.records[i as int],
            ));
            assert(global@.records[i as int].strong_handles + global@.records[i as int].weak_handles
                <= usize::MAX - THROTTLE_LIMIT);
            if record.thread_id != self.current_thread_id && record.registered
                && !record.is_internal {
                if record.strong_handles + record.weak_handles + record.throttle
                    != THROTTLE_LIMIT {
                    return false;
                }
            }
            i += 1;
        }
        true
    }

    /// Drops the lock: every refcount that the lock raised goes down by
    /// `THROTTLE_LIMIT` again, and the registry is free. Nothing changes where
    /// the lock is no longer the holder's own, a fork having forced it open.
    pub fn release(self, global: &mut Global)
        requires
            old(global).wf(),
        ensures
            final(global)@ == old(global)@.unlock_allocations_of(self@),
            final(global).wf(),
    {
        if global.registry.allocation_lock != Some(self.current_thread_id) {
            return ;
        }
        proof {
            lemma_unlock_allocations_keeps_wf(global@);
        }
        global.registry.allocation_lock = None;
        let n = global.registry.records.len();
        let mut i: usize = 0;
        while i < n
            invariant
                i <= n,
                old(global).wf(),
                old(global)@.allocation_lock == Some(self@),
                n == old(global)@.records.len(),
                global@.records.len() == n,
                forall|j: int|
                    0 <= j < i ==> global@.records[j] == old(global)@.throttled(None)[j],
                forall|j: int| i <= j < n ==> global@.records[j] == old(global)@.records[j],
                global@ == (Model {
                    allocation_lock: None,
                    records: global@.records,
                    ..old(global)@
                }),
                global.registry.table() == old(global).registry.table(),
            decreases n - i,
        {
            let mut record = global.registry.records[i];
            assert(old(global)@.records[i as int].throttle == old(global)@.lock_delta(
                old(global)@.records[i as int],
            ));
            if record.thread_id != self.current_thread_id && record.registered
                && !record.is_internal {
                record.throttle = record.throttle - THROTTLE_LIMIT;
                global.registry.records.set(i, record);
            }
            i += 1;
        }
        assert(global@.records =~= old(global)@.throttled(None));
        proof {
            lemma_table_kept(old(global).registry, global.registry);
        }
    }
}

} // verus!
