//! Why every operation keeps the invariant of the control core.

use vstd::prelude::*;
use crate::model::{Acquired, DeadThread, Model, Tls};
use crate::registry::{expired_count_from, is_expired};
use crate::state::{StartupAction, StartupEvent, StartupPhase, State};
use crate::thread::{RawThreadHandle, ThreadData, Timestamp, THROTTLE_LIMIT};

verus! {

/// A change that keeps each record's identity, registers none, leaves on each
/// record what the allocation lock puts on it and keeps the counts of its
/// handles in bounds keeps the registry in order.
pub proof fn lemma_pointwise_keeps_records_wf(pre: Model, post: Model)
    requires
        pre.records_wf(),
        post.records.len() == pre.records.len(),
        forall|i: int|
            0 <= i < pre.records.len() ==> {
                &&& (#[trigger] post.records[i]).thread_id == pre.records[i].thread_id
                &&& post.records[i].internal_thread_id == pre.records[i].internal_thread_id
                &&& post.records[i].registered ==> pre.records[i].registered
                &&& post.records[i].throttle == post.lock_delta(post.records[i])
                &&& post.records[i].strong_handles + post.records[i].weak_handles <= usize::MAX
                    - THROTTLE_LIMIT
            },
        forall|k: int|
            0 <= k < post.dead_thread_queue.len() ==> pre.has_record(
                (#[trigger] post.dead_thread_queue[k]).thread,
            ),
    ensures
        post.records_wf(),
{
    assert forall|i: int| 0 <= i < post.records.len() implies (
    #[trigger] post.records[i]).internal_thread_id == i + 1 by {
        assert(pre.records[i].internal_thread_id == i + 1);
    }
    assert forall|i: int, j: int|
        #![trigger post.records[i], post.records[j]]
        0 <= i < post.records.len() && 0 <= j < post.records.len() && i != j
            && post.records[i].registered && post.records[j].registered
            implies post.records[i].thread_id != post.records[j].thread_id by {
        assert(pre.records[i].registered && pre.records[j].registered);
        assert(pre.records[i].thread_id != pre.records[j].thread_id);
    }
    assert forall|k: int| 0 <= k < post.dead_thread_queue.len() implies post.has_record(
        (#[trigger] post.dead_thread_queue[k]).thread,
    ) by {
        let handle = post.dead_thread_queue[k].thread;
        assert(pre.has_record(handle));
        assert(post.records[handle.internal_thread_id - 1].thread_id
            == pre.records[handle.internal_thread_id - 1].thread_id);
    }
}

/// A change that touches no record's membership, kind, throttle or handles
/// keeps the registry in order, and keeps the threads enabled that were.
proof fn lemma_flags_only_keeps_records_wf(pre: Model, post: Model)
    requires
        pre.records_wf(),
        post.records.len() == pre.records.len(),
        post.dead_thread_queue == pre.dead_thread_queue,
        post.allocation_lock == pre.allocation_lock,
        forall|i: int|
            0 <= i < pre.records.len() ==> {
                &&& (#[trigger] post.records[i]).thread_id == pre.records[i].thread_id
                &&& post.records[i].internal_thread_id == pre.records[i].internal_thread_id
                &&& post.records[i].registered == pre.records[i].registered
                &&& post.records[i].is_internal == pre.records[i].is_internal
                &&& post.records[i].throttle == pre.records[i].throttle
                &&& post.records[i].strong_handles == pre.records[i].strong_handles
                &&& post.records[i].weak_handles == pre.records[i].weak_handles
            },
    ensures
        post.records_wf(),
{
    assert forall|i: int| 0 <= i < pre.records.len() implies {
        &&& (#[trigger] post.records[i]).throttle == post.lock_delta(post.records[i])
        &&& post.records[i].strong_handles + post.records[i].weak_handles <= usize::MAX
            - THROTTLE_LIMIT
    } by {
        assert(pre.records[i].throttle == pre.lock_delta(pre.records[i]));
        assert(pre.records[i].strong_handles + pre.records[i].weak_handles <= usize::MAX
            - THROTTLE_LIMIT);
    }
    assert forall|k: int| 0 <= k < post.dead_thread_queue.len() implies pre.has_record(
        (#[trigger] post.dead_thread_queue[k]).thread,
    ) by {
        assert(pre.has_record(pre.dead_thread_queue[k].thread));
    }
    lemma_pointwise_keeps_records_wf(pre, post);
}

/// A change that leaves the registry alone and keeps the flags in agreement
/// with the lifecycle state keeps the invariant.
pub proof fn lemma_registry_untouched_keeps_wf(pre: Model, post: Model)
    requires
        pre.wf(),
        post.records == pre.records,
        post.dead_thread_queue == pre.dead_thread_queue,
        post.allocation_lock == pre.allocation_lock,
        post.enabled_for_new_threads == pre.enabled_for_new_threads,
        post.lifecycle_wf(),
    ensures
        post.wf(),
{
    lemma_flags_only_keeps_records_wf(pre, post);
}

/// Every step of the startup protocol keeps the invariant.
pub proof fn lemma_try_enable_keeps_wf(pre: Model, event: StartupEvent)
    requires
        pre.wf(),
    ensures
        pre.try_enable(event).0.wf(),
{
    let post = pre.try_enable(event).0;
    if post.records == pre.records && post.enabled_for_new_threads
        == pre.enabled_for_new_threads {
        lemma_registry_untouched_keeps_wf(pre, post);
    } else {
        assert(post.records == pre.swept(true));
        lemma_flags_only_keeps_records_wf(pre, post);
    }
}

/// In a well-formed state the registry maps a system thread id to at most one
/// record, so a registered record is the one that `lookup` finds.
pub proof fn lemma_lookup_is_unique(pre: Model, thread_id: u32, i: int)
    requires
        pre.wf(),
        pre.is_registered_at(i, thread_id),
    ensures
        pre.lookup(thread_id) == Some(i),
{
    let j = choose|j: int| pre.is_registered_at(j, thread_id);
    assert(pre.is_registered_at(j, thread_id));
    if i != j {
        assert(pre.records[i].thread_id != pre.records[j].thread_id);
    }
}

/// The registry's record for a system thread id is a record of the state.
pub proof fn lemma_lookup_has_record(pre: Model, thread_id: u32)
    requires
        pre.wf(),
    ensures
        pre.lookup(thread_id) matches Some(i) ==> pre.is_registered_at(i, thread_id)
            && pre.has_record(pre.records[i].handle()) && pre.record(pre.records[i].handle())
            == pre.records[i],
{
    if let Some(i) = pre.lookup(thread_id) {
        assert(pre.is_registered_at(i, thread_id));
        assert(pre.records[i].internal_thread_id == i + 1);
    }
}

/// The thread-local initializer keeps the invariant.
pub proof fn lemma_register_keeps_wf(pre: Model, thread_id: u32)
    requires
        pre.wf(),
        pre.allocation_lock is None,
        pre.has_room(),
    ensures
        pre.register(thread_id).0.wf(),
        pre.register(thread_id).0.has_record(pre.register(thread_id).1),
{
    let (post, handle) = pre.register(thread_id);
    let n = pre.records.len() as int;
    assert forall|i: int| 0 <= i < post.records.len() implies (#[trigger] post.records[i]).throttle
        == post.lock_delta(post.records[i]) by {
        if i < n {
            assert(pre.records[i].throttle == pre.lock_delta(pre.records[i]));
        }
    }
    assert forall|k: int| 0 <= k < post.dead_thread_queue.len() implies post.has_record(
        (#[trigger] post.dead_thread_queue[k]).thread,
    ) by {
        assert(pre.has_record(pre.dead_thread_queue[k].thread));
    }
    assert forall|i: int|
        0 <= i < post.records.len() && (#[trigger] post.records[i]).is_traced()
            && post.records[i].strong_handles == 0 && post.enabled_for_new_threads
            implies post.records[i].enabled by {
        if i < n {
            assert(pre.records[i].is_traced());
        }
    }
}

/// Access to a thread-local slot keeps the invariant, and the slot stays one of the state.
pub proof fn lemma_tls_with_keeps_wf(pre: Model, tls: Tls, thread_id: u32)
    requires
        pre.wf(),
        pre.has_tls(tls),
        tls is Uninitialized ==> pre.allocation_lock is None && pre.has_room(),
    ensures
        pre.tls_with(tls, thread_id).0.wf(),
        pre.tls_with(tls, thread_id).0.has_tls(pre.tls_with(tls, thread_id).1),
        pre.tls_with(tls, thread_id).2 matches Some(handle) ==> pre.tls_with(
            tls,
            thread_id,
        ).0.has_record(handle),
{
    if tls is Uninitialized {
        lemma_register_keeps_wf(pre, thread_id);
    }
}

/// A thread's exit keeps the invariant.
pub proof fn lemma_thread_exit_keeps_wf(pre: Model, tls: Tls, now: Timestamp)
    requires
        pre.wf(),
    ensures
        pre.thread_exit(tls, now).0.wf(),
{
    let post = pre.thread_exit(tls, now).0;
    lemma_lookup_has_record(pre, match tls {
        Tls::Alive(handle) => handle.thread_id,
        _ => 0,
    });
    assert forall|i: int| 0 <= i < pre.records.len() implies {
        &&& (#[trigger] post.records[i]).throttle == post.lock_delta(post.records[i])
        &&& post.records[i].strong_handles + post.records[i].weak_handles <= usize::MAX
            - THROTTLE_LIMIT
    } by {
        assert(pre.records[i].throttle == pre.lock_delta(pre.records[i]));
        assert(pre.records[i].strong_handles + pre.records[i].weak_handles <= usize::MAX
            - THROTTLE_LIMIT);
    }
    assert forall|k: int| 0 <= k < post.dead_thread_queue.len() implies pre.has_record(
        (#[trigger] post.dead_thread_queue[k]).thread,
    ) by {
        if k < pre.dead_thread_queue.len() {
            assert(pre.has_record(pre.dead_thread_queue[k].thread));
        }
    }
    lemma_pointwise_keeps_records_wf(pre, post);
}

/// Replacing one record by one with the same identity, membership and
/// throttle keeps the invariant, as long as the new record is enabled where the
/// invariant asks for it.
pub proof fn lemma_with_record_keeps_wf(pre: Model, handle: RawThreadHandle, record: ThreadData)
    requires
        pre.wf(),
        pre.has_record(handle),
        record.thread_id == pre.record(handle).thread_id,
        record.internal_thread_id == pre.record(handle).internal_thread_id,
        record.is_internal == pre.record(handle).is_internal,
        record.registered == pre.record(handle).registered,
        record.throttle == pre.record(handle).throttle,
        record.strong_handles + record.weak_handles <= usize::MAX - THROTTLE_LIMIT,
        pre.enabled_for_new_threads && record.is_traced() && record.strong_handles == 0
            ==> record.enabled,
    ensures
        pre.with_record(handle, record).wf(),
        forall|other: RawThreadHandle|
            pre.has_record(other) ==> #[trigger] pre.with_record(handle, record).has_record(other),
{
    let post = pre.with_record(handle, record);
    let at = handle.internal_thread_id - 1;
    assert forall|i: int| 0 <= i < pre.records.len() implies {
        &&& (#[trigger] post.records[i]).throttle == post.lock_delta(post.records[i])
        &&& post.records[i].strong_handles + post.records[i].weak_handles <= usize::MAX
            - THROTTLE_LIMIT
    } by {
        assert(pre.records[i].throttle == pre.lock_delta(pre.records[i]));
        assert(pre.records[i].strong_handles + pre.records[i].weak_handles <= usize::MAX
            - THROTTLE_LIMIT);
    }
    assert forall|k: int| 0 <= k < post.dead_thread_queue.len() implies pre.has_record(
        (#[trigger] post.dead_thread_queue[k]).thread,
    ) by {
        assert(pre.has_record(pre.dead_thread_queue[k].thread));
    }
    lemma_pointwise_keeps_records_wf(pre, post);
    assert forall|i: int|
        0 <= i < post.records.len() && (#[trigger] post.records[i]).is_traced()
            && post.records[i].strong_handles == 0 && post.enabled_for_new_threads
            implies post.records[i].enabled by {
        if i != at {
            assert(pre.records[i].is_traced());
        }
    }
}

/// The fast path of acquisition keeps the invariant.
pub proof fn lemma_acquire_fast_keeps_wf(pre: Model, handle: RawThreadHandle)
    requires
        pre.wf(),
        pre.has_record(handle),
    ensures
        pre.acquire_fast(handle).0.wf(),
        pre.acquire_fast(handle).0.has_record(handle),
        pre.acquire_fast(handle).1 is Handle ==> pre.acquire_fast(handle).0.holds_strong(handle),
        pre.acquire_fast(handle).1 matches Acquired::Handle(got) ==> got == handle,
{
    let record = pre.record(handle);
    if record.refcount() < THROTTLE_LIMIT && record.enabled {
        lemma_with_record_keeps_wf(
            pre,
            handle,
            record.with_enabled(false).with_strong_handles((record.strong_handles + 1) as usize),
        );
    }
}

/// The acquisition proper keeps the invariant; the slot stays one of the
/// state, and a handle that comes out is accounted for.
pub proof fn lemma_acquire_handle_keeps_wf(pre: Model, tls: Tls, thread_id: u32)
    requires
        pre.wf(),
        pre.has_tls(tls),
        tls is Uninitialized ==> pre.has_room(),
    ensures
        pre.acquire_handle(tls, thread_id).0.wf(),
        pre.acquire_handle(tls, thread_id).0.has_tls(pre.acquire_handle(tls, thread_id).1),
        pre.acquire_handle(tls, thread_id).2 matches Acquired::Handle(handle)
            ==> pre.acquire_handle(tls, thread_id).0.holds_strong(handle),
{
    match tls {
        Tls::Uninitialized => {
            if pre.allocation_lock is None {
                lemma_register_keeps_wf(pre, thread_id);
                let (registered, handle) = pre.register(thread_id);
                lemma_acquire_fast_keeps_wf(registered, handle);
            }
        },
        Tls::Alive(handle) => {
            lemma_acquire_fast_keeps_wf(pre, handle);
        },
        Tls::Destroyed => {
            if pre.allocation_lock is None {
                lemma_lookup_has_record(pre, thread_id);
                if let Some(i) = pre.lookup(thread_id) {
                    let record = pre.records[i];
                    if record.strong_handles + record.weak_handles < usize::MAX
                        - THROTTLE_LIMIT {
                        lemma_with_record_keeps_wf(
                            pre,
                            record.handle(),
                            record.with_strong_handles((record.strong_handles + 1) as usize),
                        );
                    }
                }
            }
        },
    }
}

/// An intercepted call's request for a strong handle keeps the invariant,
/// whether it acquires, is refused or takes a step of the startup protocol; the
/// slot stays one of the state, and a handle that comes out is accounted for.
pub proof fn lemma_acquire_keeps_wf(pre: Model, tls: Tls, thread_id: u32, event: StartupEvent)
    requires
        pre.wf(),
        pre.has_tls(tls),
        tls is Uninitialized ==> pre.has_room(),
    ensures
        pre.acquire(tls, thread_id, event).0.wf(),
        pre.acquire(tls, thread_id, event).0.has_tls(pre.acquire(tls, thread_id, event).1),
        pre.acquire(tls, thread_id, event).2 matches Acquired::Handle(handle) ==> pre.acquire(
            tls,
            thread_id,
            event,
        ).0.holds_strong(handle),
{
    if pre.state == State::Enabled {
        lemma_acquire_handle_keeps_wf(pre, tls, thread_id);
    } else {
        lemma_try_enable_keeps_wf(pre, event);
        let (next, action) = pre.try_enable(event);
        assert(next.records.len() == pre.records.len());
        assert(next.has_tls(tls)) by {
            if let Tls::Alive(handle) = tls {
                assert(next.records[handle.internal_thread_id - 1].thread_id
                    == pre.records[handle.internal_thread_id - 1].thread_id);
            }
        }
        if action == StartupAction::Done {
            lemma_acquire_handle_keeps_wf(next, tls, thread_id);
        }
    }
}

/// Dropping a strong handle keeps the invariant.
pub proof fn lemma_release_strong_keeps_wf(pre: Model, handle: RawThreadHandle)
    requires
        pre.wf(),
        pre.holds_strong(handle),
    ensures
        pre.release_strong(handle).wf(),
{
    let record = pre.record(handle);
    lemma_with_record_keeps_wf(
        pre,
        handle,
        record.with_enabled(true).with_strong_handles((record.strong_handles - 1) as usize),
    );
}

/// Turning a strong handle into a weak one keeps the invariant, and the weak
/// handle is accounted for.
pub proof fn lemma_decay_keeps_wf(pre: Model, handle: RawThreadHandle)
    requires
        pre.wf(),
        pre.holds_strong(handle),
    ensures
        pre.decay(handle).wf(),
        pre.decay(handle).holds_weak(handle),
{
    let record = pre.record(handle);
    lemma_with_record_keeps_wf(
        pre,
        handle,
        record.with_enabled(true).with_strong_handles(
            (record.strong_handles - 1) as usize,
        ).with_weak_handles((record.weak_handles + 1) as usize),
    );
}

/// Dropping a weak handle keeps the invariant.
pub proof fn lemma_release_weak_keeps_wf(pre: Model, handle: RawThreadHandle)
    requires
        pre.wf(),
        pre.holds_weak(handle),
    ensures
        pre.release_weak(handle).wf(),
{
    let record = pre.record(handle);
    lemma_with_record_keeps_wf(
        pre,
        handle,
        record.with_weak_handles((record.weak_handles - 1) as usize),
    );
}

/// Recording an allocation keeps the invariant and leaves the handle accounted for.
pub proof fn lemma_on_new_allocation_keeps_wf(pre: Model, handle: RawThreadHandle)
    requires
        pre.wf(),
        pre.holds_strong(handle),
    ensures
        pre.on_new_allocation(handle).0.wf(),
        pre.on_new_allocation(handle).0.holds_strong(handle),
{
    let record = pre.record(handle);
    lemma_with_record_keeps_wf(
        pre,
        handle,
        record.with_allocation_counter((record.allocation_counter + 1) as u64),
    );
}

/// The number of expired entries at the head of a queue is `n` if the first
/// `n` entries have expired and the next one, if there is one, has not.
pub proof fn lemma_expired_prefix(pre: Model, now: Timestamp, n: int)
    requires
        0 <= n <= pre.dead_thread_queue.len(),
        forall|k: int|
            0 <= k < n ==> is_expired(#[trigger] pre.dead_thread_queue[k].time_of_death, now),
        n < pre.dead_thread_queue.len() ==> !is_expired(
            pre.dead_thread_queue[n].time_of_death,
            now,
        ),
    ensures
        pre.expired_count(now) == n,
{
    lemma_expired_count_from(pre.dead_thread_queue, now, 0, n);
}

proof fn lemma_expired_count_from(queue: Seq<DeadThread>, now: Timestamp, from: int, n: int)
    requires
        0 <= from <= n <= queue.len(),
        forall|k: int| 0 <= k < n ==> is_expired(#[trigger] queue[k].time_of_death, now),
        n < queue.len() ==> !is_expired(queue[n].time_of_death, now),
    ensures
        expired_count_from(queue, now, from) == n - from,
    decreases n - from,
{
    if from < n {
        assert(is_expired(queue[from].time_of_death, now));
        lemma_expired_count_from(queue, now, from + 1, n);
    }
}

/// The expired entries at the head of a queue are entries of the queue, and
/// each of them has expired.
pub proof fn lemma_expired_count_bound(queue: Seq<DeadThread>, now: Timestamp, from: int)
    requires
        0 <= from <= queue.len(),
    ensures
        from + expired_count_from(queue, now, from) <= queue.len(),
        forall|k: int|
            from <= k < from + expired_count_from(queue, now, from) ==> is_expired(
                #[trigger] queue[k].time_of_death,
                now,
            ),
    decreases queue.len() - from,
{
    if from < queue.len() && is_expired(queue[from].time_of_death, now) {
        lemma_expired_count_bound(queue, now, from + 1);
    }
}

/// Collecting the dead keeps the invariant.
pub proof fn lemma_garbage_collect_keeps_wf(pre: Model, now: Timestamp)
    requires
        pre.wf(),
        pre.allocation_lock is None,
    ensures
        pre.garbage_collect_dead_threads(now).wf(),
{
    let post = pre.garbage_collect_dead_threads(now);
    let count = pre.expired_count(now) as int;
    lemma_expired_count_bound(pre.dead_thread_queue, now, 0);
    assert forall|i: int| 0 <= i < pre.records.len() implies {
        &&& (#[trigger] post.records[i]).throttle == post.lock_delta(post.records[i])
        &&& post.records[i].strong_handles + post.records[i].weak_handles <= usize::MAX
            - THROTTLE_LIMIT
    } by {
        assert(pre.records[i].throttle == pre.lock_delta(pre.records[i]));
        assert(pre.records[i].strong_handles + pre.records[i].weak_handles <= usize::MAX
            - THROTTLE_LIMIT);
    }
    assert forall|k: int| 0 <= k < post.dead_thread_queue.len() implies pre.has_record(
        (#[trigger] post.dead_thread_queue[k]).thread,
    ) by {
        assert(pre.has_record(pre.dead_thread_queue[k + count].thread));
    }
    lemma_pointwise_keeps_records_wf(pre, post);
    assert forall|i: int|
        0 <= i < post.records.len() && (#[trigger] post.records[i]).is_traced()
            && post.records[i].strong_handles == 0 && post.enabled_for_new_threads
            implies post.records[i].enabled by {
        assert(pre.records[i].is_traced());
    }
}

/// The worker's entry keeps the invariant, and the worker's slot stays one of the state.
pub proof fn lemma_processing_thread_started_keeps_wf(pre: Model, tls: Tls, thread_id: u32)
    requires
        pre.wf(),
        pre.has_tls(tls),
        tls is Uninitialized ==> pre.allocation_lock is None && pre.has_room(),
    ensures
        pre.processing_thread_started(tls, thread_id).0.wf(),
        pre.processing_thread_started(tls, thread_id).0.has_tls(
            pre.processing_thread_started(tls, thread_id).1,
        ),
{
    if !(pre.state == State::PermanentlyDisabled || pre.startup != StartupPhase::Spawning
        || pre.thread_running) {
        lemma_tls_with_keeps_wf(pre, tls, thread_id);
        let (next, slot, handle) = pre.tls_with(tls, thread_id);
        match handle {
            Some(handle) => {
                let marked = next.with_record(
                    handle,
                    next.record(handle).with_internal(true).with_throttle(0),
                );
                let post = Model { thread_running: true, ..marked };
                assert forall|i: int| 0 <= i < next.records.len() implies {
                    &&& (#[trigger] post.records[i]).throttle == post.lock_delta(post.records[i])
                    &&& post.records[i].strong_handles + post.records[i].weak_handles
                        <= usize::MAX - THROTTLE_LIMIT
                } by {
                    assert(next.records[i].throttle == next.lock_delta(next.records[i]));
                    assert(next.records[i].strong_handles + next.records[i].weak_handles
                        <= usize::MAX - THROTTLE_LIMIT);
                }
                assert forall|k: int| 0 <= k < post.dead_thread_queue.len() implies next.has_record(
                    (#[trigger] post.dead_thread_queue[k]).thread,
                ) by {
                    assert(next.has_record(next.dead_thread_queue[k].thread));
                }
                lemma_pointwise_keeps_records_wf(next, post);
            },
            None => {
                lemma_registry_untouched_keeps_wf(next, Model { thread_running: true, ..next });
            },
        }
    }
}

/// The worker's exit keeps the invariant.
pub proof fn lemma_processing_thread_finished_keeps_wf(pre: Model, panicked: bool)
    requires
        pre.wf(),
        pre.allocation_lock is None,
    ensures
        pre.processing_thread_finished(panicked).wf(),
{
    let post = pre.processing_thread_finished(panicked);
    if pre.state != State::PermanentlyDisabled {
        assert(post.records == pre.swept(false));
        lemma_flags_only_keeps_records_wf(pre, post);
    }
}

/// A change of throttles alone, to what the allocation lock of the new state
/// puts on each record, keeps the invariant.
proof fn lemma_rethrottled_keeps_wf(pre: Model, post: Model, holder: Option<u32>)
    requires
        pre.wf(),
        post == (Model { allocation_lock: holder, records: pre.throttled(holder), ..pre }),
    ensures
        post.wf(),
{
    assert forall|i: int| 0 <= i < pre.records.len() implies {
        &&& (#[trigger] post.records[i]).strong_handles + post.records[i].weak_handles
            <= usize::MAX - THROTTLE_LIMIT
    } by {
        assert(pre.records[i].strong_handles + pre.records[i].weak_handles <= usize::MAX
            - THROTTLE_LIMIT);
    }
    assert forall|k: int| 0 <= k < post.dead_thread_queue.len() implies pre.has_record(
        (#[trigger] post.dead_thread_queue[k]).thread,
    ) by {
        assert(pre.has_record(pre.dead_thread_queue[k].thread));
    }
    lemma_pointwise_keeps_records_wf(pre, post);
    assert forall|i: int|
        0 <= i < post.records.len() && (#[trigger] post.records[i]).is_traced()
            && post.records[i].strong_handles == 0 && post.enabled_for_new_threads
            implies post.records[i].enabled by {
        assert(pre.records[i].is_traced());
    }
}

/// Taking the allocation lock keeps the invariant.
pub proof fn lemma_lock_allocations_keeps_wf(pre: Model, thread_id: u32)
    requires
        pre.wf(),
        pre.allocation_lock is None,
    ensures
        pre.lock_allocations(thread_id).wf(),
{
    lemma_rethrottled_keeps_wf(pre, pre.lock_allocations(thread_id), Some(thread_id));
}

/// Dropping the allocation lock keeps the invariant.
pub proof fn lemma_unlock_allocations_keeps_wf(pre: Model)
    requires
        pre.wf(),
    ensures
        pre.unlock_allocations().wf(),
{
    lemma_rethrottled_keeps_wf(pre, pre.unlock_allocations(), None);
}

/// Dropping every record but one thread's from the registry keeps the invariant.
pub proof fn lemma_retained_is_wf(pre: Model, thread_id: u32)
    requires
        pre.wf(),
    ensures
        pre.forked(thread_id).wf(),
        forall|tls: Tls| pre.has_tls(tls) ==> #[trigger] pre.forked(thread_id).has_tls(tls),
{
    let base = pre.forked(thread_id);
    assert forall|i: int| 0 <= i < pre.records.len() implies {
        &&& (#[trigger] base.records[i]).strong_handles + base.records[i].weak_handles
            <= usize::MAX - THROTTLE_LIMIT
    } by {
        assert(pre.records[i].strong_handles + pre.records[i].weak_handles <= usize::MAX
            - THROTTLE_LIMIT);
    }
    assert forall|k: int| 0 <= k < base.dead_thread_queue.len() implies pre.has_record(
        (#[trigger] base.dead_thread_queue[k]).thread,
    ) by {
        assert(pre.has_record(pre.dead_thread_queue[k].thread));
    }
    lemma_pointwise_keeps_records_wf(pre, base);
}

/// The fork hook keeps the invariant, and the caller's slot stays one of the state.
pub proof fn lemma_on_fork_keeps_wf(pre: Model, tls: Tls, thread_id: u32)
    requires
        pre.wf(),
        pre.has_tls(tls),
        tls is Uninitialized ==> pre.has_room(),
    ensures
        pre.on_fork(tls, thread_id).0.wf(),
        pre.on_fork(tls, thread_id).0.has_tls(pre.on_fork(tls, thread_id).1),
{
    let base = pre.forked(thread_id);
    lemma_retained_is_wf(pre, thread_id);
    assert(base.has_tls(tls));
    lemma_tls_with_keeps_wf(base, tls, thread_id);
    let (next, slot, handle) = base.tls_with(tls, thread_id);
    if let Some(handle) = handle {
        lemma_with_record_keeps_wf(next, handle, next.record(handle).with_enabled(false));
    }
}

} // verus!
