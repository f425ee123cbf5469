//! What the worker thread, the fork hook and the collector of dead threads do
//! to the process state.

use vstd::prelude::*;
use crate::global::{lemma_table_kept, set_enabled_for_all, Global};
use crate::handle::ThreadLocal;
use crate::model::{Model, Tls, DEAD_THREAD_GRACE_SECS};
use crate::preservation::{
    lemma_expired_prefix, lemma_garbage_collect_keeps_wf, lemma_lookup_has_record,
    lemma_lookup_is_unique, lemma_on_fork_keeps_wf,
    lemma_processing_thread_finished_keeps_wf, lemma_processing_thread_started_keeps_wf,
    lemma_retained_is_wf,
};
use crate::registry::{is_expired, traced_handles};
use crate::state::{DesiredState, StartupPhase, State};
use crate::thread::{RawThreadHandle, Timestamp};

verus! {

broadcast use vstd::std_specs::hash::group_hash_axioms;

/// Whether a thread that died at `time_of_death` is older than the grace period at `now`.
pub fn has_expired(time_of_death: Timestamp, now: Timestamp) -> (expired: bool)
    ensures
        expired == is_expired(time_of_death, now),
{
    now.secs >= DEAD_THREAD_GRACE_SECS && time_of_death.secs < now.secs - DEAD_THREAD_GRACE_SECS
}

/// Lets go of the dead threads at the head of the queue that are older than
/// the grace period at `now`, and takes each one's record out of the registry
/// if the registry still maps the thread's system id to that very record.
pub fn garbage_collect_dead_threads(global: &mut Global, now: Timestamp)
    requires
        old(global).wf(),
        old(global)@.allocation_lock is None,
    ensures
        final(global)@ == old(global)@.garbage_collect_dead_threads(now),
        final(global).wf(),
{
    proof {
        lemma_garbage_collect_keeps_wf(global@, now);
    }
    let len = global.registry.dead_thread_queue.len();
    let mut count: usize = 0;
    while count < len && has_expired(global.registry.dead_thread_queue[count].time_of_death, now)
        invariant
            count <= len,
            len == global@.dead_thread_queue.len(),
            forall|k: int|
                0 <= k < count ==> is_expired(
                    #[trigger] global@.dead_thread_queue[k].time_of_death,
                    now,
                ),
        decreases len - count,
    {
        count += 1;
    }
    proof {
        lemma_expired_prefix(global@, now, count as int);
    }
    let mut k: usize = 0;
    while k < count
        invariant
            k <= count <= len,
            old(global).wf(),
            len == old(global)@.dead_thread_queue.len(),
            global@.records.len() == old(global)@.records.len(),
            forall|i: int|
                0 <= i < global@.records.len() ==> #[trigger] global@.records[i] == if old(
                    global,
                )@.is_named_dead(i, k as int) {
                    old(global)@.records[i].with_registered(false)
                } else {
                    old(global)@.records[i]
                },
            global@ == (Model { records: global@.records, ..old(global)@ }),
            global.registry.table_wf(),
        decreases count - k,
    {
        let thread = global.registry.dead_thread_queue[k].thread;
        assert(old(global)@.has_record(old(global)@.dead_thread_queue[k as int].thread));
        let at = (thread.internal_thread_id - 1) as usize;
        let mut record = global.registry.records[at];
        // The record leaves the table only if the table still holds it: its
        // thread's system id may belong to a later record by now.
        if record.registered {
            let ghost before = global.registry;
            record.registered = false;
            global.registry.records.set(at, record);
            global.registry.threads.remove(&record.thread_id);
            proof {
                let tid = record.thread_id;
                assert(before@[at as int].registered);
                assert(before.table()[tid].internal_thread_id == at + 1);
                assert(global.registry.table() == before.table().remove(tid));
                assert forall|other: u32| #[trigger]
                    global.registry.table().contains_key(other) implies {
                    let found = global.registry.table()[other];
                    &&& found.thread_id == other
                    &&& 1 <= found.internal_thread_id <= global.registry@.len()
                    &&& global.registry@[found.internal_thread_id - 1].registered
                    &&& global.registry@[found.internal_thread_id - 1].thread_id == other
                } by {
                    assert(before.table().contains_key(other));
                    let found = before.table()[other];
                    assert(before@[found.internal_thread_id - 1].thread_id == other);
                }
                assert forall|i: int|
                    0 <= i < global.registry@.len() && (
                    #[trigger] global.registry@[i]).registered implies {
                    &&& global.registry.table().contains_key(global.registry@[i].thread_id)
                    &&& global.registry.table()[global.registry@[i].thread_id].internal_thread_id
                        == i + 1
                } by {
                    assert(before@[i].registered);
                    assert(before.table()[before@[i].thread_id].internal_thread_id == i + 1);
                }
            }
        }
        proof {
            let pre = old(global)@;
            assert forall|i: int| 0 <= i < global@.records.len() implies #[trigger] global@.records[i]
                == if pre.is_named_dead(i, k + 1) {
                pre.records[i].with_registered(false)
            } else {
                pre.records[i]
            } by {
                if pre.is_named_dead(i, k + 1) && !pre.is_named_dead(i, k as int) {
                    let w = choose|w: int|
                        0 <= w < k + 1 && (#[trigger] pre.dead_thread_queue[w]).thread.internal_thread_id
                            == i + 1;
                    assert(w == k);
                }
                if pre.is_named_dead(i, k as int) {
                    let w = choose|w: int|
                        0 <= w < k && (#[trigger] pre.dead_thread_queue[w]).thread.internal_thread_id
                            == i + 1;
                    assert(0 <= w < k + 1);
                }
                if i == at {
                    assert(pre.dead_thread_queue[k as int].thread.internal_thread_id == i + 1);
                    assert(pre.is_named_dead(i, k + 1));
                }
            }
        }
        k += 1;
    }
    let ghost swept = global.registry;
    let rest = global.registry.dead_thread_queue.split_off(count);
    global.registry.dead_thread_queue = rest;
    assert(global@.records =~= old(global)@.garbage_collect_dead_threads(now).records);
    proof {
        lemma_table_kept(swept, global.registry);
    }
}

/// The worker thread, whose system id is `thread_id` and whose slot is `tls`,
/// enters its body: its record is marked internal and the worker counts as
/// running. True if and only if a worker was asked for and none runs; otherwise
/// nothing changes and the thread is to end at once.
///
/// An internal thread is never traced: a slot that holds a record has to hold a
/// disabled one.
pub fn processing_thread_started(global: &mut Global, tls: &mut ThreadLocal, thread_id: u32) -> (expected:
    bool)
    requires
        old(global).wf(),
        old(global)@.has_tls(old(tls)@),
        old(tls)@ is Uninitialized ==> old(global)@.allocation_lock is None && old(
            global,
        )@.has_room(),
        old(tls)@ matches Tls::Alive(handle) ==> !old(global)@.record(handle).enabled,
    ensures
        (final(global)@, final(tls)@, expected) == old(global)@.processing_thread_started(
            old(tls)@,
            thread_id,
        ),
        final(global).wf(),
        final(global)@.has_tls(final(tls)@),
{
    proof {
        lemma_processing_thread_started_keeps_wf(global@, tls@, thread_id);
    }
    if global.state == State::PermanentlyDisabled || global.startup != StartupPhase::Spawning
        || global.thread_running {
        return false;
    }
    if let Some(handle) = tls.with(global, thread_id) {
        let ghost registered = global.registry;
        let at = (handle.internal_thread_id - 1) as usize;
        let mut record = global.registry.records[at];
        record.is_internal = true;
        record.throttle = 0;
        global.registry.records.set(at, record);
        proof {
            lemma_table_kept(registered, global.registry);
        }
    }
    global.thread_running = true;
    true
}

/// The worker thread has left its body, by returning or, if `panicked`, by
/// unwinding: new threads start disabled, every traced thread is disabled, the
/// state is `Disabled` and the worker no longer counts as running. A panic
/// also asks for shutdown. In a fork child nothing changes.
///
/// The result names the threads that were disabled, in order of creation: the
/// caller clears the unwind cache of each.
pub fn processing_thread_finished(global: &mut Global, panicked: bool) -> (disabled: Vec<
    RawThreadHandle,
>)
    requires
        old(global).wf(),
        old(global)@.allocation_lock is None,
    ensures
        final(global)@ == old(global)@.processing_thread_finished(panicked),
        disabled@ == if old(global)@.state == State::PermanentlyDisabled {
            Seq::<RawThreadHandle>::empty()
        } else {
            traced_handles(old(global)@.records, old(global)@.records.len() as int)
        },
        final(global).wf(),
{
    proof {
        lemma_processing_thread_finished_keeps_wf(global@, panicked);
    }
    let mut disabled: Vec<RawThreadHandle> = Vec::new();
    if global.state == State::PermanentlyDisabled {
        return disabled;
    }
    if panicked {
        global.desired_state = DesiredState::Disabled;
    }
    let n = global.registry.records.len();
    let mut i: usize = 0;
    while i < n
        invariant
            i <= n,
            n == global@.records.len(),
            global@.records == old(global)@.records,
            disabled@ == traced_handles(global@.records, i as int),
        decreases n - i,
    {
        let record = &global.registry.records[i];
        if record.registered && !record.is_internal {
            disabled.push(
                RawThreadHandle {
                    thread_id: record.thread_id,
                    internal_thread_id: record.internal_thread_id,
                },
            );
        }
        i += 1;
    }
    global.registry.enabled_for_new_threads = false;
    proof {
        lemma_table_kept(old(global).registry, global.registry);
    }
    set_enabled_for_all(global, false);
    global.state = State::Disabled;
    global.thread_running = false;
    global.startup = StartupPhase::Idle;
    disabled
}

/// The fork hook, run in the child by its only thread, whose system id is
/// `thread_id` and whose slot is `tls`: the state is `PermanentlyDisabled` for
/// good, the registry lock is forced open, every record but the caller's
/// leaves the registry, and the caller's thread is disabled.
pub fn on_fork(global: &mut Global, tls: &mut ThreadLocal, thread_id: u32)
    requires
        old(global).wf(),
        old(global)@.has_tls(old(tls)@),
        old(tls)@ is Uninitialized ==> old(global)@.has_room(),
    ensures
        (final(global)@, final(tls)@) == old(global)@.on_fork(old(tls)@, thread_id),
        final(global).wf(),
        final(global)@.has_tls(final(tls)@),
{
    proof {
        lemma_on_fork_keeps_wf(global@, tls@, thread_id);
    }
    let kept = global.find(thread_id);
    global.state = State::PermanentlyDisabled;
    global.desired_state = DesiredState::Disabled;
    global.thread_running = false;
    global.startup = StartupPhase::Idle;
    global.registry.allocation_lock = None;
    global.registry.enabled_for_new_threads = false;
    let n = global.registry.records.len();
    let mut i: usize = 0;
    while i < n
        invariant
            i <= n,
            n == old(global)@.records.len(),
            global@.records.len() == n,
            forall|j: int| 0 <= j < i ==> global@.records[j] == old(global)@.retained(thread_id)[j],
            forall|j: int| i <= j < n ==> global@.records[j] == old(global)@.records[j],
            global@ == (Model {
                state: State::PermanentlyDisabled,
                desired_state: DesiredState::Disabled,
                thread_running: false,
                startup: StartupPhase::Idle,
                allocation_lock: None,
                enabled_for_new_threads: false,
                records: global@.records,
                ..old(global)@
            }),
        decreases n - i,
    {
        let mut record = global.registry.records[i];
        record.registered = record.registered && record.thread_id == thread_id;
        record.throttle = 0;
        global.registry.records.set(i, record);
        i += 1;
    }
    assert(global@.records =~= old(global)@.retained(thread_id));
    // Of the table only the caller's entry is left.
    global.registry.threads.clear();
    if let Some(handle) = kept {
        global.registry.threads.insert(thread_id, handle);
    }
    proof {
        let before = old(global).registry;
        lemma_lookup_has_record(old(global)@, thread_id);
        assert forall|other: u32| #[trigger]
            global.registry.table().contains_key(other) implies {
            let found = global.registry.table()[other];
            &&& found.thread_id == other
            &&& 1 <= found.internal_thread_id <= global.registry@.len()
            &&& global.registry@[found.internal_thread_id - 1].registered
            &&& global.registry@[found.internal_thread_id - 1].thread_id == other
        } by {
            assert(other == thread_id && kept is Some);
        }
        assert forall|i: int|
            0 <= i < global.registry@.len() && (#[trigger] global.registry@[i]).registered implies {
            &&& global.registry.table().contains_key(global.registry@[i].thread_id)
            &&& global.registry.table()[global.registry@[i].thread_id].internal_thread_id == i + 1
        } by {
            assert(before@[i].registered && before@[i].thread_id == thread_id);
            assert(old(global)@.is_registered_at(i, thread_id));
            lemma_lookup_is_unique(old(global)@, thread_id, i);
        }
    }
    proof {
        let base = global@;
        assert(base.has_tls(tls@));
        assert(base == old(global)@.forked(thread_id));
        lemma_retained_is_wf(old(global)@, thread_id);
    }
    if let Some(handle) = tls.with(global, thread_id) {
        let ghost registered = global.registry;
        let at = (handle.internal_thread_id - 1) as usize;
        let mut record = global.registry.records[at];
        record.set_enabled(false);
        global.registry.records.set(at, record);
        proof {
            lemma_table_kept(registered, global.registry);
        }
    }
}

} // verus!
