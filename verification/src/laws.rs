//! What holds of the control core in every state that it can reach.
//!
//! A run of the core is a sequence of steps, one for each call of an
//! operation, from the initial state. The laws below speak of every state
//! that some run ends in.

use vstd::prelude::*;
use crate::model::{Acquired, Model, Tls};
use crate::preservation::{
    lemma_acquire_handle_keeps_wf, lemma_acquire_keeps_wf, lemma_decay_keeps_wf,
    lemma_expired_count_bound,
    lemma_garbage_collect_keeps_wf, lemma_lock_allocations_keeps_wf, lemma_lookup_has_record,
    lemma_on_fork_keeps_wf, lemma_on_new_allocation_keeps_wf,
    lemma_processing_thread_finished_keeps_wf, lemma_processing_thread_started_keeps_wf,
    lemma_register_keeps_wf, lemma_registry_untouched_keeps_wf, lemma_release_strong_keeps_wf,
    lemma_release_weak_keeps_wf, lemma_retained_is_wf, lemma_thread_exit_keeps_wf,
    lemma_tls_with_keeps_wf, lemma_try_enable_keeps_wf, lemma_unlock_allocations_keeps_wf,
};
use crate::registry::is_expired;
use crate::state::{DesiredState, StartupAction, StartupEvent, StartupPhase, State};
use crate::thread::{RawThreadHandle, ThreadData, Timestamp, THROTTLE_LIMIT};

verus! {

/// One call of an operation of the control core.
pub enum Step {
    Toggle,
    Enable,
    Disable,
    TryEnable(StartupEvent),
    TryDisableIfRequested,
    OnExit,
    ProcessingThreadStarted { tls: Tls, thread_id: u32 },
    ProcessingThreadFinished { panicked: bool },
    OnFork { tls: Tls, thread_id: u32 },
    TlsWith { tls: Tls, thread_id: u32 },
    ThreadExit { tls: Tls, now: Timestamp },
    GarbageCollect { now: Timestamp },
    Acquire { tls: Tls, thread_id: u32, event: StartupEvent },
    ReleaseStrong(RawThreadHandle),
    Decay(RawThreadHandle),
    ReleaseWeak(RawThreadHandle),
    OnNewAllocation(RawThreadHandle),
    LockAllocations { thread_id: u32 },
    UnlockAllocations { holder: u32 },
}

impl Model {
    /// Whether `step` can be taken: what the operation asks of its caller.
    pub open spec fn admits(self, step: Step) -> bool {
        match step {
            Step::ProcessingThreadStarted { tls, thread_id } => {
                &&& self.has_tls(tls)
                &&& tls is Uninitialized ==> self.allocation_lock is None && self.has_room()
                &&& tls matches Tls::Alive(handle) ==> !self.record(handle).enabled
            },
            Step::ProcessingThreadFinished { panicked } => self.allocation_lock is None,
            Step::OnFork { tls, thread_id } => {
                &&& self.has_tls(tls)
                &&& tls is Uninitialized ==> self.has_room()
            },
            Step::TlsWith { tls, thread_id } => {
                &&& self.has_tls(tls)
                &&& tls is Uninitialized ==> self.allocation_lock is None && self.has_room()
            },
            Step::ThreadExit { tls, now } => self.allocation_lock is None,
            Step::GarbageCollect { now } => self.allocation_lock is None,
            Step::Acquire { tls, thread_id, event } => {
                &&& self.has_tls(tls)
                &&& tls is Uninitialized ==> self.has_room()
            },
            Step::ReleaseStrong(handle) => self.holds_strong(handle),
            Step::Decay(handle) => self.holds_strong(handle),
            Step::ReleaseWeak(handle) => self.holds_weak(handle),
            Step::OnNewAllocation(handle) => self.holds_strong(handle) && self.record(
                handle,
            ).allocation_counter < u64::MAX,
            Step::LockAllocations { thread_id } => self.allocation_lock is None,
            _ => true,
        }
    }

    /// The state after `step`.
    pub open spec fn step(self, step: Step) -> Model {
        match step {
            Step::Toggle => self.toggle(),
            Step::Enable => self.enable().0,
            Step::Disable => self.disable().0,
            Step::TryEnable(event) => self.try_enable(event).0,
            Step::TryDisableIfRequested => self.try_disable_if_requested().0,
            Step::OnExit => self.on_exit().0,
            Step::ProcessingThreadStarted { tls, thread_id } => self.processing_thread_started(
                tls,
                thread_id,
            ).0,
            Step::ProcessingThreadFinished { panicked } => self.processing_thread_finished(
                panicked,
            ),
            Step::OnFork { tls, thread_id } => self.on_fork(tls, thread_id).0,
            Step::TlsWith { tls, thread_id } => self.tls_with(tls, thread_id).0,
            Step::ThreadExit { tls, now } => self.thread_exit(tls, now).0,
            Step::GarbageCollect { now } => self.garbage_collect_dead_threads(now),
            Step::Acquire { tls, thread_id, event } => self.acquire(tls, thread_id, event).0,
            Step::ReleaseStrong(handle) => self.release_strong(handle),
            Step::Decay(handle) => self.decay(handle),
            Step::ReleaseWeak(handle) => self.release_weak(handle),
            Step::OnNewAllocation(handle) => self.on_new_allocation(handle).0,
            Step::LockAllocations { thread_id } => self.lock_allocations(thread_id),
            Step::UnlockAllocations { holder } => self.unlock_allocations_of(holder),
        }
    }

    /// Whether `steps` is a run from this state: each step can be taken in
    /// the state that the ones before it lead to.
    pub open spec fn admits_run(self, steps: Seq<Step>) -> bool
        decreases steps.len(),
    {
        steps.len() > 0 ==> self.admits(steps[0]) && self.step(steps[0]).admits_run(
            steps.subrange(1, steps.len() as int),
        )
    }

    /// The state at the end of the run `steps` from this state.
    pub open spec fn run(self, steps: Seq<Step>) -> Model
        decreases steps.len(),
    {
        if steps.len() > 0 {
            self.step(steps[0]).run(steps.subrange(1, steps.len() as int))
        } else {
            self
        }
    }

    /// Whether `later` has every record of this state, under the same
    /// identity and with an allocation counter that is no smaller.
    pub open spec fn grows_to(self, later: Model) -> bool {
        &&& self.records.len() <= later.records.len()
        &&& forall|i: int|
            0 <= i < self.records.len() ==> {
                &&& (#[trigger] later.records[i]).internal_thread_id
                    == self.records[i].internal_thread_id
                &&& later.records[i].thread_id == self.records[i].thread_id
                &&& later.records[i].allocation_counter >= self.records[i].allocation_counter
            }
    }

    /// Whether `later` has every record of this state under the same identity
    /// and with the same allocation counter, and every further record with
    /// the counter at its start, 1.
    pub open spec fn keeps_counters(self, later: Model) -> bool {
        &&& self.records.len() <= later.records.len()
        &&& forall|i: int|
            0 <= i < self.records.len() ==> {
                &&& (#[trigger] later.records[i]).internal_thread_id
                    == self.records[i].internal_thread_id
                &&& later.records[i].thread_id == self.records[i].thread_id
                &&& later.records[i].allocation_counter == self.records[i].allocation_counter
            }
        &&& forall|i: int|
            self.records.len() <= i < later.records.len() ==> (
            #[trigger] later.records[i]).allocation_counter == 1
    }
}

/// The initial state meets the invariant.
pub proof fn lemma_initial_is_wf()
    ensures
        Model::initial().wf(),
{
}

/// Every step keeps the invariant.
pub proof fn lemma_step_keeps_wf(pre: Model, step: Step)
    requires
        pre.wf(),
        pre.admits(step),
    ensures
        pre.step(step).wf(),
{
    match step {
        Step::Toggle => lemma_registry_untouched_keeps_wf(pre, pre.toggle()),
        Step::Enable => lemma_registry_untouched_keeps_wf(pre, pre.enable().0),
        Step::Disable => lemma_registry_untouched_keeps_wf(pre, pre.disable().0),
        Step::TryEnable(event) => lemma_try_enable_keeps_wf(pre, event),
        Step::TryDisableIfRequested => lemma_registry_untouched_keeps_wf(
            pre,
            pre.try_disable_if_requested().0,
        ),
        Step::OnExit => lemma_registry_untouched_keeps_wf(pre, pre.on_exit().0),
        Step::ProcessingThreadStarted { tls, thread_id } => {
            lemma_processing_thread_started_keeps_wf(pre, tls, thread_id)
        },
        Step::ProcessingThreadFinished { panicked } => lemma_processing_thread_finished_keeps_wf(
            pre,
            panicked,
        ),
        Step::OnFork { tls, thread_id } => lemma_on_fork_keeps_wf(pre, tls, thread_id),
        Step::TlsWith { tls, thread_id } => lemma_tls_with_keeps_wf(pre, tls, thread_id),
        Step::ThreadExit { tls, now } => lemma_thread_exit_keeps_wf(pre, tls, now),
        Step::GarbageCollect { now } => lemma_garbage_collect_keeps_wf(pre, now),
        Step::Acquire { tls, thread_id, event } => lemma_acquire_keeps_wf(
            pre,
            tls,
            thread_id,
            event,
        ),
        Step::ReleaseStrong(handle) => lemma_release_strong_keeps_wf(pre, handle),
        Step::Decay(handle) => lemma_decay_keeps_wf(pre, handle),
        Step::ReleaseWeak(handle) => lemma_release_weak_keeps_wf(pre, handle),
        Step::OnNewAllocation(handle) => lemma_on_new_allocation_keeps_wf(pre, handle),
        Step::LockAllocations { thread_id } => lemma_lock_allocations_keeps_wf(pre, thread_id),
        Step::UnlockAllocations { holder } => {
            if pre.allocation_lock == Some(holder) {
                lemma_unlock_allocations_keeps_wf(pre)
            }
        },
    }
}

/// Every state that a run from a well-formed state ends in meets the invariant.
pub proof fn lemma_run_keeps_wf(pre: Model, steps: Seq<Step>)
    requires
        pre.wf(),
        pre.admits_run(steps),
    ensures
        pre.run(steps).wf(),
    decreases steps.len(),
{
    if steps.len() > 0 {
        lemma_step_keeps_wf(pre, steps[0]);
        lemma_run_keeps_wf(pre.step(steps[0]), steps.subrange(1, steps.len() as int));
    }
}

/// In every state that a run from the initial state ends in: if the state is
/// `Enabled`, the worker runs and new threads start enabled.
pub proof fn lemma_enabled_means_running(steps: Seq<Step>)
    requires
        Model::initial().admits_run(steps),
    ensures
        Model::initial().run(steps).state == State::Enabled ==> Model::initial().run(
            steps,
        ).thread_running && Model::initial().run(steps).enabled_for_new_threads,
{
    lemma_run_keeps_wf(Model::initial(), steps);
}

/// In every state that a run from the initial state ends in: if the state is
/// `Enabled`, every thread that the registry holds and that is not the
/// worker is enabled, unless it holds a strong handle.
pub proof fn lemma_enabled_means_threads_enabled(steps: Seq<Step>, i: int)
    requires
        Model::initial().admits_run(steps),
        0 <= i < Model::initial().run(steps).records.len(),
    ensures
        ({
            let end = Model::initial().run(steps);
            end.state == State::Enabled && end.records[i].registered && !end.records[i].is_internal
                && end.records[i].strong_handles == 0 ==> end.records[i].enabled
        }),
{
    lemma_run_keeps_wf(Model::initial(), steps);
    let end = Model::initial().run(steps);
    if end.state == State::Enabled && end.records[i].is_traced() {
    }
}

/// In every state that a run from the initial state ends in, no two records
/// have the same dense id.
pub proof fn lemma_internal_tids_are_unique(steps: Seq<Step>, i: int, j: int)
    requires
        Model::initial().admits_run(steps),
        0 <= i < Model::initial().run(steps).records.len(),
        0 <= j < Model::initial().run(steps).records.len(),
        i != j,
    ensures
        Model::initial().run(steps).records[i].internal_thread_id != Model::initial().run(
            steps,
        ).records[j].internal_thread_id,
{
    lemma_run_keeps_wf(Model::initial(), steps);
}

/// Replacing a record by one of the same identity and allocation counter
/// keeps the counters.
proof fn lemma_with_record_keeps_counters(pre: Model, handle: RawThreadHandle, record: ThreadData)
    requires
        pre.has_record(handle),
        record.thread_id == pre.record(handle).thread_id,
        record.internal_thread_id == pre.record(handle).internal_thread_id,
        record.allocation_counter == pre.record(handle).allocation_counter,
    ensures
        pre.keeps_counters(pre.with_record(handle, record)),
{
}

/// A change that keeps the number of records, and each one's identity and
/// allocation counter, keeps the counters.
proof fn lemma_pointwise_keeps_counters(pre: Model, post: Model)
    requires
        post.records.len() == pre.records.len(),
        forall|i: int|
            0 <= i < pre.records.len() ==> {
                &&& (#[trigger] post.records[i]).internal_thread_id
                    == pre.records[i].internal_thread_id
                &&& post.records[i].thread_id == pre.records[i].thread_id
                &&& post.records[i].allocation_counter == pre.records[i].allocation_counter
            },
    ensures
        pre.keeps_counters(post),
{
}

/// Keeping the counters carries over from step to step.
proof fn lemma_keeps_counters_is_transitive(first: Model, second: Model, third: Model)
    requires
        first.keeps_counters(second),
        second.keeps_counters(third),
    ensures
        first.keeps_counters(third),
{
    assert forall|i: int| 0 <= i < first.records.len() implies {
        &&& (#[trigger] third.records[i]).internal_thread_id == first.records[i].internal_thread_id
        &&& third.records[i].thread_id == first.records[i].thread_id
        &&& third.records[i].allocation_counter == first.records[i].allocation_counter
    } by {
        assert(second.records[i].internal_thread_id == first.records[i].internal_thread_id);
    }
    assert forall|i: int| first.records.len() <= i < third.records.len() implies (
    #[trigger] third.records[i]).allocation_counter == 1 by {
        if i < second.records.len() {
            assert(second.records[i].allocation_counter == 1);
        }
    }
}

/// The thread-local initializer keeps the counters.
proof fn lemma_register_keeps_counters(pre: Model, thread_id: u32)
    ensures
        pre.keeps_counters(pre.register(thread_id).0),
{
}

/// Access to a thread-local slot keeps the counters.
proof fn lemma_tls_with_keeps_counters(pre: Model, tls: Tls, thread_id: u32)
    ensures
        pre.keeps_counters(pre.tls_with(tls, thread_id).0),
{
    if tls is Uninitialized {
        lemma_register_keeps_counters(pre, thread_id);
    }
}

/// The fast path of acquisition keeps the counters.
proof fn lemma_acquire_fast_keeps_counters(pre: Model, handle: RawThreadHandle)
    requires
        pre.has_record(handle),
    ensures
        pre.keeps_counters(pre.acquire_fast(handle).0),
{
    let record = pre.record(handle);
    if record.refcount() < THROTTLE_LIMIT && record.enabled {
        lemma_with_record_keeps_counters(
            pre,
            handle,
            record.with_enabled(false).with_strong_handles((record.strong_handles + 1) as usize),
        );
    }
}

/// The acquisition proper keeps the counters.
proof fn lemma_acquire_handle_keeps_counters(pre: Model, tls: Tls, thread_id: u32)
    requires
        pre.wf(),
        pre.has_tls(tls),
        tls is Uninitialized ==> pre.has_room(),
    ensures
        pre.keeps_counters(pre.acquire_handle(tls, thread_id).0),
{
    match tls {
        Tls::Uninitialized => {
            if pre.allocation_lock is None {
                lemma_register_keeps_wf(pre, thread_id);
                lemma_register_keeps_counters(pre, thread_id);
                let (registered, handle) = pre.register(thread_id);
                lemma_acquire_fast_keeps_counters(registered, handle);
                lemma_keeps_counters_is_transitive(
                    pre,
                    registered,
                    registered.acquire_fast(handle).0,
                );
            }
        },
        Tls::Alive(handle) => {
            lemma_acquire_fast_keeps_counters(pre, handle);
        },
        Tls::Destroyed => {
            if pre.allocation_lock is None {
                lemma_lookup_has_record(pre, thread_id);
                if let Some(i) = pre.lookup(thread_id) {
                    let record = pre.records[i];
                    if record.strong_handles + record.weak_handles < usize::MAX
                        - THROTTLE_LIMIT {
                        lemma_with_record_keeps_counters(
                            pre,
                            record.handle(),
                            record.with_strong_handles((record.strong_handles + 1) as usize),
                        );
                    }
                }
            }
        },
    }
}

/// An intercepted call's request for a strong handle keeps the counters.
proof fn lemma_acquire_keeps_counters(pre: Model, tls: Tls, thread_id: u32, event: StartupEvent)
    requires
        pre.wf(),
        pre.has_tls(tls),
        tls is Uninitialized ==> pre.has_room(),
    ensures
        pre.keeps_counters(pre.acquire(tls, thread_id, event).0),
{
    if pre.state == State::Enabled {
        lemma_acquire_handle_keeps_counters(pre, tls, thread_id);
    } else {
        let (next, action) = pre.try_enable(event);
        lemma_try_enable_keeps_wf(pre, event);
        lemma_pointwise_keeps_counters(pre, next);
        if action == StartupAction::Done {
            assert(next.has_tls(tls)) by {
                if let Tls::Alive(handle) = tls {
                    assert(next.records[handle.internal_thread_id - 1].thread_id
                        == pre.records[handle.internal_thread_id - 1].thread_id);
                }
            }
            lemma_acquire_handle_keeps_counters(next, tls, thread_id);
            lemma_keeps_counters_is_transitive(pre, next, next.acquire_handle(tls, thread_id).0);
        }
    }
}

/// The worker's entry keeps the counters.
proof fn lemma_processing_thread_started_keeps_counters(pre: Model, tls: Tls, thread_id: u32)
    requires
        pre.wf(),
        pre.has_tls(tls),
        tls is Uninitialized ==> pre.allocation_lock is None && pre.has_room(),
    ensures
        pre.keeps_counters(pre.processing_thread_started(tls, thread_id).0),
{
    if !(pre.state == State::PermanentlyDisabled || pre.startup != StartupPhase::Spawning
        || pre.thread_running) {
        lemma_tls_with_keeps_wf(pre, tls, thread_id);
        lemma_tls_with_keeps_counters(pre, tls, thread_id);
        let (next, slot, handle) = pre.tls_with(tls, thread_id);
        if let Some(handle) = handle {
            let marked = next.with_record(
                handle,
                next.record(handle).with_internal(true).with_throttle(0),
            );
            let post = Model { thread_running: true, ..marked };
            lemma_with_record_keeps_counters(
                next,
                handle,
                next.record(handle).with_internal(true).with_throttle(0),
            );
            lemma_pointwise_keeps_counters(marked, post);
            lemma_keeps_counters_is_transitive(next, marked, post);
            lemma_keeps_counters_is_transitive(pre, next, post);
        } else {
            lemma_pointwise_keeps_counters(next, Model { thread_running: true, ..next });
            lemma_keeps_counters_is_transitive(pre, next, Model { thread_running: true, ..next });
        }
    }
}

/// The fork hook keeps the counters.
proof fn lemma_on_fork_keeps_counters(pre: Model, tls: Tls, thread_id: u32)
    requires
        pre.wf(),
        pre.has_tls(tls),
        tls is Uninitialized ==> pre.has_room(),
    ensures
        pre.keeps_counters(pre.on_fork(tls, thread_id).0),
{
    let base = pre.forked(thread_id);
    lemma_retained_is_wf(pre, thread_id);
    lemma_pointwise_keeps_counters(pre, base);
    lemma_tls_with_keeps_wf(base, tls, thread_id);
    lemma_tls_with_keeps_counters(base, tls, thread_id);
    let (next, slot, handle) = base.tls_with(tls, thread_id);
    lemma_keeps_counters_is_transitive(pre, base, next);
    if let Some(handle) = handle {
        let post = next.with_record(handle, next.record(handle).with_enabled(false));
        lemma_with_record_keeps_counters(next, handle, next.record(handle).with_enabled(false));
        lemma_keeps_counters_is_transitive(pre, next, post);
    }
}

/// Every step but the recording of an allocation leaves every record's
/// allocation counter as it is, and a record that it adds starts at 1.
pub proof fn lemma_step_keeps_counters(pre: Model, step: Step)
    requires
        pre.wf(),
        pre.admits(step),
        !(step is OnNewAllocation),
    ensures
        pre.keeps_counters(pre.step(step)),
{
    match step {
        Step::Toggle => lemma_pointwise_keeps_counters(pre, pre.toggle()),
        Step::Enable => lemma_pointwise_keeps_counters(pre, pre.enable().0),
        Step::Disable => lemma_pointwise_keeps_counters(pre, pre.disable().0),
        Step::TryEnable(event) => lemma_pointwise_keeps_counters(pre, pre.try_enable(event).0),
        Step::TryDisableIfRequested => lemma_pointwise_keeps_counters(
            pre,
            pre.try_disable_if_requested().0,
        ),
        Step::OnExit => lemma_pointwise_keeps_counters(pre, pre.on_exit().0),
        Step::ProcessingThreadStarted { tls, thread_id } => {
            lemma_processing_thread_started_keeps_counters(pre, tls, thread_id)
        },
        Step::ProcessingThreadFinished { panicked } => lemma_pointwise_keeps_counters(
            pre,
            pre.processing_thread_finished(panicked),
        ),
        Step::OnFork { tls, thread_id } => lemma_on_fork_keeps_counters(pre, tls, thread_id),
        Step::TlsWith { tls, thread_id } => lemma_tls_with_keeps_counters(pre, tls, thread_id),
        Step::ThreadExit { tls, now } => lemma_pointwise_keeps_counters(
            pre,
            pre.thread_exit(tls, now).0,
        ),
        Step::GarbageCollect { now } => lemma_pointwise_keeps_counters(
            pre,
            pre.garbage_collect_dead_threads(now),
        ),
        Step::Acquire { tls, thread_id, event } => lemma_acquire_keeps_counters(
            pre,
            tls,
            thread_id,
            event,
        ),
        Step::ReleaseStrong(handle) => lemma_with_record_keeps_counters(
            pre,
            handle,
            pre.release_strong(handle).record(handle),
        ),
        Step::Decay(handle) => lemma_with_record_keeps_counters(
            pre,
            handle,
            pre.decay(handle).record(handle),
        ),
        Step::ReleaseWeak(handle) => lemma_with_record_keeps_counters(
            pre,
            handle,
            pre.release_weak(handle).record(handle),
        ),
        Step::OnNewAllocation(handle) => {},
        Step::LockAllocations { thread_id } => lemma_pointwise_keeps_counters(
            pre,
            pre.lock_allocations(thread_id),
        ),
        Step::UnlockAllocations { holder } => lemma_pointwise_keeps_counters(
            pre,
            pre.unlock_allocations_of(holder),
        ),
    }
}

/// The recording of an allocation gives the id made of the thread's dense id
/// and its counter, raises that counter by exactly one, and leaves every
/// other record as it is: a thread's allocations are numbered without gaps.
pub proof fn lemma_allocation_counts_by_one(pre: Model, handle: RawThreadHandle)
    requires
        pre.wf(),
        pre.admits(Step::OnNewAllocation(handle)),
    ensures
        ({
            let (post, id) = pre.on_new_allocation(handle);
            &&& id.thread == handle.internal_thread_id
            &&& id.allocation == pre.record(handle).allocation_counter
            &&& post.record(handle).allocation_counter == pre.record(handle).allocation_counter + 1
            &&& post.records.len() == pre.records.len()
            &&& forall|i: int|
                0 <= i < pre.records.len() && i != handle.internal_thread_id - 1
                    ==> #[trigger] post.records[i] == pre.records[i]
        }),
{
    let i = handle.internal_thread_id - 1;
    assert(pre.records[i].internal_thread_id == i + 1);
}

/// No step takes a record away, changes a record's identity or lowers its
/// allocation counter.
pub proof fn lemma_step_grows(pre: Model, step: Step)
    requires
        pre.wf(),
        pre.admits(step),
    ensures
        pre.grows_to(pre.step(step)),
{
    if let Step::OnNewAllocation(handle) = step {
        lemma_allocation_counts_by_one(pre, handle);
    } else {
        lemma_step_keeps_counters(pre, step);
    }
}

/// Growth carries over from step to step.
pub proof fn lemma_grows_is_transitive(first: Model, second: Model, third: Model)
    requires
        first.grows_to(second),
        second.grows_to(third),
    ensures
        first.grows_to(third),
{
    assert forall|i: int| 0 <= i < first.records.len() implies {
        &&& (#[trigger] third.records[i]).internal_thread_id == first.records[i].internal_thread_id
        &&& third.records[i].thread_id == first.records[i].thread_id
        &&& third.records[i].allocation_counter >= first.records[i].allocation_counter
    } by {
        assert(second.records[i].internal_thread_id == first.records[i].internal_thread_id);
    }
}

/// A run only grows the state that it starts from.
pub proof fn lemma_run_grows(pre: Model, steps: Seq<Step>)
    requires
        pre.wf(),
        pre.admits_run(steps),
    ensures
        pre.grows_to(pre.run(steps)),
    decreases steps.len(),
{
    if steps.len() > 0 {
        let next = pre.step(steps[0]);
        lemma_step_keeps_wf(pre, steps[0]);
        lemma_step_grows(pre, steps[0]);
        lemma_run_grows(next, steps.subrange(1, steps.len() as int));
        lemma_grows_is_transitive(pre, next, next.run(steps.subrange(1, steps.len() as int)));
    }
}

/// Two allocations never get the same id: whatever run lies between the
/// recording of one allocation and the recording of another, by the same
/// thread or by different ones, the two ids differ.
pub proof fn lemma_allocation_ids_are_unique(
    pre: Model,
    first: RawThreadHandle,
    between: Seq<Step>,
    second: RawThreadHandle,
)
    requires
        pre.wf(),
        pre.admits(Step::OnNewAllocation(first)),
        pre.on_new_allocation(first).0.admits_run(between),
        pre.on_new_allocation(first).0.run(between).admits(Step::OnNewAllocation(second)),
    ensures
        pre.on_new_allocation(first).1 != pre.on_new_allocation(first).0.run(
            between,
        ).on_new_allocation(second).1,
{
    let (mid, a) = pre.on_new_allocation(first);
    lemma_on_new_allocation_keeps_wf(pre, first);
    lemma_run_grows(mid, between);
    lemma_run_keeps_wf(mid, between);
    let end = mid.run(between);
    let (_, b) = end.on_new_allocation(second);
    if a.thread == b.thread {
        let i = first.internal_thread_id - 1;
        let j = second.internal_thread_id - 1;
        assert(pre.records[i].internal_thread_id == i + 1);
        assert(end.records[j].internal_thread_id == j + 1);
        assert(i == j);
        assert(end.records[i].allocation_counter >= mid.records[i].allocation_counter);
    }
}

/// A fork child is permanently disabled and stays so, whatever is called.
pub proof fn lemma_permanently_disabled_is_absorbing(pre: Model, steps: Seq<Step>)
    requires
        pre.wf(),
        pre.state == State::PermanentlyDisabled,
        pre.admits_run(steps),
    ensures
        pre.run(steps).state == State::PermanentlyDisabled,
    decreases steps.len(),
{
    if steps.len() > 0 {
        let step = steps[0];
        lemma_step_keeps_wf(pre, step);
        match step {
            Step::ProcessingThreadStarted { tls, thread_id } => {},
            Step::OnFork { tls, thread_id } => {},
            Step::Acquire { tls, thread_id, event } => {},
            _ => {},
        }
        assert(pre.step(step).state == State::PermanentlyDisabled);
        lemma_permanently_disabled_is_absorbing(
            pre.step(step),
            steps.subrange(1, steps.len() as int),
        );
    }
}

/// After the fork hook the state is `PermanentlyDisabled` and the registry
/// holds at most one record, which is the calling thread's. If the thread's
/// slot has not been torn down, and held the thread's registered record if it
/// held one, the registry holds exactly that record, and it is disabled.
pub proof fn lemma_fork_leaves_one_thread(pre: Model, tls: Tls, thread_id: u32)
    requires
        pre.wf(),
        pre.admits(Step::OnFork { tls, thread_id }),
        tls matches Tls::Alive(handle) ==> pre.record(handle).registered && handle.thread_id
            == thread_id,
    ensures
        ({
            let (post, slot) = pre.on_fork(tls, thread_id);
            &&& post.state == State::PermanentlyDisabled
            &&& forall|i: int|
                0 <= i < post.records.len() && (#[trigger] post.records[i]).registered
                    ==> post.records[i].thread_id == thread_id
            &&& forall|i: int, j: int|
                #![trigger post.records[i], post.records[j]]
                0 <= i < post.records.len() && 0 <= j < post.records.len()
                    && post.records[i].registered && post.records[j].registered ==> i == j
            &&& slot matches Tls::Alive(handle) ==> post.has_record(handle) && post.record(
                handle,
            ).registered && !post.record(handle).enabled
            &&& !(tls is Destroyed) ==> slot is Alive
        }),
{
    let (post, slot) = pre.on_fork(tls, thread_id);
    lemma_on_fork_keeps_wf(pre, tls, thread_id);
    lemma_retained_is_wf(pre, thread_id);
    let base = pre.forked(thread_id);
    lemma_tls_with_keeps_wf(base, tls, thread_id);
    let (next, slot2, handle) = base.tls_with(tls, thread_id);
    assert forall|i: int|
        0 <= i < next.records.len() && (#[trigger] next.records[i]).registered
            implies next.records[i].thread_id == thread_id by {
        if i < base.records.len() {
            assert(base.records[i].registered ==> base.records[i].thread_id == thread_id);
        }
    }
    assert forall|i: int, j: int|
        #![trigger post.records[i], post.records[j]]
        0 <= i < post.records.len() && 0 <= j < post.records.len() && post.records[i].registered
            && post.records[j].registered implies i == j by {
        if i != j {
            assert(post.records[i].thread_id != post.records[j].thread_id);
            assert(next.records[i].registered && next.records[j].registered);
        }
    }
}

/// In a fork child the lifecycle entry points do nothing: the user's requests
/// are refused, the startup protocol refuses every event, no shutdown is begun,
/// the worker's entry and exit change nothing, and no strong handle is given.
pub proof fn lemma_permanently_disabled_entry_points_do_nothing(
    pre: Model,
    event: StartupEvent,
    tls: Tls,
    thread_id: u32,
    panicked: bool,
)
    requires
        pre.state == State::PermanentlyDisabled,
    ensures
        pre.toggle() == pre,
        pre.enable() == (pre, false),
        pre.disable() == (pre, false),
        pre.try_enable(event) == (pre, StartupAction::Refuse),
        pre.try_disable_if_requested() == (pre, false),
        pre.on_exit() == (pre, false),
        pre.processing_thread_started(tls, thread_id) == (pre, tls, false),
        pre.processing_thread_finished(panicked) == pre,
        pre.acquire(tls, thread_id, event) == (pre, tls, Acquired::Nothing),
{
}

/// When the allocation lock is dropped right after it was taken, every
/// record is as it was before.
pub proof fn lemma_allocation_lock_round_trip(pre: Model, thread_id: u32)
    requires
        pre.wf(),
        pre.allocation_lock is None,
    ensures
        pre.lock_allocations(thread_id).unlock_allocations_of(thread_id) == pre,
{
    let post = pre.lock_allocations(thread_id).unlock_allocations_of(thread_id);
    assert forall|i: int| 0 <= i < pre.records.len() implies post.records[i]
        == pre.records[i] by {
        assert(pre.records[i].throttle == pre.lock_delta(pre.records[i]));
    }
    assert(post.records =~= pre.records);
}

/// Taking the allocation lock raises the refcount of every traced thread
/// other than the holder by `THROTTLE_LIMIT` and no other; dropping the lock,
/// after whatever the handles did in between, lowers each refcount by what
/// the lock had put on it, so that the lock leaves nothing behind.
pub proof fn lemma_allocation_lock_leaves_nothing(locked: Model, i: int)
    requires
        locked.wf(),
        locked.allocation_lock is Some,
        0 <= i < locked.records.len(),
    ensures
        locked.records[i].throttle == locked.lock_delta(locked.records[i]),
        locked.unlock_allocations().records[i].refcount() == locked.records[i].refcount()
            - locked.lock_delta(locked.records[i]),
        locked.unlock_allocations().records[i].throttle == 0,
        locked.unlock_allocations().records[i].strong_handles
            == locked.records[i].strong_handles,
        locked.unlock_allocations().records[i].weak_handles == locked.records[i].weak_handles,
{
}

/// While the allocation lock is held, a thread that it has parked gets no
/// strong handle through its slot, and once the barrier is reached no parked
/// thread holds one.
pub proof fn lemma_parked_thread_gets_no_handle(locked: Model, handle: RawThreadHandle)
    requires
        locked.wf(),
        locked.has_record(handle),
        locked.lock_delta(locked.record(handle)) == THROTTLE_LIMIT,
    ensures
        locked.acquire_fast(handle) == (locked, Acquired::Blocked),
        locked.is_quiescent() ==> locked.record(handle).strong_handles == 0 && locked.record(
            handle,
        ).weak_handles == 0,
{
    let i = handle.internal_thread_id - 1;
    assert(locked.records[i].throttle == locked.lock_delta(locked.records[i]));
}

/// A thread that has got a strong handle through its slot gets no second one:
/// the next request through the same slot, whatever event it brings, gives
/// none and changes nothing.
pub proof fn lemma_no_second_strong_handle(
    pre: Model,
    tls: Tls,
    thread_id: u32,
    event: StartupEvent,
    next_event: StartupEvent,
)
    requires
        pre.wf(),
        pre.admits(Step::Acquire { tls, thread_id, event }),
        !(tls is Destroyed),
        pre.acquire(tls, thread_id, event).2 is Handle,
    ensures
        ({
            let (held, slot, first) = pre.acquire(tls, thread_id, event);
            let (after, _, second) = held.acquire(slot, thread_id, next_event);
            !(second is Handle) && after == held
        }),
{
    lemma_acquire_keeps_wf(pre, tls, thread_id, event);
    let started = if pre.state == State::Enabled {
        pre
    } else {
        pre.try_enable(event).0
    };
    lemma_try_enable_keeps_wf(pre, event);
    assert(started.state == State::Enabled);
    assert(pre.acquire(tls, thread_id, event) == started.acquire_handle(tls, thread_id));
    if tls is Uninitialized {
        lemma_register_keeps_wf(started, thread_id);
    }
    let (held, slot, first) = started.acquire_handle(tls, thread_id);
    assert(held.state == State::Enabled);
}

/// As long as a thread's record is disabled, the thread gets no strong handle
/// through its slot.
pub proof fn lemma_disabled_thread_gets_no_handle(pre: Model, handle: RawThreadHandle)
    requires
        pre.has_record(handle),
        !pre.record(handle).enabled,
    ensures
        !(pre.acquire_fast(handle).1 is Handle),
        pre.acquire_fast(handle).0 == pre,
{
}

/// A record that is disabled stays so under every step but three: the drop or
/// the decay of a strong handle to it, and the step of the startup protocol
/// that enables every traced thread, whether it is taken for itself or by an
/// intercepted call.
pub proof fn lemma_disabled_thread_stays_disabled(pre: Model, step: Step, handle: RawThreadHandle)
    requires
        pre.wf(),
        pre.admits(step),
        pre.has_record(handle),
        !pre.record(handle).enabled,
        !(step matches Step::ReleaseStrong(other) && other.internal_thread_id
            == handle.internal_thread_id),
        !(step matches Step::Decay(other) && other.internal_thread_id
            == handle.internal_thread_id),
        !(step matches Step::TryEnable(event) && event == StartupEvent::WorkerRunning),
        !(step matches Step::Acquire { event, .. } && event == StartupEvent::WorkerRunning),
    ensures
        pre.step(step).has_record(handle),
        !pre.step(step).record(handle).enabled,
{
    lemma_step_grows(pre, step);
    let post = pre.step(step);
    let i = handle.internal_thread_id - 1;
    assert(post.records[i].thread_id == pre.records[i].thread_id);
    match step {
        Step::ProcessingThreadStarted { tls, thread_id } => {
            lemma_tls_with_keeps_wf(pre, tls, thread_id);
        },
        Step::OnFork { tls, thread_id } => {
            lemma_retained_is_wf(pre, thread_id);
            lemma_tls_with_keeps_wf(pre.forked(thread_id), tls, thread_id);
        },
        Step::Acquire { tls, thread_id, event } => {
            let started = if pre.state == State::Enabled {
                pre
            } else {
                pre.try_enable(event).0
            };
            lemma_try_enable_keeps_wf(pre, event);
            assert(started.has_record(handle) && !started.record(handle).enabled);
            if started.state == State::Enabled {
                match tls {
                    Tls::Uninitialized => {
                        if started.allocation_lock is None {
                            lemma_register_keeps_wf(started, thread_id);
                        }
                    },
                    Tls::Alive(own) => {},
                    Tls::Destroyed => {
                        if started.allocation_lock is None {
                            lemma_lookup_has_record(started, thread_id);
                        }
                    },
                }
            }
        },
        _ => {},
    }
}

/// The collector takes a record out of the registry only if an entry of the
/// dead thread queue names that very record and the thread's death lies more
/// than the grace period before `now`; and it takes out every registered
/// record that one of the entries that it lets go names.
pub proof fn lemma_eviction_needs_expired_entry(pre: Model, now: Timestamp, i: int)
    requires
        pre.wf(),
        0 <= i < pre.records.len(),
    ensures
        ({
            let post = pre.garbage_collect_dead_threads(now);
            pre.records[i].registered && !post.records[i].registered <==> pre.records[i].registered
                && exists|k: int|
                0 <= k < pre.expired_count(now) && (
                #[trigger] pre.dead_thread_queue[k]).thread.internal_thread_id
                    == pre.records[i].internal_thread_id && is_expired(
                    pre.dead_thread_queue[k].time_of_death,
                    now,
                )
        }),
        pre.garbage_collect_dead_threads(now).records[i] == pre.records[i]
            || pre.garbage_collect_dead_threads(now).records[i] == pre.records[i].with_registered(
            false,
        ),
{
    let post = pre.garbage_collect_dead_threads(now);
    let count = pre.expired_count(now) as int;
    lemma_expired_count_bound(pre.dead_thread_queue, now, 0);
    assert(pre.records[i].internal_thread_id == i + 1);
    if pre.is_named_dead(i, count) {
        let k = choose|k: int|
            0 <= k < count && (#[trigger] pre.dead_thread_queue[k]).thread.internal_thread_id == i
                + 1;
        assert(is_expired(pre.dead_thread_queue[k].time_of_death, now));
    }
}

/// An intercepted call in a process in which nothing has run and tracing is
/// not asked for starts nothing: the first request has the one-shot startup
/// run and leaves the state `Disabled`, and the request that follows is
/// refused. Neither looks at the caller's slot, so no record is made.
pub proof fn lemma_call_without_request_starts_nothing(pre: Model, tls: Tls, thread_id: u32)
    requires
        pre.state == State::Uninitialized,
        pre.desired_state == DesiredState::Disabled,
    ensures
        ({
            let (first, slot, outcome) = pre.acquire(tls, thread_id, StartupEvent::Attempt);
            let (second, last_slot, last) = first.acquire(slot, thread_id, StartupEvent::Attempt);
            &&& outcome == Acquired::Startup(StartupAction::RunStartup)
            &&& first == Model { state: State::Disabled, ..pre }
            &&& slot == tls
            &&& last == Acquired::Nothing
            &&& second == first
            &&& last_slot == tls
        }),
{
}

/// The state after an intercepted call of thread `thread_id` has run the
/// startup protocol from `pre` to its end, the worker being a new thread with
/// the system id `worker_id`; with it the caller's slot and what the call got.
pub open spec fn lazily_started(
    pre: Model,
    tls: Tls,
    thread_id: u32,
    worker_id: u32,
    register_frame: Option<usize>,
    deregister_frame: Option<usize>,
) -> (Model, Tls, Acquired) {
    let asked = pre.acquire(tls, thread_id, StartupEvent::Attempt).0;
    let spawned = asked.processing_thread_started(Tls::Uninitialized, worker_id).0;
    let swept = spawned.acquire(tls, thread_id, StartupEvent::WorkerRunning).0;
    let resolved = swept.acquire(
        tls,
        thread_id,
        StartupEvent::SymbolsResolved { register_frame, deregister_frame },
    ).0;
    resolved.acquire(tls, thread_id, StartupEvent::AllocatorPatched)
}

/// Lazy enable: where tracing is asked for and off, an intercepted call runs
/// the startup protocol through its requests for a handle. Each request but
/// the last hands the next action to the caller and leaves the caller's slot
/// alone. The last one turns tracing on: the state is `Enabled`, the worker
/// runs, new threads start enabled, and every traced thread is enabled but
/// the caller, which has got its handle in the same call if this was its
/// first intercepted call.
pub proof fn lemma_lazy_start(
    pre: Model,
    tls: Tls,
    thread_id: u32,
    worker_id: u32,
    register_frame: Option<usize>,
    deregister_frame: Option<usize>,
)
    requires
        pre.wf(),
        pre.state == State::Disabled,
        pre.desired_state != DesiredState::Disabled,
        pre.allocation_lock is None,
        pre.has_tls(tls),
        pre.records.len() + 2 < usize::MAX,
    ensures
        ({
            let (asked, slot1, action1) = pre.acquire(tls, thread_id, StartupEvent::Attempt);
            let (spawned, worker, expected) = asked.processing_thread_started(
                Tls::Uninitialized,
                worker_id,
            );
            let (swept, slot2, action2) = spawned.acquire(
                tls,
                thread_id,
                StartupEvent::WorkerRunning,
            );
            let (resolved, slot3, action3) = swept.acquire(
                tls,
                thread_id,
                StartupEvent::SymbolsResolved { register_frame, deregister_frame },
            );
            &&& action1 == Acquired::Startup(StartupAction::SpawnWorker)
            &&& asked.state == State::Starting
            &&& expected
            &&& action2 == Acquired::Startup(StartupAction::ResolveSymbols)
            &&& action3 == Acquired::Startup(StartupAction::PatchAllocator)
            &&& slot1 == tls && slot2 == tls && slot3 == tls
        }),
        ({
            let (started, slot, outcome) = lazily_started(
                pre,
                tls,
                thread_id,
                worker_id,
                register_frame,
                deregister_frame,
            );
            &&& started.wf()
            &&& started.state == State::Enabled
            &&& started.thread_running
            &&& started.enabled_for_new_threads
            &&& tls is Uninitialized ==> outcome is Handle
            &&& forall|i: int|
                0 <= i < started.records.len() && (#[trigger] started.records[i]).is_traced()
                    && !(outcome matches Acquired::Handle(handle) && handle.internal_thread_id
                    == i + 1) ==> started.records[i].enabled
        }),
{
    let asked = pre.acquire(tls, thread_id, StartupEvent::Attempt).0;
    lemma_acquire_keeps_wf(pre, tls, thread_id, StartupEvent::Attempt);
    assert(asked == Model { state: State::Starting, startup: StartupPhase::Spawning, ..pre });
    assert(asked.has_room());

    let (spawned, worker, expected) = asked.processing_thread_started(
        Tls::Uninitialized,
        worker_id,
    );
    lemma_processing_thread_started_keeps_wf(asked, Tls::Uninitialized, worker_id);
    lemma_register_keeps_wf(asked, worker_id);
    assert(expected && spawned.thread_running && spawned.allocation_lock is None);
    assert(spawned.startup == StartupPhase::Spawning && spawned.state == State::Starting);
    assert(spawned.records.len() == pre.records.len() + 1);
    assert(spawned.has_tls(tls)) by {
        if let Tls::Alive(handle) = tls {
            assert(spawned.records[handle.internal_thread_id - 1].thread_id
                == pre.records[handle.internal_thread_id - 1].thread_id);
        }
    }

    let swept = spawned.acquire(tls, thread_id, StartupEvent::WorkerRunning).0;
    lemma_acquire_keeps_wf(spawned, tls, thread_id, StartupEvent::WorkerRunning);
    assert(swept.records == spawned.swept(true));
    assert(swept.startup == StartupPhase::Resolving && swept.state == State::Starting);

    let event = StartupEvent::SymbolsResolved { register_frame, deregister_frame };
    let resolved = swept.acquire(tls, thread_id, event).0;
    lemma_acquire_keeps_wf(swept, tls, thread_id, event);
    assert(resolved.records == swept.records);
    assert(resolved.startup == StartupPhase::Patching && resolved.state == State::Starting);
    assert(resolved.has_tls(tls)) by {
        if let Tls::Alive(handle) = tls {
            assert(resolved.records[handle.internal_thread_id - 1].thread_id
                == spawned.records[handle.internal_thread_id - 1].thread_id);
        }
    }

    let on = Model { state: State::Enabled, startup: StartupPhase::Idle, ..resolved };
    assert(resolved.try_enable(StartupEvent::AllocatorPatched) == (on, StartupAction::Done));
    lemma_try_enable_keeps_wf(resolved, StartupEvent::AllocatorPatched);
    assert(on.has_tls(tls));
    assert(on.has_room());
    assert forall|i: int| 0 <= i < on.records.len() && (#[trigger] on.records[i]).is_traced()
        implies on.records[i].enabled by {
        assert(on.records[i] == spawned.swept(true)[i]);
    }
    let (started, slot, outcome) = on.acquire_handle(tls, thread_id);
    assert(lazily_started(pre, tls, thread_id, worker_id, register_frame, deregister_frame) == (
        started,
        slot,
        outcome,
    ));
    lemma_acquire_handle_keeps_wf(on, tls, thread_id);
    lemma_lazily_acquired(on, tls, thread_id);
}

/// Where every traced thread is enabled and the registry is free, the
/// acquisition proper leaves every traced thread enabled but the one that it
/// gives a handle to, and a thread's first intercepted call gets its handle.
proof fn lemma_lazily_acquired(on: Model, tls: Tls, thread_id: u32)
    requires
        on.wf(),
        on.state == State::Enabled,
        on.allocation_lock is None,
        on.has_tls(tls),
        tls is Uninitialized ==> on.has_room(),
        forall|i: int|
            0 <= i < on.records.len() && (#[trigger] on.records[i]).is_traced()
                ==> on.records[i].enabled,
    ensures
        ({
            let (started, slot, outcome) = on.acquire_handle(tls, thread_id);
            &&& started.state == State::Enabled
            &&& started.thread_running
            &&& started.enabled_for_new_threads
            &&& tls is Uninitialized ==> outcome is Handle
            &&& forall|i: int|
                0 <= i < started.records.len() && (#[trigger] started.records[i]).is_traced()
                    && !(outcome matches Acquired::Handle(handle) && handle.internal_thread_id
                    == i + 1) ==> started.records[i].enabled
        }),
{
    let (started, slot, outcome) = on.acquire_handle(tls, thread_id);
    match tls {
        Tls::Uninitialized => {
            lemma_register_keeps_wf(on, thread_id);
            let (registered, handle) = on.register(thread_id);
            assert(registered.record(handle).enabled);
            assert(registered.record(handle).throttle == 0);
            assert forall|i: int|
                0 <= i < registered.records.len() && (#[trigger] registered.records[i]).is_traced()
                    implies registered.records[i].enabled by {
                if i < on.records.len() {
                    assert(on.records[i].is_traced());
                }
            }
            assert forall|i: int|
                0 <= i < started.records.len() && (#[trigger] started.records[i]).is_traced()
                    && !(outcome matches Acquired::Handle(h) && h.internal_thread_id == i + 1)
                    implies started.records[i].enabled by {
                assert(registered.records[i].is_traced());
            }
        },
        Tls::Alive(handle) => {
            assert forall|i: int|
                0 <= i < started.records.len() && (#[trigger] started.records[i]).is_traced()
                    && !(outcome matches Acquired::Handle(h) && h.internal_thread_id == i + 1)
                    implies started.records[i].enabled by {
                assert(on.records[i].is_traced());
            }
        },
        Tls::Destroyed => {
            lemma_lookup_has_record(on, thread_id);
            assert forall|i: int|
                0 <= i < started.records.len() && (#[trigger] started.records[i]).is_traced()
                    && !(outcome matches Acquired::Handle(h) && h.internal_thread_id == i + 1)
                    implies started.records[i].enabled by {
                assert(on.records[i].is_traced());
            }
        },
    }
}

} // verus!
