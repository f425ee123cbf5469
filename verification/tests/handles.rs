use preload::allocation_lock::AllocationLock;
use preload::global::{enable, on_exit, try_disable_if_requested, try_enable, Global};
use preload::handle::{Acquire, StrongThreadHandle, ThreadLocal};
use preload::hooks::{
    garbage_collect_dead_threads, has_expired, on_fork, processing_thread_finished, processing_thread_started,
};
use preload::state::{DesiredState, StartupAction, StartupEvent, StartupPhase, State};
use preload::thread::{InternalAllocationId, RawThreadHandle, ThreadData, Timestamp, THROTTLE_LIMIT};

/// A process in which tracing is on and the worker is thread 900.
fn enabled() -> (Global, ThreadLocal) {
    let mut global = Global::new();
    let mut worker = ThreadLocal::new();
    enable(&mut global);
    assert_eq!(try_enable(&mut global, StartupEvent::Attempt), StartupAction::RunStartup);
    assert_eq!(try_enable(&mut global, StartupEvent::Attempt), StartupAction::SpawnWorker);
    assert!(processing_thread_started(&mut global, &mut worker, 900));
    assert_eq!(try_enable(&mut global, StartupEvent::WorkerRunning), StartupAction::ResolveSymbols);
    let found = StartupEvent::SymbolsResolved { register_frame: None, deregister_frame: None };
    assert_eq!(try_enable(&mut global, found), StartupAction::PatchAllocator);
    assert_eq!(try_enable(&mut global, StartupEvent::AllocatorPatched), StartupAction::Done);
    (global, worker)
}

fn acquire(global: &mut Global, tls: &mut ThreadLocal, tid: u32) -> StrongThreadHandle {
    match StrongThreadHandle::acquire(global, tls, tid, StartupEvent::Attempt) {
        Acquire::Handle(handle) => handle,
        Acquire::Nothing => panic!("no handle"),
        Acquire::Blocked => panic!("blocked"),
        Acquire::Startup(action) => panic!("tracing is not on: {:?}", action),
    }
}

fn record(global: &Global, tls: &ThreadLocal) -> ThreadData {
    global.thread_data(tls.handle().unwrap()).unwrap()
}

/// What an intercepted call does with an action of the startup protocol,
/// the worker being thread 900: the event to ask again with.
fn perform(global: &mut Global, worker: &mut ThreadLocal, action: StartupAction, event: StartupEvent) -> StartupEvent {
    match action {
        StartupAction::Wait => event,
        StartupAction::RunStartup => StartupEvent::Attempt,
        StartupAction::SpawnWorker => {
            assert!(processing_thread_started(global, worker, 900));
            StartupEvent::WorkerRunning
        }
        StartupAction::ResolveSymbols => {
            StartupEvent::SymbolsResolved { register_frame: Some(0x10), deregister_frame: Some(0x20) }
        }
        StartupAction::PatchAllocator => StartupEvent::AllocatorPatched,
        StartupAction::Refuse | StartupAction::Done => panic!("not an action for the caller"),
    }
}

/// An intercepted call: asks until it is told whether it has a handle, and
/// does what it is told in between. With it the actions that it was told.
fn intercepted_call(
    global: &mut Global,
    tls: &mut ThreadLocal,
    tid: u32,
    worker: &mut ThreadLocal,
) -> (Option<StrongThreadHandle>, Vec<StartupAction>) {
    let mut event = StartupEvent::Attempt;
    let mut actions = vec![];
    loop {
        match StrongThreadHandle::acquire(global, tls, tid, event) {
            Acquire::Handle(handle) => return (Some(handle), actions),
            Acquire::Nothing => return (None, actions),
            Acquire::Blocked => panic!("blocked"),
            Acquire::Startup(action) => {
                actions.push(action);
                event = perform(global, worker, action, event);
            }
        }
    }
}

#[test]
fn a_call_in_a_new_process_runs_startup_and_starts_nothing() {
    let mut global = Global::new();
    let mut tls = ThreadLocal::new();
    let first = StrongThreadHandle::acquire(&mut global, &mut tls, 1, StartupEvent::Attempt);
    assert!(matches!(first, Acquire::Startup(StartupAction::RunStartup)));
    assert_eq!(global.state(), State::Disabled);
    let second = StrongThreadHandle::acquire(&mut global, &mut tls, 1, StartupEvent::Attempt);
    assert!(matches!(second, Acquire::Nothing));
    assert_eq!(global.state(), State::Disabled);
    assert_eq!(global.desired_state(), DesiredState::Disabled);
    assert!(!global.is_thread_running());
    assert!(!global.enabled_for_new_threads());
    // The state was looked at before the slot: the thread has no record.
    assert_eq!(tls.handle(), None);
    assert_eq!(global.thread_counter(), 1);
    assert!(global.registry().records().is_empty());
}

#[test]
fn the_whole_call_in_a_new_process_gets_no_handle() {
    let mut global = Global::new();
    let mut tls = ThreadLocal::new();
    let mut worker = ThreadLocal::new();
    let (handle, actions) = intercepted_call(&mut global, &mut tls, 1, &mut worker);
    assert!(handle.is_none());
    assert_eq!(actions, vec![StartupAction::RunStartup]);
    assert_eq!(global.state(), State::Disabled);
    assert_eq!(worker.handle(), None);
    assert_eq!(global.thread_counter(), 1);
}

#[test]
fn the_first_call_after_enable_starts_the_profiler() {
    let mut global = Global::new();
    let mut early = ThreadLocal::new();
    early.with(&mut global, 5);
    assert!(enable(&mut global));

    let mut tls = ThreadLocal::new();
    let mut worker = ThreadLocal::new();
    let (handle, actions) = intercepted_call(&mut global, &mut tls, 7, &mut worker);
    assert_eq!(
        actions,
        vec![
            StartupAction::RunStartup,
            StartupAction::SpawnWorker,
            StartupAction::ResolveSymbols,
            StartupAction::PatchAllocator,
        ]
    );
    let handle = handle.expect("the call that turns tracing on gets its handle");
    assert_eq!(global.state(), State::Enabled);
    assert_eq!(global.startup_phase(), StartupPhase::Idle);
    assert!(global.is_thread_running());
    assert!(global.enabled_for_new_threads());
    assert_eq!(global.frame_registration(), (Some(0x10), Some(0x20)));
    // The worker is record 2, made when it entered its body; the caller is record 3.
    assert_eq!(worker.handle(), Some(RawThreadHandle { thread_id: 900, internal_thread_id: 2 }));
    assert_eq!(handle.thread(), RawThreadHandle { thread_id: 7, internal_thread_id: 3 });
    // Every thread but the worker and the caller is enabled.
    assert!(record(&global, &early).is_enabled());
    assert!(!record(&global, &worker).is_enabled());
    assert!(!record(&global, &tls).is_enabled());
    handle.release(&mut global);
    assert!(record(&global, &tls).is_enabled());
}

#[test]
fn each_step_of_the_startup_leaves_the_caller_s_slot_alone() {
    let mut global = Global::new();
    let mut tls = ThreadLocal::new();
    let mut worker = ThreadLocal::new();
    enable(&mut global);
    let mut event = StartupEvent::Attempt;
    for expected in [
        (StartupAction::RunStartup, State::Disabled),
        (StartupAction::SpawnWorker, State::Starting),
        (StartupAction::ResolveSymbols, State::Starting),
        (StartupAction::PatchAllocator, State::Starting),
    ] {
        match StrongThreadHandle::acquire(&mut global, &mut tls, 7, event) {
            Acquire::Startup(action) => {
                assert_eq!((action, global.state()), expected);
                assert_eq!(tls.handle(), None);
                event = perform(&mut global, &mut worker, action, event);
            }
            _ => panic!("the startup is not over"),
        }
    }
    assert!(matches!(StrongThreadHandle::acquire(&mut global, &mut tls, 7, event), Acquire::Handle(_)));
}

#[test]
fn a_call_waits_for_the_worker_to_report() {
    let mut global = Global::new();
    let mut tls = ThreadLocal::new();
    enable(&mut global);
    StrongThreadHandle::acquire(&mut global, &mut tls, 7, StartupEvent::Attempt);
    let spawn = StrongThreadHandle::acquire(&mut global, &mut tls, 7, StartupEvent::Attempt);
    assert!(matches!(spawn, Acquire::Startup(StartupAction::SpawnWorker)));
    for _ in 0..3 {
        let wait = StrongThreadHandle::acquire(&mut global, &mut tls, 7, StartupEvent::WorkerRunning);
        assert!(matches!(wait, Acquire::Startup(StartupAction::Wait)));
        assert!(!global.enabled_for_new_threads());
    }
    // A call of another thread meanwhile is refused: the first one is starting.
    let mut other = ThreadLocal::new();
    let lost = StrongThreadHandle::acquire(&mut global, &mut other, 8, StartupEvent::Attempt);
    assert!(matches!(lost, Acquire::Nothing));
    assert_eq!(other.handle(), None);
}

#[test]
fn a_call_after_a_pause_starts_the_profiler_again() {
    let (mut global, _worker) = enabled();
    let mut tls = ThreadLocal::new();
    acquire(&mut global, &mut tls, 7).release(&mut global);
    on_exit(&mut global);
    assert!(try_disable_if_requested(&mut global));
    processing_thread_finished(&mut global, false);
    let mut second_worker = ThreadLocal::new();
    let (none, actions) = intercepted_call(&mut global, &mut tls, 7, &mut second_worker);
    assert!(none.is_none() && actions.is_empty());

    assert!(enable(&mut global));
    // Thread 900 has died meanwhile; the new worker is another thread.
    let (handle, actions) = intercepted_call(&mut global, &mut tls, 7, &mut second_worker);
    assert_eq!(
        actions,
        vec![StartupAction::SpawnWorker, StartupAction::ResolveSymbols, StartupAction::PatchAllocator]
    );
    assert_eq!(global.state(), State::Enabled);
    assert_eq!(handle.unwrap().thread(), RawThreadHandle { thread_id: 7, internal_thread_id: 2 });
}

#[test]
fn once_tracing_is_on_the_event_plays_no_part() {
    let (mut global, _worker) = enabled();
    let mut tls = ThreadLocal::new();
    for event in [StartupEvent::WorkerRunning, StartupEvent::AllocatorPatched, StartupEvent::Attempt] {
        match StrongThreadHandle::acquire(&mut global, &mut tls, 7, event) {
            Acquire::Handle(handle) => handle.release(&mut global),
            _ => panic!("no handle"),
        }
        assert_eq!(global.state(), State::Enabled);
    }
    assert_eq!(global.thread_counter(), 3);
}

#[test]
fn the_first_call_of_a_thread_makes_its_record() {
    let (mut global, worker) = enabled();
    assert_eq!(worker.handle(), Some(RawThreadHandle { thread_id: 900, internal_thread_id: 1 }));
    let mut tls = ThreadLocal::new();
    let handle = acquire(&mut global, &mut tls, 7);
    assert_eq!(handle.thread(), RawThreadHandle { thread_id: 7, internal_thread_id: 2 });
    assert_eq!(tls.handle(), Some(handle.thread()));
    assert_eq!(global.thread_counter(), 3);
    assert_eq!(global.find(7), Some(handle.thread()));
    let data = record(&global, &tls);
    assert_eq!(data.thread_id, 7);
    assert_eq!(data.internal_thread_id, 2);
    assert!(!data.is_internal());
    assert_eq!(data.allocation_counter, 1);
    assert_eq!(data.strong_handles, 1);
    assert!(data.registered);
    handle.release(&mut global);
}

#[test]
fn the_worker_is_internal_and_never_traced() {
    let (mut global, mut worker) = enabled();
    let data = record(&global, &worker);
    assert!(data.is_internal());
    assert!(!data.is_enabled());
    assert!(matches!(StrongThreadHandle::acquire(&mut global, &mut worker, 900, StartupEvent::Attempt), Acquire::Nothing));
}

#[test]
fn a_held_handle_keeps_the_thread_disabled() {
    let (mut global, _worker) = enabled();
    let mut tls = ThreadLocal::new();
    let handle = acquire(&mut global, &mut tls, 7);
    assert!(!record(&global, &tls).is_enabled());
    // An allocation made from inside the profiler is passed through.
    assert!(matches!(StrongThreadHandle::acquire(&mut global, &mut tls, 7, StartupEvent::Attempt), Acquire::Nothing));
    assert!(matches!(StrongThreadHandle::acquire(&mut global, &mut tls, 7, StartupEvent::Attempt), Acquire::Nothing));
    assert_eq!(record(&global, &tls).strong_handles, 1);
    handle.release(&mut global);
    assert!(record(&global, &tls).is_enabled());
    assert_eq!(record(&global, &tls).strong_handles, 0);
    let again = acquire(&mut global, &mut tls, 7);
    again.release(&mut global);
}

#[test]
fn decay_keeps_the_identity_and_re_enables_the_thread() {
    let (mut global, _worker) = enabled();
    let mut tls = ThreadLocal::new();
    let handle = acquire(&mut global, &mut tls, 7);
    let weak = handle.decay(&mut global);
    assert_eq!(weak.system_tid(), 7);
    assert_eq!(weak.unique_tid(), 2);
    let data = record(&global, &tls);
    assert!(data.is_enabled());
    assert_eq!((data.strong_handles, data.weak_handles), (0, 1));
    // The thread can go on allocating while the weak handle is in flight.
    let next = acquire(&mut global, &mut tls, 7);
    assert_eq!(record(&global, &tls).strong_handles, 1);
    weak.release(&mut global);
    assert_eq!(record(&global, &tls).weak_handles, 0);
    next.release(&mut global);
}

#[test]
fn allocation_ids_count_up_per_thread() {
    let (mut global, _worker) = enabled();
    let mut a = ThreadLocal::new();
    let mut b = ThreadLocal::new();
    let mut ha = acquire(&mut global, &mut a, 7);
    let mut hb = acquire(&mut global, &mut b, 8);
    let mut seen = vec![];
    seen.push(ha.on_new_allocation(&mut global));
    seen.push(hb.on_new_allocation(&mut global));
    seen.push(ha.on_new_allocation(&mut global));
    ha.release(&mut global);
    let mut ha = acquire(&mut global, &mut a, 7);
    seen.push(ha.on_new_allocation(&mut global));
    seen.push(hb.on_new_allocation(&mut global));
    assert_eq!(
        seen,
        vec![
            InternalAllocationId::new(2, 1),
            InternalAllocationId::new(3, 1),
            InternalAllocationId::new(2, 2),
            InternalAllocationId::new(2, 3),
            InternalAllocationId::new(3, 2),
        ]
    );
    for (i, x) in seen.iter().enumerate() {
        for y in &seen[i + 1..] {
            assert_ne!(x, y);
        }
    }
    ha.release(&mut global);
    hb.release(&mut global);
}

#[test]
fn internal_ids_are_dense_and_never_reused() {
    let (mut global, _worker) = enabled();
    let mut ids = vec![];
    for round in 0..3u64 {
        // The same system thread id, taken by one thread after the other.
        let mut tls = ThreadLocal::new();
        let handle = acquire(&mut global, &mut tls, 7);
        ids.push(handle.thread().internal_thread_id);
        handle.release(&mut global);
        tls.destroy(&mut global, Timestamp::from_secs(round));
    }
    assert_eq!(ids, vec![2, 3, 4]);
    assert_eq!(global.thread_counter(), 5);
    let threads = global.registry().records();
    for (index, data) in threads.iter().enumerate() {
        assert_eq!(data.internal_thread_id, index as u64 + 1);
    }
    // Only the last of them is the registry's record for the id.
    assert_eq!(global.find(7), Some(RawThreadHandle { thread_id: 7, internal_thread_id: 4 }));
    assert_eq!(threads.iter().filter(|data| data.registered && data.thread_id == 7).count(), 1);
}

#[test]
fn new_threads_start_as_the_registry_says() {
    let mut global = Global::new();
    let mut early = ThreadLocal::new();
    assert_eq!(early.with(&mut global, 5), Some(RawThreadHandle { thread_id: 5, internal_thread_id: 1 }));
    assert!(!record(&global, &early).is_enabled());
    // A second access makes no second record.
    assert_eq!(early.with(&mut global, 5), Some(RawThreadHandle { thread_id: 5, internal_thread_id: 1 }));
    assert_eq!(global.thread_counter(), 2);

    enable(&mut global);
    try_enable(&mut global, StartupEvent::Attempt);
    try_enable(&mut global, StartupEvent::Attempt);
    let mut worker = ThreadLocal::new();
    processing_thread_started(&mut global, &mut worker, 900);
    assert!(!record(&global, &early).is_enabled());
    try_enable(&mut global, StartupEvent::WorkerRunning);
    // Every known thread but the worker is enabled now, and new ones start enabled.
    assert!(record(&global, &early).is_enabled());
    assert!(!record(&global, &worker).is_enabled());
    let mut late = ThreadLocal::new();
    late.with(&mut global, 6);
    assert!(record(&global, &late).is_enabled());
}

#[test]
fn the_worker_s_exit_disables_every_traced_thread() {
    let (mut global, worker) = enabled();
    let mut a = ThreadLocal::new();
    let mut b = ThreadLocal::new();
    acquire(&mut global, &mut a, 7).release(&mut global);
    acquire(&mut global, &mut b, 8).release(&mut global);
    on_exit(&mut global);
    assert!(try_disable_if_requested(&mut global));
    let disabled = processing_thread_finished(&mut global, false);
    assert_eq!(
        disabled,
        vec![
            RawThreadHandle { thread_id: 7, internal_thread_id: 2 },
            RawThreadHandle { thread_id: 8, internal_thread_id: 3 },
        ]
    );
    assert!(!record(&global, &a).is_enabled());
    assert!(!record(&global, &b).is_enabled());
    assert!(record(&global, &worker).is_internal());
    assert_eq!(global.state(), State::Disabled);
    assert!(matches!(StrongThreadHandle::acquire(&mut global, &mut a, 7, StartupEvent::Attempt), Acquire::Nothing));
}

#[test]
fn a_thread_in_teardown_still_finds_its_record() {
    let (mut global, _worker) = enabled();
    let mut tls = ThreadLocal::new();
    acquire(&mut global, &mut tls, 7).release(&mut global);
    tls.destroy(&mut global, Timestamp::from_secs(10));
    assert_eq!(tls.handle(), None);
    // The slot is gone, the registry's record is not.
    let late = acquire(&mut global, &mut tls, 7);
    assert_eq!(late.thread(), RawThreadHandle { thread_id: 7, internal_thread_id: 2 });
    late.release(&mut global);
    // A thread that never had a record has none to find.
    let mut stranger = ThreadLocal::new();
    stranger.destroy(&mut global, Timestamp::from_secs(10));
    assert!(matches!(StrongThreadHandle::acquire(&mut global, &mut stranger, 99, StartupEvent::Attempt), Acquire::Nothing));
}

#[test]
fn the_grace_period_is_three_seconds() {
    let death = Timestamp::from_secs(1);
    assert_eq!(death.as_secs(), 1);
    assert!(!has_expired(death, Timestamp::from_secs(0)));
    assert!(!has_expired(death, Timestamp::from_secs(3)));
    assert!(!has_expired(death, Timestamp::from_secs(4)));
    assert!(has_expired(death, Timestamp::from_secs(5)));
    assert!(!has_expired(Timestamp::from_secs(u64::MAX), Timestamp::from_secs(u64::MAX)));
    assert!(has_expired(Timestamp::from_secs(u64::MAX - 4), Timestamp::from_secs(u64::MAX)));
}

#[test]
fn dead_threads_are_collected_after_the_grace_period() {
    let (mut global, _worker) = enabled();
    let mut tls = ThreadLocal::new();
    acquire(&mut global, &mut tls, 7).release(&mut global);
    let dead = RawThreadHandle { thread_id: 7, internal_thread_id: 2 };
    tls.destroy(&mut global, Timestamp::from_secs(1));

    garbage_collect_dead_threads(&mut global, Timestamp::from_secs(3));
    assert_eq!(global.find(7), Some(dead));
    garbage_collect_dead_threads(&mut global, Timestamp::from_secs(5));
    assert_eq!(global.find(7), None);
    assert!(!global.thread_data(dead).unwrap().registered);
    // Collecting again finds nothing to do.
    garbage_collect_dead_threads(&mut global, Timestamp::from_secs(100));
    assert_eq!(global.find(7), None);
}

#[test]
fn a_new_thread_with_a_dead_thread_s_id_is_not_collected() {
    let (mut global, _worker) = enabled();
    let mut old = ThreadLocal::new();
    acquire(&mut global, &mut old, 7).release(&mut global);
    old.destroy(&mut global, Timestamp::from_secs(1));

    let mut new = ThreadLocal::new();
    let handle = acquire(&mut global, &mut new, 7);
    let survivor = handle.thread();
    handle.release(&mut global);
    assert_eq!(survivor, RawThreadHandle { thread_id: 7, internal_thread_id: 3 });

    garbage_collect_dead_threads(&mut global, Timestamp::from_secs(5));
    assert_eq!(global.find(7), Some(survivor));
    assert!(global.thread_data(survivor).unwrap().registered);
}

#[test]
fn only_the_expired_head_of_the_queue_is_collected() {
    let (mut global, _worker) = enabled();
    let mut a = ThreadLocal::new();
    let mut b = ThreadLocal::new();
    let mut c = ThreadLocal::new();
    acquire(&mut global, &mut a, 7).release(&mut global);
    acquire(&mut global, &mut b, 8).release(&mut global);
    acquire(&mut global, &mut c, 9).release(&mut global);
    a.destroy(&mut global, Timestamp::from_secs(1));
    b.destroy(&mut global, Timestamp::from_secs(50));
    c.destroy(&mut global, Timestamp::from_secs(2));
    // The second entry has not expired, so the third is not reached.
    garbage_collect_dead_threads(&mut global, Timestamp::from_secs(10));
    assert_eq!(global.find(7), None);
    assert!(global.find(8).is_some());
    assert!(global.find(9).is_some());
    garbage_collect_dead_threads(&mut global, Timestamp::from_secs(54));
    assert_eq!(global.find(8), None);
    assert_eq!(global.find(9), None);
}

#[test]
fn fork_keeps_only_the_calling_thread() {
    let (mut global, _worker) = enabled();
    let mut a = ThreadLocal::new();
    let mut b = ThreadLocal::new();
    acquire(&mut global, &mut a, 7).release(&mut global);
    acquire(&mut global, &mut b, 8).release(&mut global);
    on_fork(&mut global, &mut a, 7);
    assert_eq!(global.state(), State::PermanentlyDisabled);
    let registered: Vec<u32> =
        global.registry().records().iter().filter(|data| data.registered).map(|data| data.thread_id).collect();
    assert_eq!(registered, vec![7]);
    assert!(!record(&global, &a).is_enabled());
    assert!(matches!(StrongThreadHandle::acquire(&mut global, &mut a, 7, StartupEvent::Attempt), Acquire::Nothing));
}

#[test]
fn fork_in_a_thread_without_a_record_makes_one() {
    let (mut global, _worker) = enabled();
    let mut other = ThreadLocal::new();
    acquire(&mut global, &mut other, 8).release(&mut global);
    let mut tls = ThreadLocal::new();
    on_fork(&mut global, &mut tls, 7);
    let registered: Vec<u32> =
        global.registry().records().iter().filter(|data| data.registered).map(|data| data.thread_id).collect();
    assert_eq!(registered, vec![7]);
    assert!(!record(&global, &tls).is_enabled());
}

#[test]
fn fork_forces_the_registry_lock_open() {
    let (mut global, _worker) = enabled();
    let mut a = ThreadLocal::new();
    let mut b = ThreadLocal::new();
    acquire(&mut global, &mut a, 7).release(&mut global);
    acquire(&mut global, &mut b, 8).release(&mut global);
    let held = acquire(&mut global, &mut a, 7);
    let orphan = AllocationLock::new(&mut global, 8);
    assert!(global.is_registry_locked());
    assert_eq!(record(&global, &a).throttle, THROTTLE_LIMIT);
    assert!(!orphan.is_quiescent(&global));
    on_fork(&mut global, &mut a, 7);
    assert!(!global.is_registry_locked());
    assert_eq!(record(&global, &a).throttle, 0);
    // The lock is nobody's now: its holder has nothing to wait for, and
    // dropping it changes nothing, even under a lock that was taken since.
    assert!(orphan.is_quiescent(&global));
    let later = AllocationLock::new(&mut global, 7);
    let before: Vec<ThreadData> = global.registry().records().clone();
    orphan.release(&mut global);
    assert!(global.is_registry_locked());
    assert_eq!(&before, global.registry().records());
    later.release(&mut global);
    assert!(!global.is_registry_locked());
    held.release(&mut global);
}

#[test]
fn the_lock_parks_every_other_traced_thread() {
    let (mut global, worker) = enabled();
    let mut a = ThreadLocal::new();
    let mut b = ThreadLocal::new();
    let mut d = ThreadLocal::new();
    acquire(&mut global, &mut a, 7).release(&mut global);
    let held = acquire(&mut global, &mut b, 8);
    acquire(&mut global, &mut d, 10).release(&mut global);
    assert_eq!(THROTTLE_LIMIT, 8192);

    let lock = AllocationLock::new(&mut global, 10);
    assert!(global.is_registry_locked());
    assert_eq!(record(&global, &a).throttle, 8192);
    assert_eq!(record(&global, &b).throttle, 8192);
    // Neither the holder nor the worker is parked.
    assert_eq!(record(&global, &d).throttle, 0);
    assert_eq!(record(&global, &worker).throttle, 0);

    // Thread 8 still holds a handle: the barrier is not reached.
    assert!(!lock.is_quiescent(&global));
    assert!(matches!(StrongThreadHandle::acquire(&mut global, &mut a, 7, StartupEvent::Attempt), Acquire::Blocked));
    held.release(&mut global);
    assert!(lock.is_quiescent(&global));
    assert!(matches!(StrongThreadHandle::acquire(&mut global, &mut a, 7, StartupEvent::Attempt), Acquire::Blocked));
    assert!(matches!(StrongThreadHandle::acquire(&mut global, &mut b, 8, StartupEvent::Attempt), Acquire::Blocked));
    assert!(lock.is_quiescent(&global));

    // The holder goes on under its own lock.
    let mut own = acquire(&mut global, &mut d, 10);
    assert_eq!(own.on_new_allocation(&mut global), InternalAllocationId::new(4, 1));
    own.release(&mut global);

    lock.release(&mut global);
    assert!(!global.is_registry_locked());
    for tls in [&a, &b, &d, &worker] {
        let data = record(&global, tls);
        assert_eq!((data.strong_handles, data.weak_handles, data.throttle), (0, 0, 0));
    }
    acquire(&mut global, &mut a, 7).release(&mut global);
}

#[test]
fn the_lock_leaves_every_refcount_as_it_found_it() {
    let (mut global, _worker) = enabled();
    let mut a = ThreadLocal::new();
    let mut b = ThreadLocal::new();
    let held = acquire(&mut global, &mut a, 7);
    let weak = acquire(&mut global, &mut b, 8).decay(&mut global);
    let before: Vec<ThreadData> = global.registry().records().clone();
    let lock = AllocationLock::new(&mut global, 1);
    assert_ne!(&before, global.registry().records());
    lock.release(&mut global);
    assert_eq!(&before, global.registry().records());
    held.release(&mut global);
    weak.release(&mut global);
}

#[test]
fn while_the_registry_is_locked_no_thread_appears() {
    let (mut global, _worker) = enabled();
    let lock = AllocationLock::new(&mut global, 1);
    let mut new = ThreadLocal::new();
    assert!(matches!(StrongThreadHandle::acquire(&mut global, &mut new, 7, StartupEvent::Attempt), Acquire::Blocked));
    assert_eq!(new.handle(), None);
    let mut gone = ThreadLocal::new();
    gone.destroy(&mut global_unlocked_copy(), Timestamp::from_secs(0));
    assert!(matches!(StrongThreadHandle::acquire(&mut global, &mut gone, 8, StartupEvent::Attempt), Acquire::Blocked));
    assert_eq!(global.thread_counter(), 2);
    lock.release(&mut global);
    acquire(&mut global, &mut new, 7).release(&mut global);
}

/// A process of its own, for tearing down a slot that never had a record.
fn global_unlocked_copy() -> Global {
    Global::new()
}

#[test]
fn startup_waits_for_the_registry() {
    let mut global = Global::new();
    enable(&mut global);
    try_enable(&mut global, StartupEvent::Attempt);
    let lock = AllocationLock::new(&mut global, 1);
    assert_eq!(try_enable(&mut global, StartupEvent::Attempt), StartupAction::Wait);
    assert_eq!(global.state(), State::Disabled);
    lock.release(&mut global);
    assert_eq!(try_enable(&mut global, StartupEvent::Attempt), StartupAction::SpawnWorker);
}

#[test]
fn the_table_maps_a_system_id_to_its_thread_s_record() {
    let (mut global, worker) = enabled();
    let mut a = ThreadLocal::new();
    let mut b = ThreadLocal::new();
    acquire(&mut global, &mut a, 7).release(&mut global);
    acquire(&mut global, &mut b, 8).release(&mut global);
    let table = global.registry().threads();
    assert_eq!(table.len(), 3);
    assert_eq!(table.get(&900), worker.handle().as_ref());
    assert_eq!(table.get(&7), Some(&RawThreadHandle { thread_id: 7, internal_thread_id: 2 }));
    assert_eq!(table.get(&8), Some(&RawThreadHandle { thread_id: 8, internal_thread_id: 3 }));
    assert_eq!(table.get(&9), None);
    for (tid, handle) in table {
        assert_eq!(global.find(*tid), Some(*handle));
        assert!(global.thread_data(*handle).unwrap().registered);
    }
}

#[test]
fn a_new_thread_takes_over_the_table_s_entry_for_its_id() {
    let (mut global, _worker) = enabled();
    let mut old = ThreadLocal::new();
    acquire(&mut global, &mut old, 7).release(&mut global);
    let first = old.handle().unwrap();
    old.destroy(&mut global, Timestamp::from_secs(1));
    let mut new = ThreadLocal::new();
    acquire(&mut global, &mut new, 7).release(&mut global);
    let second = new.handle().unwrap();
    assert_ne!(first, second);
    assert_eq!(global.registry().threads().len(), 2);
    assert_eq!(global.registry().threads().get(&7), Some(&second));
    // The first record is still there for whoever names it; the table has let go of it.
    assert!(!global.thread_data(first).unwrap().registered);
    assert!(global.thread_data(second).unwrap().registered);
}

#[test]
fn the_collector_takes_the_dead_out_of_the_table() {
    let (mut global, _worker) = enabled();
    let mut a = ThreadLocal::new();
    let mut b = ThreadLocal::new();
    acquire(&mut global, &mut a, 7).release(&mut global);
    acquire(&mut global, &mut b, 8).release(&mut global);
    a.destroy(&mut global, Timestamp::from_secs(1));
    assert_eq!(global.registry().threads().len(), 3);
    garbage_collect_dead_threads(&mut global, Timestamp::from_secs(4));
    assert_eq!(global.registry().threads().len(), 3);
    garbage_collect_dead_threads(&mut global, Timestamp::from_secs(5));
    let table = global.registry().threads();
    assert_eq!(table.len(), 2);
    assert!(!table.contains_key(&7));
    assert!(table.contains_key(&8) && table.contains_key(&900));
}

#[test]
fn after_a_fork_the_table_holds_the_caller_alone() {
    let (mut global, _worker) = enabled();
    let mut a = ThreadLocal::new();
    let mut b = ThreadLocal::new();
    acquire(&mut global, &mut a, 7).release(&mut global);
    acquire(&mut global, &mut b, 8).release(&mut global);
    on_fork(&mut global, &mut a, 7);
    let table = global.registry().threads();
    assert_eq!(table.len(), 1);
    assert_eq!(table.get(&7), a.handle().as_ref());

    // A caller whose slot is torn down and who has no record leaves the table empty.
    let (mut global, _worker) = enabled();
    let mut gone = ThreadLocal::new();
    gone.destroy(&mut global, Timestamp::from_secs(0));
    on_fork(&mut global, &mut gone, 7);
    assert!(global.registry().threads().is_empty());
}
