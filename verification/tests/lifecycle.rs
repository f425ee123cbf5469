use preload::global::{
    disable, enable, exit_wait_continues, is_actively_running, is_busy, on_exit, toggle, try_disable_if_requested,
    try_enable, try_sync_processing_thread_destruction, Global, EXIT_POLL_LIMIT,
};
use preload::handle::ThreadLocal;
use preload::hooks::{on_fork, processing_thread_finished, processing_thread_started};
use preload::state::{DesiredState, StartupAction, StartupEvent, StartupPhase, State};

fn symbols(register_frame: usize, deregister_frame: usize) -> StartupEvent {
    StartupEvent::SymbolsResolved {
        register_frame: Some(register_frame),
        deregister_frame: Some(deregister_frame),
    }
}

/// Runs the whole startup protocol from a state in which tracing is asked for.
fn start(global: &mut Global, worker: &mut ThreadLocal, worker_tid: u32) {
    assert_eq!(try_enable(global, StartupEvent::Attempt), StartupAction::SpawnWorker);
    assert!(processing_thread_started(global, worker, worker_tid));
    assert_eq!(try_enable(global, StartupEvent::WorkerRunning), StartupAction::ResolveSymbols);
    assert_eq!(try_enable(global, symbols(0x1000, 0x2000)), StartupAction::PatchAllocator);
    assert_eq!(try_enable(global, StartupEvent::AllocatorPatched), StartupAction::Done);
}

#[test]
fn a_new_process_is_uninitialized_and_idle() {
    let global = Global::new();
    assert_eq!(global.state(), State::Uninitialized);
    assert_eq!(global.desired_state(), DesiredState::Disabled);
    assert!(!global.is_thread_running());
    assert!(!global.enabled_for_new_threads());
    assert_eq!(global.startup_phase(), StartupPhase::Idle);
    assert_eq!(global.thread_counter(), 1);
    assert!(!global.is_registry_locked());
    assert_eq!(global.frame_registration(), (None, None));
    assert!(!is_busy(&global));
    assert!(!is_actively_running(&global));
}

#[test]
fn toggle_rotates_and_never_enters_disabled() {
    let mut global = Global::new();
    toggle(&mut global);
    assert_eq!(global.desired_state(), DesiredState::Enabled);
    toggle(&mut global);
    assert_eq!(global.desired_state(), DesiredState::Suspended);
    toggle(&mut global);
    assert_eq!(global.desired_state(), DesiredState::Enabled);
    toggle(&mut global);
    assert_eq!(global.desired_state(), DesiredState::Suspended);
}

#[test]
fn enable_tells_whether_it_changed_anything() {
    let mut global = Global::new();
    assert!(enable(&mut global));
    assert_eq!(global.desired_state(), DesiredState::Enabled);
    assert!(is_actively_running(&global));
    assert!(!enable(&mut global));
    assert_eq!(global.desired_state(), DesiredState::Enabled);
}

#[test]
fn disable_suspends_and_tells_whether_tracing_was_asked_for() {
    let mut global = Global::new();
    assert!(!disable(&mut global));
    assert_eq!(global.desired_state(), DesiredState::Suspended);
    assert!(enable(&mut global));
    assert!(disable(&mut global));
    assert_eq!(global.desired_state(), DesiredState::Suspended);
    assert!(!is_actively_running(&global));
    assert!(!disable(&mut global));
}

#[test]
fn lazy_enable_goes_through_every_state() {
    let mut global = Global::new();
    let mut worker = ThreadLocal::new();
    assert!(enable(&mut global));

    assert_eq!(try_enable(&mut global, StartupEvent::Attempt), StartupAction::RunStartup);
    assert_eq!(global.state(), State::Disabled);

    assert_eq!(try_enable(&mut global, StartupEvent::Attempt), StartupAction::SpawnWorker);
    assert_eq!(global.state(), State::Starting);
    assert_eq!(global.startup_phase(), StartupPhase::Spawning);
    assert!(is_busy(&global));

    // The worker has not reported yet: the caller keeps waiting.
    assert_eq!(try_enable(&mut global, StartupEvent::WorkerRunning), StartupAction::Wait);
    assert!(!global.enabled_for_new_threads());

    assert!(processing_thread_started(&mut global, &mut worker, 900));
    assert!(global.is_thread_running());
    assert_eq!(try_enable(&mut global, StartupEvent::WorkerRunning), StartupAction::ResolveSymbols);
    assert!(global.enabled_for_new_threads());
    assert_eq!(global.state(), State::Starting);

    assert_eq!(try_enable(&mut global, symbols(0x1000, 0x2000)), StartupAction::PatchAllocator);
    assert_eq!(global.frame_registration(), (Some(0x1000), Some(0x2000)));
    assert_eq!(global.state(), State::Starting);

    assert_eq!(try_enable(&mut global, StartupEvent::AllocatorPatched), StartupAction::Done);
    assert_eq!(global.state(), State::Enabled);
    assert_eq!(global.startup_phase(), StartupPhase::Idle);
    assert!(global.is_thread_running());
    assert!(global.enabled_for_new_threads());
    assert!(!is_busy(&global));
}

#[test]
fn startup_is_refused_until_tracing_is_asked_for() {
    let mut global = Global::new();
    assert_eq!(try_enable(&mut global, StartupEvent::Attempt), StartupAction::RunStartup);
    assert_eq!(try_enable(&mut global, StartupEvent::Attempt), StartupAction::Refuse);
    assert_eq!(global.state(), State::Disabled);
    toggle(&mut global);
    assert_eq!(try_enable(&mut global, StartupEvent::Attempt), StartupAction::SpawnWorker);
}

#[test]
fn a_second_caller_loses_while_the_first_is_starting() {
    let mut global = Global::new();
    let mut worker = ThreadLocal::new();
    enable(&mut global);
    try_enable(&mut global, StartupEvent::Attempt);
    assert_eq!(try_enable(&mut global, StartupEvent::Attempt), StartupAction::SpawnWorker);
    assert_eq!(try_enable(&mut global, StartupEvent::Attempt), StartupAction::Refuse);
    assert_eq!(global.state(), State::Starting);
    assert!(processing_thread_started(&mut global, &mut worker, 900));
    // A second worker is not expected.
    let mut stray = ThreadLocal::new();
    assert!(!processing_thread_started(&mut global, &mut stray, 901));
    assert_eq!(stray.handle(), None);
}

#[test]
fn events_out_of_order_are_refused() {
    let mut global = Global::new();
    enable(&mut global);
    try_enable(&mut global, StartupEvent::Attempt);
    assert_eq!(try_enable(&mut global, StartupEvent::WorkerRunning), StartupAction::Refuse);
    assert_eq!(try_enable(&mut global, symbols(1, 2)), StartupAction::Refuse);
    assert_eq!(try_enable(&mut global, StartupEvent::AllocatorPatched), StartupAction::Refuse);
    assert_eq!(global.state(), State::Disabled);
    assert_eq!(global.frame_registration(), (None, None));
}

#[test]
fn frame_hooks_are_stored_only_if_both_were_found() {
    for (register_frame, deregister_frame) in [(None, Some(2usize)), (Some(1usize), None), (None, None)] {
        let mut global = Global::new();
        let mut worker = ThreadLocal::new();
        enable(&mut global);
        try_enable(&mut global, StartupEvent::Attempt);
        try_enable(&mut global, StartupEvent::Attempt);
        processing_thread_started(&mut global, &mut worker, 900);
        try_enable(&mut global, StartupEvent::WorkerRunning);
        let event = StartupEvent::SymbolsResolved { register_frame, deregister_frame };
        assert_eq!(try_enable(&mut global, event), StartupAction::PatchAllocator);
        assert_eq!(global.frame_registration(), (None, None));
        assert_eq!(try_enable(&mut global, StartupEvent::AllocatorPatched), StartupAction::Done);
        assert_eq!(global.state(), State::Enabled);
    }
}

#[test]
fn toggle_round_trip_sends_exactly_one_exit() {
    let mut global = Global::new();
    let mut worker = ThreadLocal::new();
    let mut exits = 0;
    enable(&mut global);
    try_enable(&mut global, StartupEvent::Attempt);
    start(&mut global, &mut worker, 900);

    // Suspending does not stop the worker: only shutdown does.
    toggle(&mut global);
    assert_eq!(global.desired_state(), DesiredState::Suspended);
    if try_disable_if_requested(&mut global) {
        exits += 1;
    }
    assert_eq!(global.state(), State::Enabled);
    assert_eq!(exits, 0);

    if on_exit(&mut global) {
        exits += 1;
    }
    assert_eq!(global.desired_state(), DesiredState::Disabled);
    assert!(is_busy(&global));
    assert!(try_disable_if_requested(&mut global));
    assert_eq!(global.state(), State::Stopping);
    assert!(!try_disable_if_requested(&mut global));
    assert!(is_busy(&global));

    processing_thread_finished(&mut global, false);
    assert_eq!(global.state(), State::Disabled);
    assert!(!global.is_thread_running());
    assert!(!global.enabled_for_new_threads());
    assert!(!is_busy(&global));
    assert_eq!(exits, 1);

    toggle(&mut global);
    assert_eq!(global.desired_state(), DesiredState::Enabled);
    let mut second_worker = ThreadLocal::new();
    start(&mut global, &mut second_worker, 901);
    assert_eq!(global.state(), State::Enabled);
    assert!(global.is_thread_running());
}

#[test]
fn a_panic_in_the_worker_asks_for_shutdown() {
    let mut global = Global::new();
    let mut worker = ThreadLocal::new();
    enable(&mut global);
    try_enable(&mut global, StartupEvent::Attempt);
    start(&mut global, &mut worker, 900);
    processing_thread_finished(&mut global, true);
    assert_eq!(global.desired_state(), DesiredState::Disabled);
    assert_eq!(global.state(), State::Disabled);
    assert!(!global.is_thread_running());
}

#[test]
fn a_worker_that_ends_during_startup_ends_the_startup() {
    let mut global = Global::new();
    let mut worker = ThreadLocal::new();
    enable(&mut global);
    try_enable(&mut global, StartupEvent::Attempt);
    try_enable(&mut global, StartupEvent::Attempt);
    processing_thread_started(&mut global, &mut worker, 900);
    try_enable(&mut global, StartupEvent::WorkerRunning);
    processing_thread_finished(&mut global, false);
    assert_eq!(global.state(), State::Disabled);
    assert_eq!(global.startup_phase(), StartupPhase::Idle);
    assert_eq!(try_enable(&mut global, symbols(1, 2)), StartupAction::Refuse);
    assert_eq!(try_enable(&mut global, StartupEvent::AllocatorPatched), StartupAction::Refuse);
    assert_eq!(global.state(), State::Disabled);
}

#[test]
fn the_join_handle_is_taken_only_when_stopping_or_disabled() {
    let mut global = Global::new();
    let mut worker = ThreadLocal::new();
    let mut slot = Some(7u32);
    assert_eq!(try_sync_processing_thread_destruction(&global, &mut slot), None);
    assert_eq!(slot, Some(7));

    enable(&mut global);
    try_enable(&mut global, StartupEvent::Attempt);
    assert_eq!(global.state(), State::Disabled);
    assert_eq!(try_sync_processing_thread_destruction(&global, &mut slot), Some(7));
    assert_eq!(slot, None);
    assert_eq!(try_sync_processing_thread_destruction(&global, &mut slot), None);

    slot = Some(8);
    start(&mut global, &mut worker, 900);
    assert_eq!(try_sync_processing_thread_destruction(&global, &mut slot), None);
    assert_eq!(slot, Some(8));
    on_exit(&mut global);
    try_disable_if_requested(&mut global);
    assert_eq!(global.state(), State::Stopping);
    assert_eq!(try_sync_processing_thread_destruction(&global, &mut slot), Some(8));
    assert_eq!(slot, None);
}

#[test]
fn the_exit_hook_waits_at_most_two_thousand_times() {
    let mut global = Global::new();
    let mut worker = ThreadLocal::new();
    assert_eq!(EXIT_POLL_LIMIT, 2000);
    assert!(!exit_wait_continues(&global, 0));
    enable(&mut global);
    try_enable(&mut global, StartupEvent::Attempt);
    start(&mut global, &mut worker, 900);
    assert!(on_exit(&mut global));
    assert!(exit_wait_continues(&global, 0));
    assert!(exit_wait_continues(&global, 1999));
    assert!(!exit_wait_continues(&global, 2000));
    processing_thread_finished(&mut global, false);
    assert!(!exit_wait_continues(&global, 5));
}

#[test]
fn busy_while_shutdown_is_asked_for_and_the_worker_still_enabled() {
    let mut global = Global::new();
    let mut worker = ThreadLocal::new();
    enable(&mut global);
    try_enable(&mut global, StartupEvent::Attempt);
    start(&mut global, &mut worker, 900);
    assert!(!is_busy(&global));
    disable(&mut global);
    assert!(!is_busy(&global));
    on_exit(&mut global);
    assert_eq!(global.state(), State::Enabled);
    assert!(is_busy(&global));
}

#[test]
fn fork_disables_everything_for_good() {
    let mut global = Global::new();
    let mut worker = ThreadLocal::new();
    let mut tls = ThreadLocal::new();
    enable(&mut global);
    try_enable(&mut global, StartupEvent::Attempt);
    start(&mut global, &mut worker, 900);

    on_fork(&mut global, &mut tls, 42);
    assert_eq!(global.state(), State::PermanentlyDisabled);
    assert_eq!(global.desired_state(), DesiredState::Disabled);
    assert!(!global.is_thread_running());
    assert!(!global.enabled_for_new_threads());

    toggle(&mut global);
    assert_eq!(global.desired_state(), DesiredState::Disabled);
    assert!(!enable(&mut global));
    assert!(!disable(&mut global));
    assert_eq!(global.desired_state(), DesiredState::Disabled);
    assert!(!on_exit(&mut global));
    assert!(!try_disable_if_requested(&mut global));
    for event in [
        StartupEvent::Attempt,
        StartupEvent::WorkerRunning,
        symbols(1, 2),
        StartupEvent::AllocatorPatched,
    ] {
        assert_eq!(try_enable(&mut global, event), StartupAction::Refuse);
    }
    let mut stray = ThreadLocal::new();
    assert!(!processing_thread_started(&mut global, &mut stray, 901));
    assert!(processing_thread_finished(&mut global, true).is_empty());
    assert_eq!(global.state(), State::PermanentlyDisabled);
}
