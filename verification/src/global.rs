//! The process state and the lifecycle state machine on it.

use vstd::prelude::*;
use std::collections::HashMap;
use crate::model::{DeadThread, Model};
use crate::state::{DesiredState, StartupAction, StartupEvent, StartupPhase, State};
use crate::thread::{RawThreadHandle, ThreadData};
use crate::preservation::{
    lemma_lookup_has_record, lemma_lookup_is_unique, lemma_register_keeps_wf,
    lemma_registry_untouched_keeps_wf, lemma_try_enable_keeps_wf,
};

verus! {

broadcast use vstd::std_specs::hash::group_hash_axioms;

/// How often the exit hook looks whether the worker has gone.
pub const EXIT_POLL_LIMIT: u32 = 2000;

/// How long the exit hook sleeps between two looks, in microseconds.
pub const EXIT_POLL_INTERVAL_MICROS: u32 = 25000;

/// The table of per-thread records.
///
/// `threads` maps the system id of a thread to the handle of its record.
/// The records themselves, which a handle, a slot or the queue of the dead may
/// name long after they have left the table, are kept in `records` in order of
/// creation, each marked with whether the table still holds it.
pub struct ThreadRegistry {
    pub(crate) enabled_for_new_threads: bool,
    pub(crate) threads: HashMap<u32, RawThreadHandle>,
    pub(crate) records: Vec<ThreadData>,
    pub(crate) dead_thread_queue: Vec<DeadThread>,
    pub(crate) allocation_lock: Option<u32>,
}

/// Everything that the control core keeps for one process.
pub struct Global {
    pub(crate) state: State,
    pub(crate) desired_state: DesiredState,
    pub(crate) thread_running: bool,
    pub(crate) startup: StartupPhase,
    pub(crate) registry: ThreadRegistry,
    pub(crate) sym_register_frame: Option<usize>,
    pub(crate) sym_deregister_frame: Option<usize>,
}

impl View for ThreadRegistry {
    type V = Seq<ThreadData>;

    /// Every record ever made, in order of creation.
    open(crate) spec fn view(&self) -> Seq<ThreadData> {
        self.records@
    }
}

impl ThreadRegistry {
    /// The table from system thread id to record, as a mathematical map.
    pub open(crate) spec fn table(&self) -> Map<u32, RawThreadHandle> {
        self.threads@
    }

    /// The table holds exactly the records that are marked as registered,
    /// each under its thread's system id.
    pub open spec fn table_wf(&self) -> bool {
        &&& forall|thread_id: u32| #[trigger]
            self.table().contains_key(thread_id) ==> {
                let handle = self.table()[thread_id];
                &&& handle.thread_id == thread_id
                &&& 1 <= handle.internal_thread_id <= self@.len()
                &&& self@[handle.internal_thread_id - 1].registered
                &&& self@[handle.internal_thread_id - 1].thread_id == thread_id
            }
        &&& forall|i: int|
            0 <= i < self@.len() && (#[trigger] self@[i]).registered ==> {
                &&& self.table().contains_key(self@[i].thread_id)
                &&& self.table()[self@[i].thread_id].internal_thread_id == i + 1
            }
    }

    /// The table from system thread id to the handle of the thread's record.
    pub fn threads(&self) -> (threads: &HashMap<u32, RawThreadHandle>)
        ensures
            threads@ == self.table(),
    {
        &self.threads
    }

    /// Every record ever made, in order of creation.
    pub fn records(&self) -> (records: &Vec<ThreadData>)
        ensures
            records@ == self@,
    {
        &self.records
    }
}

/// A change that leaves the table alone, and on each record its thread's
/// system id and whether it is registered, keeps the table in order.
pub(crate) proof fn lemma_table_kept(before: ThreadRegistry, after: ThreadRegistry)
    requires
        before.table_wf(),
        after.table() == before.table(),
        after@.len() == before@.len(),
        forall|i: int|
            0 <= i < before@.len() ==> (#[trigger] after@[i]).registered == before@[i].registered
                && after@[i].thread_id == before@[i].thread_id,
    ensures
        after.table_wf(),
{
    assert forall|thread_id: u32| #[trigger] after.table().contains_key(thread_id) implies {
        let handle = after.table()[thread_id];
        &&& handle.thread_id == thread_id
        &&& 1 <= handle.internal_thread_id <= after@.len()
        &&& after@[handle.internal_thread_id - 1].registered
        &&& after@[handle.internal_thread_id - 1].thread_id == thread_id
    } by {
        assert(before.table().contains_key(thread_id));
        let handle = before.table()[thread_id];
        assert(before@[handle.internal_thread_id - 1].registered);
    }
    assert forall|i: int| 0 <= i < after@.len() && (#[trigger] after@[i]).registered implies {
        &&& after.table().contains_key(after@[i].thread_id)
        &&& after.table()[after@[i].thread_id].internal_thread_id == i + 1
    } by {
        assert(before@[i].registered);
    }
}

impl View for Global {
    type V = Model;

    open(crate) spec fn view(&self) -> Model {
        Model {
            state: self.state,
            desired_state: self.desired_state,
            thread_running: self.thread_running,
            startup: self.startup,
            enabled_for_new_threads: self.registry.enabled_for_new_threads,
            records: self.registry.records@,
            dead_thread_queue: self.registry.dead_thread_queue@,
            allocation_lock: self.registry.allocation_lock,
            sym_register_frame: self.sym_register_frame,
            sym_deregister_frame: self.sym_deregister_frame,
        }
    }
}

impl Global {
    /// The invariant of the control core, which every operation keeps.
    pub open(crate) spec fn wf(&self) -> bool {
        self@.wf() && self.registry.table_wf()
    }

    /// The state of a process in which nothing has run.
    pub fn new() -> (global: Global)
        ensures
            global@ == Model::initial(),
            global.wf(),
    {
        Global {
            state: State::Uninitialized,
            desired_state: DesiredState::Disabled,
            thread_running: false,
            startup: StartupPhase::Idle,
            registry: ThreadRegistry {
                enabled_for_new_threads: false,
                threads: HashMap::new(),
                records: Vec::new(),
                dead_thread_queue: Vec::new(),
                allocation_lock: None,
            },
            sym_register_frame: None,
            sym_deregister_frame: None,
        }
    }

    pub fn state(&self) -> (state: State)
        ensures
            state == self@.state,
    {
        self.state
    }

    pub fn desired_state(&self) -> (desired: DesiredState)
        ensures
            desired == self@.desired_state,
    {
        self.desired_state
    }

    pub fn is_thread_running(&self) -> (running: bool)
        ensures
            running == self@.thread_running,
    {
        self.thread_running
    }

    /// Whether threads that are seen for the first time start enabled.
    pub fn enabled_for_new_threads(&self) -> (enabled: bool)
        ensures
            enabled == self@.enabled_for_new_threads,
    {
        self.registry.enabled_for_new_threads
    }

    /// How far the startup protocol has come.
    pub fn startup_phase(&self) -> (phase: StartupPhase)
        ensures
            phase == self@.startup,
    {
        self.startup
    }

    /// The dense id that the next new record gets.
    pub fn thread_counter(&self) -> (counter: u64)
        requires
            self.wf(),
        ensures
            counter == self@.thread_counter(),
    {
        (self.registry.records.len() + 1) as u64
    }

    /// Whether the allocation lock, and the registry lock with it, is held.
    pub fn is_registry_locked(&self) -> (locked: bool)
        ensures
            locked == (self@.allocation_lock is Some),
    {
        self.registry.allocation_lock.is_some()
    }

    /// Whether a record can still be added.
    pub fn has_room(&self) -> (room: bool)
        ensures
            room == self@.has_room(),
    {
        self.registry.records.len() < usize::MAX - 1
    }

    /// The addresses of the two frame registration functions, once both have been found.
    pub fn frame_registration(&self) -> (syms: (Option<usize>, Option<usize>))
        ensures
            syms == (self@.sym_register_frame, self@.sym_deregister_frame),
    {
        (self.sym_register_frame, self.sym_deregister_frame)
    }

    /// The registry.
    pub fn registry(&self) -> (registry: &ThreadRegistry)
        ensures
            registry@ == self@.records,
            self.wf() ==> registry.table_wf(),
    {
        &self.registry
    }

    /// The record that `handle` names, if it names one.
    pub fn thread_data(&self, handle: RawThreadHandle) -> (record: Option<ThreadData>)
        ensures
            record == if self@.has_record(handle) {
                Some(self@.record(handle))
            } else {
                None
            },
    {
        let id = handle.internal_thread_id;
        if id == 0 || id > self.registry.records.len() as u64 {
            return None;
        }
        let record = self.registry.records[(id - 1) as usize];
        if record.thread_id == handle.thread_id {
            Some(record)
        } else {
            None
        }
    }

    /// The handle of the record that the registry maps `thread_id` to.
    pub fn find(&self, thread_id: u32) -> (found: Option<RawThreadHandle>)
        requires
            self.wf(),
        ensures
            found == match self@.lookup(thread_id) {
                Some(i) => Some(self@.records[i].handle()),
                None => None,
            },
            found matches Some(handle) ==> self@.has_record(handle),
    {
        match self.registry.threads.get(&thread_id) {
            Some(handle) => {
                proof {
                    let i = handle.internal_thread_id - 1;
                    assert(self.registry.table().contains_key(thread_id));
                    assert(self@.is_registered_at(i, thread_id));
                    lemma_lookup_is_unique(self@, thread_id, i);
                    assert(self@.records[i].internal_thread_id == i + 1);
                }
                Some(*handle)
            },
            None => {
                proof {
                    assert(!self.registry.table().contains_key(thread_id));
                    assert forall|i: int| !self@.is_registered_at(i, thread_id) by {
                        if self@.is_registered_at(i, thread_id) {
                            assert(self.registry@[i].registered);
                        }
                    }
                }
                None
            },
        }
    }
}

/// The thread-local initializer of a thread's first intercepted call.
pub(crate) fn register(global: &mut Global, thread_id: u32) -> (handle: RawThreadHandle)
    requires
        old(global).wf(),
        old(global)@.allocation_lock is None,
        old(global)@.has_room(),
    ensures
        (final(global)@, handle) == old(global)@.register(thread_id),
        final(global).wf(),
        final(global)@.has_record(handle),
{
    proof {
        lemma_register_keeps_wf(global@, thread_id);
    }
    let ghost before = global.registry;
    // The record that the table held for this system id leaves the table.
    match global.find(thread_id) {
        Some(previous) => {
            let at = (previous.internal_thread_id - 1) as usize;
            let mut record = global.registry.records[at];
            record.registered = false;
            global.registry.records.set(at, record);
        },
        None => {},
    }
    let n = global.registry.records.len();
    let internal_thread_id: u64 = (n + 1) as u64;
    let record = ThreadData {
        thread_id,
        internal_thread_id,
        is_internal: false,
        enabled: global.registry.enabled_for_new_threads,
        allocation_counter: 1,
        strong_handles: 0,
        weak_handles: 0,
        throttle: 0,
        registered: true,
    };
    let handle = RawThreadHandle { thread_id, internal_thread_id };
    global.registry.records.push(record);
    global.registry.threads.insert(thread_id, handle);
    proof {
        let pre = old(global)@;
        let post = pre.register(thread_id).0;
        lemma_lookup_has_record(pre, thread_id);
        assert forall|i: int| 0 <= i < post.records.len() implies global@.records[i]
            == post.records[i] by {
            if i < n && pre.records[i].thread_id == thread_id && pre.records[i].registered {
                assert(pre.is_registered_at(i, thread_id));
                lemma_lookup_is_unique(pre, thread_id, i);
            }
        }
        assert(global@.records =~= post.records);
        assert forall|other: u32| #[trigger]
            global.registry.table().contains_key(other) implies {
            let found = global.registry.table()[other];
            &&& found.thread_id == other
            &&& 1 <= found.internal_thread_id <= global.registry@.len()
            &&& global.registry@[found.internal_thread_id - 1].registered
            &&& global.registry@[found.internal_thread_id - 1].thread_id == other
        } by {
            if other != thread_id {
                assert(before.table().contains_key(other));
                let found = before.table()[other];
                assert(before@[found.internal_thread_id - 1].thread_id == other);
            }
        }
        assert forall|i: int|
            0 <= i < global.registry@.len() && (#[trigger] global.registry@[i]).registered implies {
            &&& global.registry.table().contains_key(global.registry@[i].thread_id)
            &&& global.registry.table()[global.registry@[i].thread_id].internal_thread_id == i + 1
        } by {
            if i < n {
                assert(before@[i].registered);
                assert(before@[i].thread_id != thread_id);
            }
        }
    }
    handle
}

/// Rotates the desired state: from `Disabled` or `Suspended` to `Enabled`, from
/// `Enabled` to `Suspended`. In a fork child nothing changes.
pub fn toggle(global: &mut Global)
    requires
        old(global).wf(),
    ensures
        final(global)@ == old(global)@.toggle(),
        final(global).wf(),
{
    proof {
        lemma_registry_untouched_keeps_wf(global@, global@.toggle());
    }
    if global.state == State::PermanentlyDisabled {
        return ;
    }
    let new_value = match global.desired_state {
        DesiredState::Disabled => DesiredState::Enabled,
        DesiredState::Suspended => DesiredState::Enabled,
        DesiredState::Enabled => DesiredState::Suspended,
    };
    global.desired_state = new_value;
}

/// Asks for tracing; true if and only if that changed the desired state.
pub fn enable(global: &mut Global) -> (changed: bool)
    requires
        old(global).wf(),
    ensures
        (final(global)@, changed) == old(global)@.enable(),
        final(global).wf(),
{
    proof {
        lemma_registry_untouched_keeps_wf(global@, global@.enable().0);
    }
    if global.state == State::PermanentlyDisabled {
        return false;
    }
    let previous = global.desired_state;
    global.desired_state = DesiredState::Enabled;
    previous != DesiredState::Enabled
}

/// Asks for a pause; true if and only if tracing was asked for before.
pub fn disable(global: &mut Global) -> (changed: bool)
    requires
        old(global).wf(),
    ensures
        (final(global)@, changed) == old(global)@.disable(),
        final(global).wf(),
{
    proof {
        lemma_registry_untouched_keeps_wf(global@, global@.disable().0);
    }
    if global.state == State::PermanentlyDisabled {
        return false;
    }
    let previous = global.desired_state;
    global.desired_state = DesiredState::Suspended;
    previous == DesiredState::Enabled
}

/// Whether a caller that waits for the state machine to settle has to go on waiting.
pub fn is_busy(global: &Global) -> (busy: bool)
    ensures
        busy == global@.is_busy(),
{
    let state = global.state;
    if state == State::Starting || state == State::Stopping {
        return true;
    }
    let requested_state = global.desired_state;
    let is_thread_running = global.thread_running;
    if requested_state == DesiredState::Disabled && is_thread_running && state == State::Enabled {
        return true;
    }
    false
}

/// Takes the worker's join handle out of its slot if and only if the state is
/// `Stopping` or `Disabled`; the caller joins what it gets.
pub fn try_sync_processing_thread_destruction<H>(global: &Global, slot: &mut Option<H>) -> (handle:
    Option<H>)
    ensures
        global@.may_join() ==> handle == *old(slot) && *final(slot) == None::<H>,
        !global@.may_join() ==> handle == None::<H> && *final(slot) == *old(slot),
{
    let state = global.state;
    if state == State::Stopping || state == State::Disabled {
        slot.take()
    } else {
        None
    }
}

/// Sets the `enabled` flag of every traced thread to `value`.
pub(crate) fn set_enabled_for_all(global: &mut Global, value: bool)
    ensures
        final(global)@ == (Model { records: old(global)@.swept(value), ..old(global)@ }),
        old(global).registry.table_wf() ==> final(global).registry.table_wf(),
{
    let n = global.registry.records.len();
    let mut i: usize = 0;
    while i < n
        invariant
            i <= n,
            n == old(global)@.records.len(),
            global@.records.len() == n,
            forall|j: int| 0 <= j < i ==> global@.records[j] == old(global)@.swept(value)[j],
            forall|j: int| i <= j < n ==> global@.records[j] == old(global)@.records[j],
            global@ == (Model { records: global@.records, ..old(global)@ }),
            global.registry.table() == old(global).registry.table(),
        decreases n - i,
    {
        let mut record = global.registry.records[i];
        if record.registered && !record.is_internal {
            record.set_enabled(value);
            global.registry.records.set(i, record);
        }
        i += 1;
    }
    assert(global@.records =~= old(global)@.swept(value));
    proof {
        if old(global).registry.table_wf() {
            lemma_table_kept(old(global).registry, global.registry);
        }
    }
}

/// One step of the startup protocol that an intercepted call runs when it finds
/// the profiler not enabled.
///
/// The caller reports `Attempt`, does what the returned action says, reports
/// what that action names, and so on until the action is `Refuse` (the call
/// proceeds untraced) or `Done` (tracing is on). The order is fixed: the worker
/// runs and every known thread is enabled before the allocator is patched, and
/// the state becomes `Enabled` last.
pub fn try_enable(global: &mut Global, event: StartupEvent) -> (action: StartupAction)
    requires
        old(global).wf(),
    ensures
        (final(global)@, action) == old(global)@.try_enable(event),
        final(global).wf(),
{
    proof {
        lemma_try_enable_keeps_wf(global@, event);
    }
    if global.state == State::PermanentlyDisabled {
        return StartupAction::Refuse;
    }
    match event {
        StartupEvent::Attempt => {
            if global.state == State::Uninitialized {
                global.state = State::Disabled;
                return StartupAction::RunStartup;
            }
            if global.desired_state == DesiredState::Disabled {
                return StartupAction::Refuse;
            }
            if global.state != State::Disabled {
                return StartupAction::Refuse;
            }
            if global.registry.allocation_lock.is_some() {
                return StartupAction::Wait;
            }
            global.state = State::Starting;
            global.startup = StartupPhase::Spawning;
            StartupAction::SpawnWorker
        },
        StartupEvent::WorkerRunning => {
            if global.startup != StartupPhase::Spawning {
                return StartupAction::Refuse;
            }
            if !global.thread_running || global.registry.allocation_lock.is_some() {
                return StartupAction::Wait;
            }
            global.registry.enabled_for_new_threads = true;
            proof {
                lemma_table_kept(old(global).registry, global.registry);
            }
            set_enabled_for_all(global, true);
            global.startup = StartupPhase::Resolving;
            StartupAction::ResolveSymbols
        },
        StartupEvent::SymbolsResolved { register_frame, deregister_frame } => {
            if global.startup != StartupPhase::Resolving {
                return StartupAction::Refuse;
            }
            if register_frame.is_some() && deregister_frame.is_some() {
                global.sym_register_frame = register_frame;
                global.sym_deregister_frame = deregister_frame;
            }
            global.startup = StartupPhase::Patching;
            StartupAction::PatchAllocator
        },
        StartupEvent::AllocatorPatched => {
            if global.startup != StartupPhase::Patching {
                return StartupAction::Refuse;
            }
            global.state = State::Enabled;
            global.startup = StartupPhase::Idle;
            StartupAction::Done
        },
    }
}

/// Moves from `Enabled` to `Stopping` if shutdown has been asked for; true if
/// and only if it did, and then the caller sends the `Exit` event.
pub fn try_disable_if_requested(global: &mut Global) -> (send_exit: bool)
    requires
        old(global).wf(),
    ensures
        (final(global)@, send_exit) == old(global)@.try_disable_if_requested(),
        final(global).wf(),
{
    proof {
        lemma_registry_untouched_keeps_wf(global@, global@.try_disable_if_requested().0);
    }
    if global.desired_state != DesiredState::Disabled {
        return false;
    }
    if global.state != State::Enabled {
        return false;
    }
    global.state = State::Stopping;
    true
}

/// Whether the user wants tracing now.
pub fn is_actively_running(global: &Global) -> (running: bool)
    ensures
        running == global@.is_actively_running(),
{
    global.desired_state == DesiredState::Enabled
}

/// The exit hook: asks for shutdown. True if and only if the process is no
/// fork child, and then the caller sends the `Exit` event and waits for the
/// worker as `exit_wait_continues` tells it.
pub fn on_exit(global: &mut Global) -> (send_exit: bool)
    requires
        old(global).wf(),
    ensures
        (final(global)@, send_exit) == old(global)@.on_exit(),
        final(global).wf(),
{
    proof {
        lemma_registry_untouched_keeps_wf(global@, global@.on_exit().0);
    }
    if global.state == State::PermanentlyDisabled {
        return false;
    }
    global.desired_state = DesiredState::Disabled;
    true
}

/// Whether the exit hook, having slept `count` times, sleeps once more: the
/// worker still runs and the ceiling of `EXIT_POLL_LIMIT` sleeps is not reached.
pub fn exit_wait_continues(global: &Global, count: u32) -> (again: bool)
    ensures
        again == (global@.thread_running && count < EXIT_POLL_LIMIT),
{
    global.thread_running && count < EXIT_POLL_LIMIT
}

} // verus!
