//! Runtime control core of an in-process memory-profiling interceptor.
//!
//! The interceptor is loaded ahead of a target program and brackets every heap
//! allocation call. This crate holds the part that decides: the lifecycle state
//! machine that turns tracing on and off, the registry of per-thread records, the
//! handle protocol that keeps the interceptor from re-entering itself, the
//! quiescence barrier, and the scan of an ELF image for the entry points of a
//! statically linked allocator. It is written as a sequential model: the process
//! state is one value, [`global::Global`], every operation is a function on it,
//! and whatever has to wait, sleep, spawn or touch memory is handed back to the
//! caller as an action to carry out.

pub mod state;
pub mod thread;
pub mod model;
pub mod registry;
pub mod global;
pub mod preservation;
pub mod laws;
pub mod handle;
pub mod hooks;
pub mod allocation_lock;
pub mod symbols;
pub mod jemalloc;
