//! A bridge that lets the worker threads of a parallel engine run callbacks
//! that are confined to one host thread, and a background job table that runs
//! such callbacks off the engine's critical path.
//!
//! Every component is a state machine over plain values: the threads, locks
//! and condition variables that drive it live outside this library, and hand
//! it the events they observe.

pub mod error;
pub mod envelope;
pub mod pump;
pub mod session;
pub mod closure;
pub mod pool;
