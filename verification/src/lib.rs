//! A minimal cooperative multitasking core: a fixed set of periodic tasks run
//! on a single-threaded scheduler, blocking work is bridged to worker threads,
//! and a shared counter is the only cross-task state.
//!
//! This crate holds the decision logic of that runtime: what a task does with
//! the outcome of its work, how a blocking worker's report is classified, how
//! the scheduler advances simulated time, and how the two configuration file
//! formats are parsed and serialized. The surrounding process (threads, HTTP,
//! the real clock) lives outside and feeds plain values in.

pub mod bridge;
pub mod counter;
pub mod fetch;
pub mod mapping_config;
pub mod mobility_config;
pub mod monitor;
pub mod sched;
pub mod task;
pub mod toml_text;

pub use counter::SharedCounter;
