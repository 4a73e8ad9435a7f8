//! Core of a desktop command-execution backend: a bounded-concurrency task
//! scheduler with buffered output capture, a guarded one-shot command
//! executor, and an interactive terminal session registry with best-effort
//! working-directory tracking.

pub mod clock;
pub mod config;
pub mod errors;
pub mod executor;
pub mod gate;
pub mod launch;
pub mod osc;
pub mod output;
pub mod paths;
pub mod task;
pub mod terminal;
pub mod text;
