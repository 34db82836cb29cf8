//! Managed executions: what may be asked for, the bounded stream of events, and
//! the life of the process tree behind it.
//!
//! A request carries no authority. Processes, pipes and threads belong to the
//! program around the library, which reports events and performs what is
//! decided here.

pub mod contract;
pub mod control;
pub mod laws;
pub mod limits;
pub mod runs;
pub mod stream;
