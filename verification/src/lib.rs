//! Verified core of a fleet batch-job orchestrator: task templates that
//! expand into indexed instances, a pool of machines with task slots, pool
//! sizing, and the bookkeeping of the scheduling loop's check queue.
//!
//! Everything that talks to the outside world (state-file persistence,
//! provisioning and transport commands) lives in the surrounding binary;
//! this crate holds the data model and every decision the loop makes.

pub mod config;
pub mod job;
pub mod machine;
pub mod sched;
pub mod task;
pub mod text;
