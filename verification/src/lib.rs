//! Verified core of a fleet task-routing library: skill tags, task
//! priorities and urgencies, bounded logs, the agent registry and the
//! integer bookkeeping of the router.

pub mod skill;
pub mod text;
pub mod task;
pub mod log;
pub mod store;
pub mod pool;
pub mod history;
pub mod router;
