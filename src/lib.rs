//! A process supervisor's core: the dependency graph of a project's services, the
//! lifecycle of each service, per-service logs with live subscribers, and the
//! display helpers of the process table.

use vstd::prelude::*;

pub mod broker;
pub mod engine;
pub mod graph;
pub mod logs;
pub mod process;
pub mod supervisor;
pub mod util;

verus! {

} // verus!
