//! Running a goal to a pull request: what a goal says, what a branch is shown,
//! what its checks may run, and how a run ends.

pub mod candidate;
pub mod compose;
pub mod context;
pub mod deploy;
pub mod flow;
pub mod manifest;
pub mod pool;
pub mod run;
pub mod smoke;
pub mod spec;
