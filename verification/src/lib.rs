//! A deterministic test-execution engine: registered test descriptors are
//! filtered by glob and tags, sorted and bucketed into groups and plans,
//! executed one case at a time with expected-failure semantics, and
//! aggregated into pass/fail counts with fail-fast support.

pub mod clock;
pub mod fmt;
pub mod glob_pat;
pub mod order;
pub mod organize;
pub mod runner;
pub mod test;

pub use clock::exec_with_timing;
pub use fmt::{decimal_string, format_duration, summary_message};
pub use organize::{TestGroup, TestPlan, organize};
pub use runner::{
    CaseResult, RunEvent, RunReport, RunStats, RunVerdict, TestifyConfig, count_cases, execute, run,
    run_groups,
};
pub use test::{CaseOutcome, Test, TestStatus, TestTermination, classify};
