//! The decisions of an end-to-end test runner.
//!
//! A [`TestCase`] has an optional initialization, tests and an optional cleanup, each with a
//! timeout. A run of test cases ([`run`], [`SuiteRun`]) says which test case is next and starts
//! its run ([`CaseRun`]), which says what to launch next. Whoever drives the run launches it,
//! classifies how it ended ([`TestOutcome::classify`]) and hands the outcome back. What all
//! outcomes add up to is kept in [`Statistics`] and told by a [`RunReport`].
//!
//! The functions that contracts speak of stand next to the types they describe; what holds of
//! every run is proved in [`laws`].

pub mod backtrace;
pub mod case;
pub mod case_run;
pub mod filter;
pub mod laws;
pub mod outcome;
pub mod report;
pub mod stats;
pub mod suite;

pub use backtrace::Backtrace;
pub use case::TestCase;
pub use case_run::{CaseRun, Launch, Step};
pub use filter::{FilterMap, TestFilter};
pub use outcome::{xfail, TestOutcome, XfailMark};
pub use report::{format_test_list, RunReport};
pub use stats::Statistics;
pub use suite::{run, SuiteRun};
