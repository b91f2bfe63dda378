//! Compact summaries of sbt (Scala build tool) console output.

pub mod pattern;
pub mod text;
pub mod sbt_patterns;
pub mod layout;
pub mod test_report;
pub mod compile_report;
pub mod run_report;

pub use compile_report::filter_sbt_compile;
pub use run_report::filter_sbt_run;
pub use test_report::filter_sbt_test;
