//! The frontend that runs the injector, reads its packets and keeps the
//! findings: its command line, its running statistics and its reports.
pub mod args;
pub mod stats;
pub mod report;
