//! Masking MC/DC (Modified Condition/Decision Coverage) analysis of compiled
//! boolean decisions.
//!
//! The engine reads the MIR that rustc prints ([`mir`]), recovers the logical
//! decisions from it ([`decision`]), and computes for each condition the
//! independence pairs that demonstrate it, and a minimum set of tests
//! ([`masking`]). Coverage data ([`profile`]) joined to the MIR
//! ([`correlate`]) tells which conditions a test suite demonstrates.
//!
//! The remaining modules hold what the `cargo floyd` program decides: what is
//! compiled and run ([`instrument`], [`runner`], [`session`],
//! [`inspection`]), what the tools are run with ([`command`]), what the
//! command line asks for ([`cli`]) and what is printed ([`report`]).

pub mod cli;
pub mod command;
pub mod corpus;
pub mod correlate;
pub mod decision;
pub mod inspection;
pub mod instrument;
pub mod masking;
pub mod mir;
pub mod ordered;
pub mod paths;
pub mod profile;
pub mod report;
pub mod runner;
pub mod session;
pub mod text;

pub use correlate::DecisionMap;
pub use decision::DecisionTree;
pub use masking::{ConditionObservation, ConditionStatus, IndependenceMatrix, RuntimeAnalysis};
pub use mir::Mir;
pub use profile::CoverageReport;
