//! MoonUnit: a harness engine for unit tests written in an embedded
//! scripting language.
//!
//! The crate holds the verified core of the harness: the model of script
//! values crossing the native boundary, the total order and deep structural
//! comparison over them, the assertion and expectation verdicts, the test
//! registry with its report, manifest resolution planning, and test
//! selection. The embedding of the interpreter itself (loading script text,
//! invoking callables, working-directory scoping) is driven by a thin
//! unverified shell that feeds plain values into these functions and carries
//! their decisions out.

pub mod checks;
pub mod compare;
pub mod manifest;
pub mod outcome;
pub mod registry;
pub mod selection;
pub mod text;
pub mod value;

pub use text::Comparison;
