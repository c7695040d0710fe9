//! Diagnostics and quick fixes for a single source file.
//!
//! The crate collects three tiers of problems for one file: parse errors,
//! purely syntactic anti-patterns found by local scanners, and diagnostics
//! handed over by a semantic engine, which may be anchored inside macro
//! expansions and are mapped back to the file that the user edits.

pub mod edit;
pub mod syntax;
pub mod diff;
pub mod diagnostic;
pub mod scanners;
pub mod reconcile;
pub mod fixes;
pub mod collect;
