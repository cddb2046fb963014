//! Core of a performance-tracking site: a selector/query engine that resolves
//! partially-specified, multi-dimensional queries against a time-series index,
//! and a comparison/triage engine that classifies performance changes between
//! two artifacts and walks a commit chain to build a regression report.

pub mod cli;
pub mod comparison;
pub mod providers;
pub mod report;
pub mod db;
pub mod selector;

use vstd::prelude::*;

verus! {

/// Three-way comparison result used by the deterministic orderings of the
/// selector and comparison engines.
#[derive(Clone, Copy, Debug, PartialEq, Eq, Structural)]
pub enum Ord3 {
    Lt,
    Eq,
    Gt,
}

} // verus!
