//! Language-independent contracts for variable-flow analysis.
use vstd::prelude::*;

pub mod adapters;
pub mod analysis;
pub mod branches;
pub mod compact;
pub mod compare;
pub mod comparison;
pub mod fixtures;
pub mod ir;
pub mod model;
pub mod provenance;
pub mod seqs;
pub mod snapshots;
pub mod slicing;
pub mod solver;
pub mod uncertainty;

verus! {

} // verus!
