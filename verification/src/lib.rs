//! Variable-flow analysis for changed TypeScript code: an intermediate
//! representation, reaching-definition and origin propagation, and the
//! supporting validation of snapshots and reports.
use vstd::prelude::*;

pub mod changes;
pub mod ifds;

verus! {

} // verus!
