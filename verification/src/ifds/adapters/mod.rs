//! Language adapters that turn source text into the language-independent IR.
use vstd::prelude::*;

pub mod typescript;

verus! {

} // verus!
