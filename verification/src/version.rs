//! The version reported by the command line, the cache and recorded runs.

use vstd::prelude::*;

verus! {

pub const VERSION: &'static str = "0.1.0";

} // verus!
