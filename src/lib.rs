//! Summaries of per-unit security findings: decoding of raw entries into
//! audited units, happiness tallies, and an exact-match filter with a stable
//! ranking by exposure and a count limit.
use vstd::prelude::*;

pub mod exposure;
pub mod record;
pub mod stats;
pub mod select;
pub mod analysis;

verus! {

} // verus!
