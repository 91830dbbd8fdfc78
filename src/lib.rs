use vstd::prelude::*;

pub mod bandwidth_stats;
pub mod duration;
pub mod error;
pub mod event_samples;
pub mod report;
pub mod rand_util;
pub mod stats;
pub mod util;

verus! {

} // verus!
