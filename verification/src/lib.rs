//! Three light-transport integrators, as far as they decide: which rays are traced, which
//! vertices are stored where, which of them contribute to which, and in what order.
use vstd::prelude::*;

pub mod branching_pt;
pub mod decimal;
pub mod exact;
pub mod expr;
pub mod hash_grid;
pub mod json;
pub mod lighting;
pub mod limits;
pub mod lm_path_filtering;
pub mod neighborhood;
pub mod nrc;
pub mod nrc_pt;
pub mod radiance;
pub mod value;

verus! {

} // verus!
