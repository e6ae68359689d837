//! Integer core of a cube-sphere planet generator: height-map sampling with
//! longitude wrap and latitude clamp, cube-face triangulation, the neighbour
//! gathering and pixel layout of normal-map synthesis, and the checks made
//! before a normal map is written out.
use vstd::prelude::*;

pub mod face;
pub mod normal_map;
pub mod persist;
pub mod sampler;

verus! {

} // verus!
