//! Integer core of an index-theorem toolkit: Euler characteristics, Betti
//! numbers from boundary ranks, rank–nullity indices of matrix operators and
//! characteristic numbers of bundles.

pub mod topological_index;
pub mod characteristic;
pub mod analytic_index;
pub mod heat_kernel;
