//! A point-in-time sampler of Linux system statistics. The library turns the
//! texts of the kernel's pseudo-files into typed records and derives each
//! core's load from two counter snapshots taken some time apart.
use vstd::prelude::*;

pub mod text;
pub mod number;
pub mod reading;
pub mod monitor;
pub mod load;
pub mod parse;
pub mod sample;
pub mod display;

verus! {

} // verus!
