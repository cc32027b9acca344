use vstd::prelude::*;

pub mod text;
pub mod sorting;
pub mod paths;
pub mod rustc_args;
pub mod auth;
pub mod digest;
pub mod cache_io;
pub mod disk_cache;
pub mod cache_plan;
pub mod protocol;
pub mod slots;
pub mod daemon;
pub mod cli;

verus! {

} // verus!
