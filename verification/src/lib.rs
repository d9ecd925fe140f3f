use vstd::prelude::*;

pub mod text;
pub mod ir;
pub mod helpers;
pub mod pattern;
pub mod blocks;
pub mod parser;
pub mod projection;
pub mod run_serve;
pub mod cli;
pub mod run_follow;
pub mod run_boot;
pub mod run;
pub mod run_host;
pub mod run_integrity;
pub mod run_persistence_map;
pub mod run_actors;

verus! {

} // verus!
