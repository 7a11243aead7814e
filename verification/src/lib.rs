use vstd::prelude::*;

pub mod adapters;
pub mod agent;
pub mod check;
pub mod cli;
pub mod config;
pub mod doctor;
pub mod engineering;
pub mod order;
pub mod output;
pub mod scan;
pub mod search;
pub mod self_update;
pub mod state;
pub mod text;
pub mod tools;
pub mod tools_install;

verus! {

} // verus!
