//! Builds a single, fully cross-referenced environment out of a batch of
//! versioned Move packages: identifiers are interned, every entity gets a
//! stable global index, and every symbolic reference of the binary format
//! (calls, struct uses, field borrows, types) is resolved to such an index,
//! following package upgrades through linkage and type-origin tables.

pub mod errors;
pub mod execution;
pub mod file_format;
pub mod global_env;
pub mod identifiers;
pub mod laws;
pub mod loader;
pub mod move_model;
pub mod resolvable;
pub mod resolver;
pub mod stats;
pub mod walkers;

use vstd::prelude::*;

verus! {

/// An analysis that runs over a successfully built environment.
#[derive(Debug, Clone, Copy, PartialEq, Eq, Structural)]
pub enum Pass {
    PackageStats,
    BytecodeStats,
    PrintEnv,
    OneTimeWitness,
    InitReporter,
}

/// Which passes to run, and where their reports go.
#[derive(Debug, Clone)]
pub struct PassesConfig {
    pub passes: Vec<Pass>,
    pub output_dir: Option<String>,
}

} // verus!
