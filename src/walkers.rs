//! Traversals of a built environment in pool order. Each walker hands every
//! entity of one kind to a visitor, in the order of its pool.
use crate::global_env::GlobalEnv;
use crate::move_model::{Bytecode, Function, Module, Package, Struct};
use vstd::prelude::*;

verus! {

/// Visits every package, in pool order.
pub fn walk_packages<F>(env: &GlobalEnv, mut walker: F) where F: FnMut(&GlobalEnv, &Package)
    requires
        forall|e: &GlobalEnv, p: &Package| #[trigger] walker.requires((e, p)),
{
    let mut i: usize = 0;
    while i < env.packages.len()
        invariant
            i <= env.packages@.len(),
            forall|e: &GlobalEnv, p: &Package| #[trigger] walker.requires((e, p)),
        decreases env.packages@.len() - i,
    {
        walker(env, &env.packages[i]);
        i += 1;
    }
}


/// Visits every module, in pool order.
pub fn walk_modules<F>(env: &GlobalEnv, mut walker: F) where F: FnMut(&GlobalEnv, &Module)
    requires
        forall|e: &GlobalEnv, m: &Module| #[trigger] walker.requires((e, m)),
{
    let mut i: usize = 0;
    while i < env.modules.len()
        invariant
            i <= env.modules@.len(),
            forall|e: &GlobalEnv, m: &Module| #[trigger] walker.requires((e, m)),
        decreases env.modules@.len() - i,
    {
        walker(env, &env.modules[i]);
        i += 1;
    }
}

/// Visits every struct, in pool order.
pub fn walk_structs<F>(env: &GlobalEnv, mut walker: F) where F: FnMut(&GlobalEnv, &Struct)
    requires
        forall|e: &GlobalEnv, s: &Struct| #[trigger] walker.requires((e, s)),
{
    let mut i: usize = 0;
    while i < env.structs.len()
        invariant
            i <= env.structs@.len(),
            forall|e: &GlobalEnv, s: &Struct| #[trigger] walker.requires((e, s)),
        decreases env.structs@.len() - i,
    {
        walker(env, &env.structs[i]);
        i += 1;
    }
}

/// Visits every function, in pool order.
pub fn walk_functions<F>(env: &GlobalEnv, mut walker: F) where F: FnMut(&GlobalEnv, &Function)
    requires
        forall|e: &GlobalEnv, f: &Function| #[trigger] walker.requires((e, f)),
{
    let mut i: usize = 0;
    while i < env.functions.len()
        invariant
            i <= env.functions@.len(),
            forall|e: &GlobalEnv, f: &Function| #[trigger] walker.requires((e, f)),
        decreases env.functions@.len() - i,
    {
        walker(env, &env.functions[i]);
        i += 1;
    }
}

/// Visits every instruction of every function that has code, function by
/// function in pool order, each function's instructions in order.
pub fn walk_bytecodes<F>(env: &GlobalEnv, mut walker: F) where
    F: FnMut(&GlobalEnv, &Function, &Bytecode),

    requires
        forall|e: &GlobalEnv, f: &Function, b: &Bytecode| #[trigger] walker.requires((e, f, b)),
{
    let mut i: usize = 0;
    while i < env.functions.len()
        invariant
            i <= env.functions@.len(),
            forall|e: &GlobalEnv, f: &Function, b: &Bytecode| #[trigger] walker.requires((e, f, b)),
        decreases env.functions@.len() - i,
    {
        let func = &env.functions[i];
        if let Some(code) = &func.code {
            let mut k: usize = 0;
            while k < code.code.len()
                invariant
                    k <= code.code@.len(),
                    forall|e: &GlobalEnv, f: &Function, b: &Bytecode| #[trigger] walker.requires((e, f, b)),
                decreases code.code@.len() - k,
            {
                walker(env, func, &code.code[k]);
                k += 1;
            }
        }
        i += 1;
    }
}

} // verus!
