//! Small queries over a built environment that reports are made of.
use crate::file_format::Visibility;
use crate::global_env::GlobalEnv;
use crate::move_model::{Bytecode, Function, FunctionIndex, Module};
use vstd::prelude::*;
use vstd::string::*;

verus! {

/// How many functions there are of each visibility, how many are entry
/// functions (in all and by visibility), and how many are native.
#[derive(Debug, Clone, Copy, PartialEq, Eq, Structural)]
pub struct FunctionSummary {
    pub total: usize,
    pub public: usize,
    pub friend: usize,
    pub private: usize,
    pub native: usize,
    pub entry: usize,
    pub public_entry: usize,
    pub friend_entry: usize,
    pub private_entry: usize,
}

/// The number of functions among the first `n` that satisfy `p`.
pub open spec fn count_where(fs: Seq<Function>, n: int, p: spec_fn(Function) -> bool) -> nat
    decreases n,
{
    if n <= 0 {
        0
    } else {
        count_where(fs, n - 1, p) + if p(fs[n - 1]) {
            1nat
        } else {
            0nat
        }
    }
}

proof fn lemma_count_where_bound(fs: Seq<Function>, n: int, p: spec_fn(Function) -> bool)
    requires
        0 <= n,
    ensures
        count_where(fs, n, p) <= n,
    decreases n,
{
    if n > 0 {
        lemma_count_where_bound(fs, n - 1, p);
    }
}

pub open spec fn is_public(f: Function) -> bool {
    f.visibility == Visibility::Public
}

pub open spec fn is_friend(f: Function) -> bool {
    f.visibility == Visibility::Friend
}

pub open spec fn is_private(f: Function) -> bool {
    f.visibility == Visibility::Private
}

pub open spec fn is_native(f: Function) -> bool {
    f.code is None
}

pub open spec fn is_entry(f: Function) -> bool {
    f.is_entry
}

pub open spec fn is_public_entry(f: Function) -> bool {
    f.is_entry && f.visibility == Visibility::Public
}

pub open spec fn is_friend_entry(f: Function) -> bool {
    f.is_entry && f.visibility == Visibility::Friend
}

pub open spec fn is_private_entry(f: Function) -> bool {
    f.is_entry && f.visibility == Visibility::Private
}

/// Counts the functions of the environment by visibility, entry flag and
/// nativeness.
pub fn function_summary(env: &GlobalEnv) -> (r: FunctionSummary)
    ensures
        ({
            let fs = env.functions@;
            let n = fs.len() as int;
            &&& r.total == fs.len()
            &&& r.public == count_where(fs, n, |f: Function| is_public(f))
            &&& r.friend == count_where(fs, n, |f: Function| is_friend(f))
            &&& r.private == count_where(fs, n, |f: Function| is_private(f))
            &&& r.native == count_where(fs, n, |f: Function| is_native(f))
            &&& r.entry == count_where(fs, n, |f: Function| is_entry(f))
            &&& r.public_entry == count_where(fs, n, |f: Function| is_public_entry(f))
            &&& r.friend_entry == count_where(fs, n, |f: Function| is_friend_entry(f))
            &&& r.private_entry == count_where(fs, n, |f: Function| is_private_entry(f))
        }),
{
    let ghost fs = env.functions@;
    let mut r = FunctionSummary {
        total: 0,
        public: 0,
        friend: 0,
        private: 0,
        native: 0,
        entry: 0,
        public_entry: 0,
        friend_entry: 0,
        private_entry: 0,
    };
    let mut i: usize = 0;
    while i < env.functions.len()
        invariant
            fs == env.functions@,
            i <= fs.len(),
            r.total == i,
            r.public == count_where(fs, i as int, |f: Function| is_public(f)),
            r.friend == count_where(fs, i as int, |f: Function| is_friend(f)),
            r.private == count_where(fs, i as int, |f: Function| is_private(f)),
            r.native == count_where(fs, i as int, |f: Function| is_native(f)),
            r.entry == count_where(fs, i as int, |f: Function| is_entry(f)),
            r.public_entry == count_where(fs, i as int, |f: Function| is_public_entry(f)),
            r.friend_entry == count_where(fs, i as int, |f: Function| is_friend_entry(f)),
            r.private_entry == count_where(fs, i as int, |f: Function| is_private_entry(f)),
        decreases fs.len() - i,
    {
        proof {
            lemma_count_where_bound(fs, i as int, |f: Function| is_public(f));
            lemma_count_where_bound(fs, i as int, |f: Function| is_friend(f));
            lemma_count_where_bound(fs, i as int, |f: Function| is_private(f));
            lemma_count_where_bound(fs, i as int, |f: Function| is_native(f));
            lemma_count_where_bound(fs, i as int, |f: Function| is_entry(f));
            lemma_count_where_bound(fs, i as int, |f: Function| is_public_entry(f));
            lemma_count_where_bound(fs, i as int, |f: Function| is_friend_entry(f));
            lemma_count_where_bound(fs, i as int, |f: Function| is_private_entry(f));
        }
        let f = &env.functions[i];
        r.total = r.total + 1;
        match f.visibility {
            Visibility::Public => {
                r.public = r.public + 1;
                if f.is_entry {
                    r.entry = r.entry + 1;
                    r.public_entry = r.public_entry + 1;
                }
            },
            Visibility::Friend => {
                r.friend = r.friend + 1;
                if f.is_entry {
                    r.entry = r.entry + 1;
                    r.friend_entry = r.friend_entry + 1;
                }
            },
            Visibility::Private => {
                r.private = r.private + 1;
                if f.is_entry {
                    r.entry = r.entry + 1;
                    r.private_entry = r.private_entry + 1;
                }
            },
        }
        if f.code.is_none() {
            r.native = r.native + 1;
        }
        i += 1;
    }
    r
}

/// Where a call goes, seen from its caller.
#[derive(Debug, Clone, Copy, PartialEq, Eq, Structural)]
pub enum CallLocality {
    /// To a function of the caller's module.
    Module,
    /// To another module of the caller's package.
    Package,
    /// To another package.
    External,
}

/// Where the call `b` made by `caller` goes; `None` if `b` is no call.
pub fn call_locality(env: &GlobalEnv, caller: &Function, b: &Bytecode) -> (r: Option<CallLocality>)
    requires
        env.wf(),
        match b {
            Bytecode::Call(g) => g < env.functions@.len(),
            Bytecode::CallGeneric(g, _) => g < env.functions@.len(),
            _ => true,
        },
    ensures
        match b {
            Bytecode::Call(g) | Bytecode::CallGeneric(g, _) => {
                let callee = env.functions@[g as int];
                r == Some(
                    if callee.module == caller.module {
                        CallLocality::Module
                    } else if callee.package == caller.package {
                        CallLocality::Package
                    } else {
                        CallLocality::External
                    },
                )
            },
            _ => r is None,
        },
{
    let g = match b {
        Bytecode::Call(g) => *g,
        Bytecode::CallGeneric(g, _) => *g,
        _ => return None,
    };
    let callee = &env.functions[g];
    if callee.module == caller.module {
        Some(CallLocality::Module)
    } else if callee.package == caller.package {
        Some(CallLocality::Package)
    } else {
        Some(CallLocality::External)
    }
}

/// The first function of `module` named `init`.
pub fn find_init(env: &GlobalEnv, module: &Module) -> (r: Option<FunctionIndex>)
    requires
        env.wf(),
        forall|k: int| 0 <= k < module.functions@.len() ==> (#[trigger] module.functions@[k] as int) < env.functions@.len(),
    ensures
        match r {
            Some(f) => exists|k: int|
                0 <= k < module.functions@.len() && module.functions@[k] == f
                    && env.identifiers@[env.functions@[f as int].name as int] == seq!['i', 'n', 'i', 't']
                    && forall|j: int| 0 <= j < k ==> env.identifiers@[env.functions@[#[trigger] module.functions@[j] as int].name as int] != seq!['i', 'n', 'i', 't'],
            None => forall|j: int|
                0 <= j < module.functions@.len() ==> env.identifiers@[env.functions@[#[trigger] module.functions@[j] as int].name as int] != seq!['i', 'n', 'i', 't'],
        },
{
    let init = String::from_str("init");
    proof {
        reveal_strlit("init");
        assert(init@ =~= seq!['i', 'n', 'i', 't']);
    }
    let mut k: usize = 0;
    while k < module.functions.len()
        invariant
            env.wf(),
            init@ == seq!['i', 'n', 'i', 't'],
            forall|j: int| 0 <= j < module.functions@.len() ==> (#[trigger] module.functions@[j] as int) < env.functions@.len(),
            k <= module.functions@.len(),
            forall|j: int| 0 <= j < k ==> env.identifiers@[env.functions@[#[trigger] module.functions@[j] as int].name as int] != seq!['i', 'n', 'i', 't'],
        decreases module.functions@.len() - k,
    {
        let f = module.functions[k];
        proof {
            assert(crate::global_env::function_valid(env.functions@[f as int], f as int, env.sizes()));
        }
        if env.function_name_from_idx(f) == init {
            return Some(f);
        }
        k += 1;
    }
    None
}

} // verus!
