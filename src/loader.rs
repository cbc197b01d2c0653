//! The staged construction of the environment: packages, modules, structs,
//! fields and constants, functions, then instructions. Each stage assigns
//! indices in input order before anything refers to them.
use crate::errors::{Location, PackageAnalyzerError, SymbolKey, Unsupported};
use crate::file_format::{
    Address, LinkageEntry, RawModule, RawPackage, StructFieldInformation, TypeOrigin,
};
use crate::global_env::{
    GlobalEnv, field_valid, function_valid, module_valid, package_valid,
    struct_valid,
};
use crate::identifiers::IdentifierMap;
use crate::move_model::{
    Bytecode, Code, Constant, Field, Function, FunctionIndex, Module, ModuleId, ModuleIndex, Package,
    PackageIndex, Struct, StructIndex, type_valid, types_valid, bytecode_valid,
};
use crate::resolver::{EntityKey, ModuleKey, TypeBuilder, values_below};
use std::collections::BTreeMap;
use vstd::prelude::*;

verus! {

impl RawModule {
    /// The module's names agree: it is stored under its own name, and every
    /// struct and function it defines is declared in it.
    pub open spec fn names_consistent(&self, stored_name: Seq<char>) -> bool {
        &&& self.self_name() == stored_name
        &&& forall|d: int|
            0 <= d < self.struct_defs@.len() ==> self.handle_module_name(
                self.struct_handles@[(#[trigger] self.struct_defs@[d]).struct_handle as int].module as int,
            ) == self.self_name()
        &&& forall|d: int|
            0 <= d < self.function_defs@.len() ==> self.handle_module_name(
                self.function_handles@[(#[trigger] self.function_defs@[d]).function as int].module as int,
            ) == self.self_name()
    }

    /// The module's own name, as stored in its tables.
    pub fn self_name_string(&self) -> (r: &String)
        requires
            self.wf(),
        ensures
            r@ == self.self_name(),
    {
        &self.identifiers[self.module_handles[self.self_module_handle_idx].name]
    }

    fn module_name_of_handle(&self, mh: usize) -> (r: &String)
        requires
            self.wf(),
            mh < self.module_handles@.len(),
        ensures
            r@ == self.handle_module_name(mh as int),
    {
        &self.identifiers[self.module_handles[mh].name]
    }

    /// Checks `names_consistent`, for a well-formed module.
    pub fn check_names(&self, stored_name: &String) -> (r: bool)
        requires
            self.wf(),
        ensures
            r == self.names_consistent(stored_name@),
    {
        let own = self.self_name_string();
        if *own != *stored_name {
            return false;
        }
        let mut d: usize = 0;
        while d < self.struct_defs.len()
            invariant
                self.wf(),
                own@ == self.self_name(),
                d <= self.struct_defs@.len(),
                forall|j: int|
                    0 <= j < d ==> self.handle_module_name(
                        self.struct_handles@[(#[trigger] self.struct_defs@[j]).struct_handle as int].module as int,
                    ) == self.self_name(),
            decreases self.struct_defs@.len() - d,
        {
            proof {
                assert(self.struct_def_wf(self.struct_defs@[d as int]));
            }
            let h = &self.struct_handles[self.struct_defs[d].struct_handle];
            if *self.module_name_of_handle(h.module) != *own {
                return false;
            }
            d += 1;
        }
        let mut d: usize = 0;
        while d < self.function_defs.len()
            invariant
                self.wf(),
                own@ == self.self_name(),
                d <= self.function_defs@.len(),
                forall|j: int|
                    0 <= j < d ==> self.handle_module_name(
                        self.function_handles@[(#[trigger] self.function_defs@[j]).function as int].module as int,
                    ) == self.self_name(),
            decreases self.function_defs@.len() - d,
        {
            proof {
                assert(self.function_def_wf(self.function_defs@[d as int]));
            }
            let h = &self.function_handles[self.function_defs[d].function];
            if *self.module_name_of_handle(h.module) != *own {
                return false;
            }
            d += 1;
        }
        true
    }
}

/// Whether module `k` of package `p` can be loaded: its tables are in bounds
/// and its names agree.
pub open spec fn module_ok(input: Seq<RawPackage>, p: int, k: int) -> bool {
    let (name, raw) = input[p].modules@[k];
    raw.wf() && raw.names_consistent(name@)
}

/// Whether every module of the input can be loaded.
pub open spec fn input_ok(input: Seq<RawPackage>) -> bool {
    forall|p: int, k: int|
        0 <= p < input.len() && 0 <= k < input[p].modules@.len() ==> #[trigger] module_ok(input, p, k)
}

/// Checks every module of the input, and reports the first that fails.
pub fn check_input(input: &Vec<RawPackage>) -> (r: Result<(), PackageAnalyzerError>)
    ensures
        r is Ok <==> input_ok(input@),
        r is Err ==> r->Err_0 is MalformedInput,
{
    let mut p: usize = 0;
    while p < input.len()
        invariant
            p <= input@.len(),
            forall|q: int, k: int|
                0 <= q < p && 0 <= k < input@[q].modules@.len() ==> #[trigger] module_ok(input@, q, k),
        decreases input@.len() - p,
    {
        let package = &input[p];
        let mut k: usize = 0;
        while k < package.modules.len()
            invariant
                p < input@.len(),
                *package == input@[p as int],
                k <= package.modules@.len(),
                forall|q: int, j: int|
                    0 <= q < p && 0 <= j < input@[q].modules@.len() ==> #[trigger] module_ok(input@, q, j),
                forall|j: int| 0 <= j < k ==> #[trigger] module_ok(input@, p as int, j),
            decreases package.modules@.len() - k,
        {
            let (name, raw) = &package.modules[k];
            if !raw.is_well_formed() || !raw.check_names(name) {
                proof {
                    assert(!module_ok(input@, p as int, k as int));
                }
                return Err(
                    PackageAnalyzerError::MalformedInput(
                        Location { package: package.id, module: name.clone() },
                    ),
                );
            }
            k += 1;
        }
        p += 1;
    }
    Ok(())
}

} // verus!
verus! {

/// The raw module that `src` (a package and a position in it) designates.
pub open spec fn raw_at(input: Seq<RawPackage>, src: (usize, usize)) -> RawModule {
    input[src.0 as int].modules@[src.1 as int].1
}

/// Package `p` was loaded from input package `p`; its module list is still
/// to be filled.
pub open spec fn package_loaded(pkg: Package, raw: RawPackage, p: int) -> bool {
    &&& pkg.self_idx == p
    &&& pkg.id == raw.id
    &&& pkg.version == raw.version
    &&& pkg.linkage@ == raw.linkage@
    &&& pkg.type_origin@.len() == raw.type_origin@.len()
    &&& forall|k: int|
        0 <= k < raw.type_origin@.len() ==> {
            let a = #[trigger] pkg.type_origin@[k];
            let b = raw.type_origin@[k];
            a.module_name@ == b.module_name@ && a.struct_name@ == b.struct_name@ && a.package
                == b.package
        }
}

fn copy_type_origin(t: &Vec<TypeOrigin>) -> (r: Vec<TypeOrigin>)
    ensures
        r@.len() == t@.len(),
        forall|k: int|
            0 <= k < t@.len() ==> {
                let a = #[trigger] r@[k];
                let b = t@[k];
                a.module_name@ == b.module_name@ && a.struct_name@ == b.struct_name@ && a.package
                    == b.package
            },
{
    let mut r: Vec<TypeOrigin> = Vec::new();
    let mut k: usize = 0;
    while k < t.len()
        invariant
            k <= t@.len(),
            r@.len() == k,
            forall|j: int|
                0 <= j < k ==> {
                    let a = #[trigger] r@[j];
                    let b = t@[j];
                    a.module_name@ == b.module_name@ && a.struct_name@ == b.struct_name@
                        && a.package == b.package
                },
        decreases t@.len() - k,
    {
        let e = &t[k];
        r.push(
            TypeOrigin {
                module_name: e.module_name.clone(),
                struct_name: e.struct_name.clone(),
                package: e.package,
            },
        );
        k += 1;
    }
    r
}

fn copy_linkage(t: &Vec<LinkageEntry>) -> (r: Vec<LinkageEntry>)
    ensures
        r@ == t@,
{
    let mut r: Vec<LinkageEntry> = Vec::new();
    let mut k: usize = 0;
    while k < t.len()
        invariant
            k <= t@.len(),
            r@ == t@.subrange(0, k as int),
        decreases t@.len() - k,
    {
        r.push(t[k]);
        k += 1;
        assert(r@ =~= t@.subrange(0, k as int));
    }
    assert(t@.subrange(0, k as int) =~= t@);
    r
}

/// An error for two entities that would share the key `a::module::name`.
fn duplicate(a: Address, module: &str, name: &str) -> (e: PackageAnalyzerError)
    ensures
        e is InvariantViolation,
{
    PackageAnalyzerError::InvariantViolation(
        SymbolKey { address: a, module: module.to_string(), name: name.to_string() },
    )
}

/// Whether two input packages have the same address.
pub open spec fn has_duplicate_package(input: Seq<RawPackage>) -> bool {
    exists|p: int, q: int| 0 <= p < q < input.len() && input[p].id == input[q].id
}

/// Creates one package per input package, in input order, and the map from
/// address to package; fails on an address given twice.
pub fn load_packages(input: &Vec<RawPackage>) -> (r: Result<
    (Vec<Package>, BTreeMap<(u128, u128), PackageIndex>),
    PackageAnalyzerError,
>)
    ensures
        r is Ok <==> !has_duplicate_package(input@),
        r is Err ==> r->Err_0 is InvariantViolation,
        r matches Ok((packages, map)) ==> {
            &&& packages@.len() == input@.len()
            &&& forall|p: int|
                0 <= p < input@.len() ==> package_loaded(#[trigger] packages@[p], input@[p], p)
                    && packages@[p].modules@.len() == 0
            &&& forall|k: (u128, u128)| #[trigger]
                map@.contains_key(k) ==> {
                    let p = map@[k] as int;
                    0 <= p < packages@.len() && packages@[p].id.key() == k
                }
            &&& forall|p: int|
                0 <= p < packages@.len() ==> #[trigger] map@.contains_key(packages@[p].id.key())
                    && map@[packages@[p].id.key()] == p
        },
{
    let mut packages: Vec<Package> = Vec::new();
    let mut map: BTreeMap<(u128, u128), PackageIndex> = BTreeMap::new();
    let mut p: usize = 0;
    while p < input.len()
        invariant
            p <= input@.len(),
            packages@.len() == p,
            !has_duplicate_package(input@.subrange(0, p as int)),
            forall|q: int|
                0 <= q < p ==> package_loaded(#[trigger] packages@[q], input@[q], q)
                    && packages@[q].modules@.len() == 0,
            forall|k: (u128, u128)| #[trigger]
                map@.contains_key(k) ==> {
                    let q = map@[k] as int;
                    0 <= q < packages@.len() && packages@[q].id.key() == k
                },
            forall|q: int|
                0 <= q < packages@.len() ==> #[trigger] map@.contains_key(packages@[q].id.key())
                    && map@[packages@[q].id.key()] == q,
        decreases input@.len() - p,
    {
        let raw = &input[p];
        let key = raw.id.to_key();
        if map.contains_key(&key) {
            proof {
                let q = map@[key] as int;
                assert(input@[q].id == raw.id);
                assert(has_duplicate_package(input@));
            }
            return Err(duplicate(raw.id, "", ""));
        }
        let package = Package {
            self_idx: p,
            id: raw.id,
            version: raw.version,
            type_origin: copy_type_origin(&raw.type_origin),
            linkage: copy_linkage(&raw.linkage),
            modules: Vec::new(),
        };
        packages.push(package);
        map.insert(key, p);
        proof {
            let sub = input@.subrange(0, p + 1);
            assert forall|a: int, b: int| 0 <= a < b < sub.len() implies sub[a].id != sub[b].id by {
                if b < p {
                    assert(input@.subrange(0, p as int)[a] == sub[a]);
                    assert(input@.subrange(0, p as int)[b] == sub[b]);
                } else {
                    assert(packages@[a].id.key() == sub[a].id.key());
                    assert(map@.contains_key(sub[a].id.key()));
                }
            }
        }
        p += 1;
    }
    proof {
        assert(input@.subrange(0, p as int) =~= input@);
    }
    Ok((packages, map))
}


/// Some package stores two modules under one name.
pub open spec fn has_duplicate_module(input: Seq<RawPackage>) -> bool {
    exists|p: int, k1: int, k2: int|
        0 <= p < input.len() && 0 <= k1 < k2 < input[p].modules@.len()
            && #[trigger] input[p].modules@[k1].0@ == #[trigger] input[p].modules@[k2].0@
}

/// The name of struct definition `d` of module `k` of package `p`.
pub open spec fn struct_name_at(input: Seq<RawPackage>, p: int, k: int, d: int) -> Seq<char> {
    let raw = input[p].modules@[k].1;
    raw.struct_handle_name(def_handle(raw, d))
}

/// The name of function definition `d` of module `k` of package `p`.
pub open spec fn function_name_at(input: Seq<RawPackage>, p: int, k: int, d: int) -> Seq<char> {
    let raw = input[p].modules@[k].1;
    raw.function_handle_name(raw.function_defs@[d].function as int)
}

/// Some module defines two structs of one name.
pub open spec fn has_duplicate_struct(input: Seq<RawPackage>) -> bool {
    exists|p: int, k: int, d1: int, d2: int|
        0 <= p < input.len() && 0 <= k < input[p].modules@.len() && 0 <= d1 < d2
            < input[p].modules@[k].1.struct_defs@.len() && #[trigger] struct_name_at(input, p, k, d1)
            == #[trigger] struct_name_at(input, p, k, d2)
}

/// Some module defines two functions of one name.
pub open spec fn has_duplicate_function(input: Seq<RawPackage>) -> bool {
    exists|p: int, k: int, d1: int, d2: int|
        0 <= p < input.len() && 0 <= k < input[p].modules@.len() && 0 <= d1 < d2
            < input[p].modules@[k].1.function_defs@.len() && #[trigger] function_name_at(input, p, k, d1)
            == #[trigger] function_name_at(input, p, k, d2)
}

/// Module `m` was loaded from the input module at `src`.
pub open spec fn module_from(
    input: Seq<RawPackage>,
    packages: Seq<Package>,
    md: Module,
    m: int,
    src: (usize, usize),
    ids: Seq<Seq<char>>,
) -> bool {
    let raw = raw_at(input, src);
    &&& src.0 < input.len()
    &&& src.1 < input[src.0 as int].modules@.len()
    &&& src.0 < packages.len()
    &&& src.1 < packages[src.0 as int].modules@.len()
    &&& packages[src.0 as int].modules@[src.1 as int] == m
    &&& md.self_idx == m
    &&& md.package == src.0
    &&& md.name < ids.len()
    &&& ids[md.name as int] == raw.self_name()
    &&& md.module_id.address == raw.self_address()
    &&& md.module_id.name@ == raw.self_name()
}

/// The modules were loaded from the input, each package listing its own.
pub open spec fn modules_from(
    input: Seq<RawPackage>,
    packages: Seq<Package>,
    modules: Seq<Module>,
    sources: Seq<(usize, usize)>,
    ids: Seq<Seq<char>>,
) -> bool {
    &&& sources.len() == modules.len()
    &&& packages.len() == input.len()
    &&& forall|m: int|
        0 <= m < modules.len() ==> module_from(input, packages, #[trigger] modules[m], m, sources[m], ids)
    &&& forall|p: int|
        0 <= p < input.len() ==> (#[trigger] packages[p]).modules@.len() == input[p].modules@.len()
    &&& forall|p: int, k: int|
        0 <= p < input.len() && 0 <= k < input[p].modules@.len() ==> {
            let m = #[trigger] packages[p].modules@[k] as int;
            0 <= m < modules.len() && sources[m] == (p as usize, k as usize)
        }
}

/// The key of module `md` in the module map.
pub open spec fn module_key_of(packages: Seq<Package>, md: Module) -> ModuleKey {
    let a = packages[md.package as int].id;
    (a.hi, a.lo, md.name)
}

/// The module map sends exactly the key of every module to it.
pub open spec fn module_map_consistent(
    packages: Seq<Package>,
    modules: Seq<Module>,
    map: Map<ModuleKey, ModuleIndex>,
) -> bool {
    &&& forall|k: ModuleKey| #[trigger]
        map.contains_key(k) ==> {
            let m = map[k] as int;
            0 <= m < modules.len() && module_key_of(packages, modules[m]) == k
        }
    &&& forall|m: int|
        0 <= m < modules.len() ==> #[trigger] map.contains_key(module_key_of(packages, modules[m]))
            && map[module_key_of(packages, modules[m])] == m
}

pub open spec fn is_prefix(a: Seq<Seq<char>>, b: Seq<Seq<char>>) -> bool {
    a.len() <= b.len() && forall|i: int| 0 <= i < a.len() ==> #[trigger] b[i] == a[i]
}

/// The number of modules of the packages before `p`.
pub open spec fn modules_before(input: Seq<RawPackage>, p: int) -> nat
    decreases p,
{
    if p <= 0 {
        0
    } else {
        modules_before(input, p - 1) + input[p - 1].modules@.len()
    }
}

/// Counting modules before a later package counts at least as many.
pub proof fn lemma_modules_before_monotonic(input: Seq<RawPackage>, p: int, q: int)
    requires
        0 <= p <= q <= input.len(),
    ensures
        modules_before(input, p) <= modules_before(input, q),
        p < q ==> modules_before(input, p) + input[p].modules@.len() <= modules_before(input, q),
    decreases q - p,
{
    if p < q {
        lemma_modules_before_monotonic(input, p + 1, q);
    }
}

/// Module positions `(p, k)` are numbered one to one.
pub proof fn lemma_module_position_unique(input: Seq<RawPackage>, p1: int, k1: int, p2: int, k2: int)
    requires
        0 <= p1 < input.len(),
        0 <= p2 < input.len(),
        0 <= k1 < input[p1].modules@.len(),
        0 <= k2 < input[p2].modules@.len(),
        modules_before(input, p1) + k1 == modules_before(input, p2) + k2,
    ensures
        p1 == p2 && k1 == k2,
{
    if p1 < p2 {
        lemma_modules_before_monotonic(input, p1, p2);
    } else if p2 < p1 {
        lemma_modules_before_monotonic(input, p2, p1);
    }
}

/// The global index of the input module at `(p, k)`.
pub open spec fn module_number(input: Seq<RawPackage>, p: int, k: int) -> int {
    modules_before(input, p) + k
}

/// The input module that gets global index `m`.
pub open spec fn raw_of_module(input: Seq<RawPackage>, m: int) -> RawModule {
    let (p, k) = choose|p: int, k: int|
        0 <= p < input.len() && 0 <= k < input[p].modules@.len() && #[trigger] module_number(input, p, k) == m;
    input[p].modules@[k].1
}

/// The input module at `(p, k)` gets global index `modules_before(p) + k`.
pub proof fn lemma_raw_of_module(input: Seq<RawPackage>, p: int, k: int)
    requires
        0 <= p < input.len(),
        0 <= k < input[p].modules@.len(),
    ensures
        raw_of_module(input, modules_before(input, p) + k) == input[p].modules@[k].1,
{
    let m = modules_before(input, p) + k;
    assert(0 <= p < input.len() && 0 <= k < input[p].modules@.len() && module_number(input, p, k) == m);
    let (p2, k2) = choose|p2: int, k2: int|
        0 <= p2 < input.len() && 0 <= k2 < input[p2].modules@.len() && #[trigger] module_number(input, p2, k2) == m;
    lemma_module_position_unique(input, p, k, p2, k2);
}

/// The number of struct definitions of the modules before global index `m`.
pub open spec fn structs_before(input: Seq<RawPackage>, m: int) -> nat
    decreases m,
{
    if m <= 0 {
        0
    } else {
        structs_before(input, m - 1) + raw_of_module(input, m - 1).struct_defs@.len()
    }
}

/// The number of function definitions of the modules before global index `m`.
pub open spec fn functions_before(input: Seq<RawPackage>, m: int) -> nat
    decreases m,
{
    if m <= 0 {
        0
    } else {
        functions_before(input, m - 1) + raw_of_module(input, m - 1).function_defs@.len()
    }
}

/// Modules were loaded from every input module before position `k` of
/// package `p`, in order.
pub open spec fn modules_loaded_upto(
    input: Seq<RawPackage>,
    packages: Seq<Package>,
    modules: Seq<Module>,
    sources: Seq<(usize, usize)>,
    ids: Seq<Seq<char>>,
    p: int,
    k: int,
) -> bool {
    &&& sources.len() == modules.len()
    &&& packages.len() == input.len()
    &&& forall|m: int|
        0 <= m < modules.len() ==> module_from(input, packages, #[trigger] modules[m], m, sources[m], ids)
    &&& forall|q: int|
        0 <= q < input.len() ==> (#[trigger] packages[q]).modules@.len() == if q < p {
            input[q].modules@.len() as int
        } else if q == p {
            k
        } else {
            0
        }
    &&& forall|q: int, j: int|
        0 <= q < input.len() && 0 <= j < packages[q].modules@.len() ==> {
            let m = #[trigger] packages[q].modules@[j] as int;
            0 <= m < modules.len() && sources[m] == (q as usize, j as usize)
        }
}

/// Creates one module per input module, package by package in input order,
/// and lists each in its package.
pub fn load_modules(
    input: &Vec<RawPackage>,
    ids: &mut IdentifierMap,
    packages: &mut Vec<Package>,
) -> (r: Result<
    (Vec<Module>, BTreeMap<ModuleKey, ModuleIndex>, Vec<(usize, usize)>),
    PackageAnalyzerError,
>)
    requires
        input_ok(input@),
        !has_duplicate_package(input@),
        old(ids).wf(),
        old(packages)@.len() == input@.len(),
        forall|p: int|
            0 <= p < input@.len() ==> package_loaded(#[trigger] old(packages)@[p], input@[p], p)
                && old(packages)@[p].modules@.len() == 0,
    ensures
        final(ids).wf(),
        is_prefix(old(ids)@, final(ids)@),
        final(packages)@.len() == input@.len(),
        forall|p: int| 0 <= p < input@.len() ==> package_loaded(#[trigger] final(packages)@[p], input@[p], p),
        r is Err ==> r->Err_0 is InvariantViolation,
        r is Err <==> has_duplicate_module(input@),
        r matches Ok((modules, map, sources)) ==> {
            &&& modules_from(input@, final(packages)@, modules@, sources@, final(ids)@)
            &&& module_map_consistent(final(packages)@, modules@, map@)
            &&& modules@.len() == modules_before(input@, input@.len() as int)
            &&& forall|p: int, k: int|
                0 <= p < input@.len() && 0 <= k < input@[p].modules@.len() ==> #[trigger] final(packages)@[p].modules@[k]
                    == modules_before(input@, p) + k
            &&& forall|m: int|
                0 <= m < modules@.len() ==> {
                    let md = #[trigger] modules@[m];
                    md.structs@.len() == 0 && md.functions@.len() == 0 && md.constants@.len() == 0
                        && md.dependencies@.len() == 0
                }
        },
{
    let ghost ids0 = ids@;
    let mut modules: Vec<Module> = Vec::new();
    let mut map: BTreeMap<ModuleKey, ModuleIndex> = BTreeMap::new();
    let mut sources: Vec<(usize, usize)> = Vec::new();
    let mut p: usize = 0;
    while p < input.len()
        invariant
            input_ok(input@),
            !has_duplicate_package(input@),
            ids.wf(),
            ids0 == old(ids)@,
            is_prefix(ids0, ids@),
            p <= input@.len(),
            forall|q: int| 0 <= q < input@.len() ==> package_loaded(#[trigger] packages@[q], input@[q], q),
            modules_loaded_upto(input@, packages@, modules@, sources@, ids@, p as int, 0),
            modules@.len() == modules_before(input@, p as int),
            forall|q: int, j: int|
                0 <= q < input@.len() && 0 <= j < packages@[q].modules@.len() ==> #[trigger] packages@[q].modules@[j]
                    == modules_before(input@, q) + j,
            module_map_consistent(packages@, modules@, map@),
            forall|m: int|
                0 <= m < modules@.len() ==> {
                    let md = #[trigger] modules@[m];
                    md.structs@.len() == 0 && md.functions@.len() == 0 && md.constants@.len() == 0
                        && md.dependencies@.len() == 0
                },
        decreases input@.len() - p,
    {
        let raw_package = &input[p];
        let mut k: usize = 0;
        while k < raw_package.modules.len()
            invariant
                input_ok(input@),
                !has_duplicate_package(input@),
                *raw_package == input@[p as int],
                ids.wf(),
                ids0 == old(ids)@,
                is_prefix(ids0, ids@),
                p < input@.len(),
                k <= raw_package.modules@.len(),
                forall|q: int| 0 <= q < input@.len() ==> package_loaded(#[trigger] packages@[q], input@[q], q),
                modules_loaded_upto(input@, packages@, modules@, sources@, ids@, p as int, k as int),
                modules@.len() == modules_before(input@, p as int) + k,
                forall|q: int, j: int|
                    0 <= q < input@.len() && 0 <= j < packages@[q].modules@.len() ==> #[trigger] packages@[q].modules@[j]
                        == modules_before(input@, q) + j,
                module_map_consistent(packages@, modules@, map@),
                forall|m: int|
                    0 <= m < modules@.len() ==> {
                        let md = #[trigger] modules@[m];
                        md.structs@.len() == 0 && md.functions@.len() == 0 && md.constants@.len() == 0
                            && md.dependencies@.len() == 0
                    },
            decreases raw_package.modules@.len() - k,
        {
            let raw = &raw_package.modules[k].1;
            proof {
                assert(module_ok(input@, p as int, k as int));
            }
            let module_name = raw.self_name_string();
            let ghost ids_before = ids@;
            let name = ids.get_identifier_idx(module_name);
            proof {
                assert forall|i: int| 0 <= i < ids0.len() implies #[trigger] ids@[i] == ids0[i] by {
                    assert(ids_before[i] == ids0[i]);
                }
            }
            let j = modules.len();
            let key: ModuleKey = (raw_package.id.hi, raw_package.id.lo, name);
            if map.contains_key(&key) {
                proof {
                    let m2 = map@[key] as int;
                    let md = modules@[m2];
                    assert(module_from(input@, packages@, md, m2, sources@[m2], ids@));
                    let q = sources@[m2].0 as int;
                    let k2 = sources@[m2].1 as int;
                    assert(module_key_of(packages@, md) == key);
                    assert(packages@[q].id == raw_package.id);
                    assert(package_loaded(packages@[q], input@[q], q));
                    assert(package_loaded(packages@[p as int], input@[p as int], p as int));
                    if q != p as int {
                        if q < p {
                            assert(input@[q].id == input@[p as int].id);
                        } else {
                            assert(input@[p as int].id == input@[q].id);
                        }
                        assert(has_duplicate_package(input@));
                    }
                    assert(packages@[q].modules@[k2] == m2);
                    assert(packages@[p as int].modules@.len() == k);
                    assert(k2 < k);
                    assert(module_ok(input@, q, k2));
                    assert(md.name == name);
                    assert(ids@[name as int] == raw.self_name());
                    assert(raw_at(input@, sources@[m2]).self_name() == ids@[name as int]);
                    assert(input@[p as int].modules@[k2].0@ == input@[p as int].modules@[k as int].0@);
                    assert(has_duplicate_module(input@));
                }
                return Err(duplicate(raw_package.id, module_name.as_str(), ""));
            }
            let self_handle = &raw.module_handles[raw.self_module_handle_idx];
            let md = Module {
                self_idx: j,
                package: p,
                name,
                module_id: ModuleId {
                    address: raw.address_identifiers[self_handle.address],
                    name: module_name.clone(),
                },
                dependencies: Vec::new(),
                structs: Vec::new(),
                functions: Vec::new(),
                constants: Vec::new(),
            };
            let ghost old_packages = packages@;
            let ghost old_modules = modules@;
            modules.push(md);
            sources.push((p, k));
            packages[p].modules.push(j);
            map.insert(key, j);
            proof {
                assert(packages@[p as int].modules@ == old_packages[p as int].modules@.push(j));
                assert forall|q: int| 0 <= q < input@.len() && q != p implies packages@[q] == old_packages[q] by {}
                assert forall|m: int| 0 <= m < modules@.len() implies module_from(
                    input@,
                    packages@,
                    #[trigger] modules@[m],
                    m,
                    sources@[m],
                    ids@,
                ) by {
                    if m < j {
                        assert(old_modules[m] == modules@[m]);
                        let src = sources@[m];
                        assert(old_packages[src.0 as int].modules@[src.1 as int] == m);
                        if src.0 == p {
                            assert(packages@[p as int].modules@[src.1 as int] == old_packages[p as int].modules@[src.1 as int]);
                        }
                    }
                }
                assert forall|q: int, jj: int|
                    0 <= q < input@.len() && 0 <= jj < packages@[q].modules@.len() implies {
                        let m = #[trigger] packages@[q].modules@[jj] as int;
                        0 <= m < modules@.len() && sources@[m] == (q as usize, jj as usize)
                    } by {
                    if q == p && jj == k {
                    } else if q == p {
                        assert(packages@[q].modules@[jj] == old_packages[q].modules@[jj]);
                    } else {
                        assert(packages@[q] == old_packages[q]);
                    }
                }
                assert forall|kk: ModuleKey| #[trigger] map@.contains_key(kk) implies {
                    let m = map@[kk] as int;
                    0 <= m < modules@.len() && module_key_of(packages@, modules@[m]) == kk
                } by {
                    if kk != key {
                        let m = map@[kk] as int;
                        assert(old_modules[m] == modules@[m]);
                        assert(packages@[modules@[m].package as int].id == old_packages[modules@[m].package as int].id);
                    }
                }
                assert forall|m: int| 0 <= m < modules@.len() implies #[trigger] map@.contains_key(module_key_of(packages@, modules@[m]))
                    && map@[module_key_of(packages@, modules@[m])] == m by {
                    if m < j {
                        assert(old_modules[m] == modules@[m]);
                        assert(packages@[modules@[m].package as int].id == old_packages[modules@[m].package as int].id);
                        assert(module_key_of(packages@, modules@[m]) == module_key_of(old_packages, old_modules[m]));
                        assert(module_key_of(packages@, modules@[m]) != key);
                    }
                }
            }
            k += 1;
        }
        proof {
            assert(modules_before(input@, p + 1) == modules_before(input@, p as int) + input@[p as int].modules@.len());
        }
        p += 1;
    }
    proof {
        if has_duplicate_module(input@) {
            let (p, k1, k2) = choose|p: int, k1: int, k2: int|
                0 <= p < input@.len() && 0 <= k1 < k2 < input@[p].modules@.len()
                    && #[trigger] input@[p].modules@[k1].0@ == #[trigger] input@[p].modules@[k2].0@;
            let m1 = packages@[p].modules@[k1] as int;
            let m2 = packages@[p].modules@[k2] as int;
            assert(module_from(input@, packages@, modules@[m1], m1, sources@[m1], ids@));
            assert(module_from(input@, packages@, modules@[m2], m2, sources@[m2], ids@));
            assert(module_ok(input@, p, k1));
            assert(module_ok(input@, p, k2));
            assert(sources@[m1] == (p as usize, k1 as usize));
            assert(sources@[m2] == (p as usize, k2 as usize));
            assert(input@.len() == input.len());
            assert(input@[p].modules@.len() == input@[p].modules.len());
            assert(raw_at(input@, sources@[m1]) == input@[p].modules@[k1].1);
            assert(raw_at(input@, sources@[m2]) == input@[p].modules@[k2].1);
            assert(ids@[modules@[m1].name as int] == input@[p].modules@[k1].0@);
            assert(ids@[modules@[m2].name as int] == input@[p].modules@[k2].0@);
            ids.lemma_distinct();
            assert(ids@[modules@[m1].name as int] == ids@[modules@[m2].name as int]);
            assert(modules@[m1].name == modules@[m2].name);
            assert(module_key_of(packages@, modules@[m1]) == module_key_of(packages@, modules@[m2]));
            assert(map@.contains_key(module_key_of(packages@, modules@[m1])));
            assert(map@.contains_key(module_key_of(packages@, modules@[m2])));
        }
    }
    Ok((modules, map, sources))
}


fn copy_vec<T: Copy>(v: &Vec<T>) -> (r: Vec<T>)
    ensures
        r@ == v@,
{
    let mut r: Vec<T> = Vec::new();
    let mut k: usize = 0;
    while k < v.len()
        invariant
            k <= v@.len(),
            r@ == v@.subrange(0, k as int),
        decreases v@.len() - k,
    {
        r.push(v[k]);
        k += 1;
        assert(r@ =~= v@.subrange(0, k as int));
    }
    assert(v@.subrange(0, k as int) =~= v@);
    r
}

/// The struct handle of definition `d` of `raw`.
pub open spec fn def_handle(raw: RawModule, d: int) -> int {
    raw.struct_defs@[d].struct_handle as int
}

/// Struct `s` was loaded from definition `st.def_idx` of module `st.module`.
pub open spec fn struct_from(
    input: Seq<RawPackage>,
    modules: Seq<Module>,
    sources: Seq<(usize, usize)>,
    ids: Seq<Seq<char>>,
    st: Struct,
    s: int,
) -> bool {
    let raw = raw_at(input, sources[st.module as int]);
    &&& st.self_idx == s
    &&& st.module < modules.len()
    &&& st.package == modules[st.module as int].package
    &&& st.def_idx < raw.struct_defs@.len()
    &&& modules[st.module as int].structs@.len() > st.def_idx
    &&& modules[st.module as int].structs@[st.def_idx as int] == s
    &&& st.name < ids.len()
    &&& ids[st.name as int] == raw.struct_handle_name(def_handle(raw, st.def_idx as int))
    &&& st.abilities == raw.struct_handles@[def_handle(raw, st.def_idx as int)].abilities
    &&& st.type_parameters@ == raw.struct_handles@[def_handle(raw, st.def_idx as int)].type_parameters@
}

/// The canonical key of struct `st`.
pub open spec fn struct_key_of(packages: Seq<Package>, modules: Seq<Module>, st: Struct) -> EntityKey {
    let a = packages[st.package as int].id;
    (a.hi, a.lo, modules[st.module as int].name, st.name)
}

/// The struct map sends exactly the key of every struct to it.
pub open spec fn struct_map_consistent(
    packages: Seq<Package>,
    modules: Seq<Module>,
    structs: Seq<Struct>,
    map: Map<EntityKey, StructIndex>,
) -> bool {
    &&& forall|k: EntityKey| #[trigger]
        map.contains_key(k) ==> {
            let s = map[k] as int;
            0 <= s < structs.len() && struct_key_of(packages, modules, structs[s]) == k
        }
    &&& forall|s: int|
        0 <= s < structs.len() ==> #[trigger] map.contains_key(struct_key_of(packages, modules, structs[s]))
            && map[struct_key_of(packages, modules, structs[s])] == s
}

/// Structs were loaded from every definition of the modules before `m`, and
/// from the first `d` of module `m`.
pub open spec fn structs_loaded_upto(
    input: Seq<RawPackage>,
    modules: Seq<Module>,
    sources: Seq<(usize, usize)>,
    ids: Seq<Seq<char>>,
    structs: Seq<Struct>,
    m: int,
    d: int,
) -> bool {
    &&& forall|s: int|
        0 <= s < structs.len() ==> struct_from(input, modules, sources, ids, #[trigger] structs[s], s)
    &&& forall|q: int|
        0 <= q < modules.len() ==> (#[trigger] modules[q]).structs@.len() == if q < m {
            raw_at(input, sources[q]).struct_defs@.len() as int
        } else if q == m {
            d
        } else {
            0
        }
    &&& forall|q: int, j: int|
        0 <= q < modules.len() && 0 <= j < modules[q].structs@.len() ==> {
            let s = #[trigger] modules[q].structs@[j] as int;
            0 <= s < structs.len() && structs[s].module == q && structs[s].def_idx == j
        }
}

/// Module `md` is `old` with its struct list filled in.
pub open spec fn same_but_structs(md: Module, old: Module) -> bool {
    &&& md.self_idx == old.self_idx
    &&& md.package == old.package
    &&& md.name == old.name
    &&& md.module_id == old.module_id
    &&& md.dependencies == old.dependencies
    &&& md.functions == old.functions
    &&& md.constants == old.constants
}


/// Two modules of one package with one name index are one module.
proof fn lemma_module_by_name(
    input: Seq<RawPackage>,
    packages: Seq<Package>,
    modules: Seq<Module>,
    sources: Seq<(usize, usize)>,
    ids: Seq<Seq<char>>,
    m1: int,
    m2: int,
)
    requires
        input_ok(input),
        !has_duplicate_module(input),
        modules_from(input, packages, modules, sources, ids),
        0 <= m1 < modules.len(),
        0 <= m2 < modules.len(),
        modules[m1].package == modules[m2].package,
        modules[m1].name == modules[m2].name,
    ensures
        m1 == m2,
{
    assert(module_from(input, packages, modules[m1], m1, sources[m1], ids));
    assert(module_from(input, packages, modules[m2], m2, sources[m2], ids));
    let p = sources[m1].0 as int;
    let k1 = sources[m1].1 as int;
    let k2 = sources[m2].1 as int;
    assert(module_ok(input, p, k1));
    assert(module_ok(input, p, k2));
    if k1 < k2 {
        assert(input[p].modules@[k1].0@ == input[p].modules@[k2].0@);
        assert(has_duplicate_module(input));
    } else if k2 < k1 {
        assert(input[p].modules@[k2].0@ == input[p].modules@[k1].0@);
        assert(has_duplicate_module(input));
    }
}

/// A package's address names it alone.
proof fn lemma_package_unique(input: Seq<RawPackage>, packages: Seq<Package>, p: int, q: int)
    requires
        !has_duplicate_package(input),
        packages.len() == input.len(),
        forall|i: int| 0 <= i < input.len() ==> package_loaded(#[trigger] packages[i], input[i], i),
        0 <= p < input.len(),
        0 <= q < input.len(),
        packages[p].id == packages[q].id,
    ensures
        p == q,
{
    assert(package_loaded(packages[p], input[p], p));
    assert(package_loaded(packages[q], input[q], q));
    if p < q {
        assert(has_duplicate_package(input));
    } else if q < p {
        assert(has_duplicate_package(input));
    }
}

/// A struct key that is taken already when definition `d` of module `m` is
/// loaded belongs to an earlier definition of the same name in `m`.
proof fn lemma_struct_key_clash(
    input: Seq<RawPackage>,
    packages: Seq<Package>,
    modules0: Seq<Module>,
    modules: Seq<Module>,
    sources: Seq<(usize, usize)>,
    ids0: Seq<Seq<char>>,
    ids: Seq<Seq<char>>,
    structs: Seq<Struct>,
    map: Map<EntityKey, StructIndex>,
    m: int,
    d: int,
    key: EntityKey,
    name: usize,
)
    requires
        input.len() <= usize::MAX,
        forall|p: int| 0 <= p < input.len() ==> (#[trigger] input[p]).modules@.len() <= usize::MAX,
        input_ok(input),
        !has_duplicate_package(input),
        !has_duplicate_module(input),
        forall|p: int| 0 <= p < input.len() ==> package_loaded(#[trigger] packages[p], input[p], p),
        modules_from(input, packages, modules0, sources, ids0),
        is_prefix(ids0, ids),
        crate::identifiers::distinct(ids),
        modules.len() == modules0.len(),
        forall|q: int| 0 <= q < modules0.len() ==> same_but_structs(#[trigger] modules[q], modules0[q]),
        structs_loaded_upto(input, modules, sources, ids, structs, m, d),
        struct_map_consistent(packages, modules, structs, map),
        0 <= m < modules.len(),
        0 <= d < raw_at(input, sources[m]).struct_defs@.len(),
        map.contains_key(key),
        key == (packages[modules[m].package as int].id.hi, packages[modules[m].package as int].id.lo, modules[m].name, name),
        (name as int) < ids.len(),
        ids[name as int] == raw_at(input, sources[m]).struct_handle_name(def_handle(raw_at(input, sources[m]), d)),
    ensures
        has_duplicate_struct(input),
{
    let t = map[key] as int;
    let st = structs[t];
    assert(struct_from(input, modules, sources, ids, st, t));
    assert(struct_key_of(packages, modules, st) == key);
    assert(module_from(input, packages, modules0[m], m, sources[m], ids0));
    assert(module_from(input, packages, modules0[st.module as int], st.module as int, sources[st.module as int], ids0));
    assert(same_but_structs(modules[m], modules0[m]));
    assert(same_but_structs(modules[st.module as int], modules0[st.module as int]));
    let pid = packages[modules[m].package as int].id;
    assert(packages[st.package as int].id == pid);
    lemma_package_unique(input, packages, st.package as int, modules[m].package as int);
    lemma_module_by_name(input, packages, modules0, sources, ids0, st.module as int, m);
    assert(st.module == m);
    assert(modules[m].structs@.len() == d);
    assert(st.def_idx < d);
    assert(st.name == name);
    let p = sources[m].0 as int;
    let k = sources[m].1 as int;
    assert(raw_at(input, sources[m]) == input[p].modules@[k].1);
    assert(struct_name_at(input, p, k, st.def_idx as int) == struct_name_at(input, p, k, d));
}

/// Loaded structs with distinct keys mean no module defines two structs of
/// one name.
proof fn lemma_no_struct_clash(
    input: Seq<RawPackage>,
    packages: Seq<Package>,
    modules0: Seq<Module>,
    modules: Seq<Module>,
    sources: Seq<(usize, usize)>,
    ids0: Seq<Seq<char>>,
    ids: Seq<Seq<char>>,
    structs: Seq<Struct>,
    map: Map<EntityKey, StructIndex>,
)
    requires
        input.len() <= usize::MAX,
        forall|p: int| 0 <= p < input.len() ==> (#[trigger] input[p]).modules@.len() <= usize::MAX,
        input_ok(input),
        modules_from(input, packages, modules0, sources, ids0),
        is_prefix(ids0, ids),
        crate::identifiers::distinct(ids),
        modules.len() == modules0.len(),
        forall|q: int| 0 <= q < modules0.len() ==> same_but_structs(#[trigger] modules[q], modules0[q]),
        structs_loaded_upto(input, modules, sources, ids, structs, modules.len() as int, 0),
        struct_map_consistent(packages, modules, structs, map),
    ensures
        !has_duplicate_struct(input),
{
    if has_duplicate_struct(input) {
        let (p, k, d1, d2) = choose|p: int, k: int, d1: int, d2: int|
            0 <= p < input.len() && 0 <= k < input[p].modules@.len() && 0 <= d1 < d2
                < input[p].modules@[k].1.struct_defs@.len() && #[trigger] struct_name_at(input, p, k, d1)
                == #[trigger] struct_name_at(input, p, k, d2);
        let m = packages[p].modules@[k] as int;
        assert(sources[m] == (p as usize, k as usize));
        assert(module_from(input, packages, modules0[m], m, sources[m], ids0));
        assert(raw_at(input, sources[m]) == input[p].modules@[k].1);
        assert(same_but_structs(modules[m], modules0[m]));
        let s1 = modules[m].structs@[d1] as int;
        let s2 = modules[m].structs@[d2] as int;
        assert(struct_from(input, modules, sources, ids, structs[s1], s1));
        assert(struct_from(input, modules, sources, ids, structs[s2], s2));
        assert(ids[structs[s1].name as int] == ids[structs[s2].name as int]);
        assert(structs[s1].name == structs[s2].name);
        assert(struct_key_of(packages, modules, structs[s1]) == struct_key_of(packages, modules, structs[s2]));
        assert(map.contains_key(struct_key_of(packages, modules, structs[s1])));
        assert(map.contains_key(struct_key_of(packages, modules, structs[s2])));
    }
}

/// Creates one struct per struct definition, module by module, and lists
/// each in its module.
pub fn load_structs(
    input: &Vec<RawPackage>,
    sources: &Vec<(usize, usize)>,
    ids: &mut IdentifierMap,
    modules: &mut Vec<Module>,
    packages: &Vec<Package>,
) -> (r: Result<(Vec<Struct>, BTreeMap<EntityKey, StructIndex>), PackageAnalyzerError>)
    requires
        forall|p: int, k: int|
            0 <= p < input@.len() && 0 <= k < input@[p].modules@.len() ==> #[trigger] packages@[p].modules@[k]
                == modules_before(input@, p) + k,
        input_ok(input@),
        !has_duplicate_package(input@),
        !has_duplicate_module(input@),
        forall|p: int| 0 <= p < input@.len() ==> package_loaded(#[trigger] packages@[p], input@[p], p),
        old(ids).wf(),
        modules_from(input@, packages@, old(modules)@, sources@, old(ids)@),
        forall|m: int| 0 <= m < old(modules)@.len() ==> (#[trigger] old(modules)@[m]).structs@.len() == 0,
    ensures
        final(ids).wf(),
        is_prefix(old(ids)@, final(ids)@),
        final(modules)@.len() == old(modules)@.len(),
        forall|m: int|
            0 <= m < old(modules)@.len() ==> same_but_structs(#[trigger] final(modules)@[m], old(modules)@[m]),
        r is Err ==> r->Err_0 is InvariantViolation,
        r is Err <==> has_duplicate_struct(input@),
        r matches Ok((structs, map)) ==> {
            &&& structs_loaded_upto(input@, final(modules)@, sources@, final(ids)@, structs@, final(modules)@.len() as int, 0)
            &&& struct_map_consistent(packages@, final(modules)@, structs@, map@)
            &&& structs@.len() == structs_before(input@, final(modules)@.len() as int)
            &&& forall|q: int, j: int|
                0 <= q < final(modules)@.len() && 0 <= j < final(modules)@[q].structs@.len() ==> #[trigger] final(modules)@[q].structs@[j]
                    == structs_before(input@, q) + j
            &&& forall|s: int| 0 <= s < structs@.len() ==> (#[trigger] structs@[s]).fields@.len() == 0
        },
{
    let ghost ids0 = ids@;
    let ghost modules0 = modules@;
    let mut structs: Vec<Struct> = Vec::new();
    let mut map: BTreeMap<EntityKey, StructIndex> = BTreeMap::new();
    let mut m: usize = 0;
    while m < modules.len()
        invariant
            forall|p: int, k: int|
                0 <= p < input@.len() && 0 <= k < input@[p].modules@.len() ==> #[trigger] packages@[p].modules@[k]
                        == modules_before(input@, p) + k,
            structs@.len() == structs_before(input@, m as int),
            forall|q: int, j: int|
                0 <= q < modules@.len() && 0 <= j < modules@[q].structs@.len() ==> #[trigger] modules@[q].structs@[j]
                    == structs_before(input@, q) + j,
            input_ok(input@),
            !has_duplicate_package(input@),
            !has_duplicate_module(input@),
            forall|p: int| 0 <= p < input@.len() ==> package_loaded(#[trigger] packages@[p], input@[p], p),
            ids.wf(),
            ids0 == old(ids)@,
            modules0 == old(modules)@,
            is_prefix(ids0, ids@),
            m <= modules@.len(),
            modules@.len() == modules0.len(),
            modules_from(input@, packages@, modules0, sources@, ids0),
            forall|q: int| 0 <= q < modules0.len() ==> same_but_structs(#[trigger] modules@[q], modules0[q]),
            structs_loaded_upto(input@, modules@, sources@, ids@, structs@, m as int, 0),
            struct_map_consistent(packages@, modules@, structs@, map@),
            forall|s: int| 0 <= s < structs@.len() ==> (#[trigger] structs@[s]).fields@.len() == 0,
        decreases modules@.len() - m,
    {
        let src = sources[m];
        proof {
            assert(module_from(input@, packages@, modules0[m as int], m as int, sources@[m as int], ids0));
            assert(module_ok(input@, src.0 as int, src.1 as int));
        }
        let raw = &input[src.0].modules[src.1].1;
        let package_id = packages[modules[m].package].id;
        let module_name_idx = modules[m].name;
        let mut d: usize = 0;
        while d < raw.struct_defs.len()
            invariant
                forall|p: int, k: int|
                    0 <= p < input@.len() && 0 <= k < input@[p].modules@.len() ==> #[trigger] packages@[p].modules@[k]
                                == modules_before(input@, p) + k,
                structs@.len() == structs_before(input@, m as int) + d,
                forall|q: int, j: int|
                    0 <= q < modules@.len() && 0 <= j < modules@[q].structs@.len() ==> #[trigger] modules@[q].structs@[j]
                        == structs_before(input@, q) + j,
                input_ok(input@),
                !has_duplicate_package(input@),
                !has_duplicate_module(input@),
                forall|p: int| 0 <= p < input@.len() ==> package_loaded(#[trigger] packages@[p], input@[p], p),
                ids.wf(),
                ids0 == old(ids)@,
                modules0 == old(modules)@,
                is_prefix(ids0, ids@),
                m < modules@.len(),
                modules@.len() == modules0.len(),
                src == sources@[m as int],
                *raw == raw_at(input@, src),
                raw.wf(),
                package_id == packages@[modules@[m as int].package as int].id,
                module_name_idx == modules@[m as int].name,
                d <= raw.struct_defs@.len(),
                src.0 < input@.len() && src.1 < input@[src.0 as int].modules@.len(),
                modules_from(input@, packages@, modules0, sources@, ids0),
                forall|q: int| 0 <= q < modules0.len() ==> same_but_structs(#[trigger] modules@[q], modules0[q]),
                structs_loaded_upto(input@, modules@, sources@, ids@, structs@, m as int, d as int),
                struct_map_consistent(packages@, modules@, structs@, map@),
                forall|s: int| 0 <= s < structs@.len() ==> (#[trigger] structs@[s]).fields@.len() == 0,
            decreases raw.struct_defs@.len() - d,
        {
            proof {
                assert(raw.struct_def_wf(raw.struct_defs@[d as int]));
            }
            let handle = &raw.struct_handles[raw.struct_defs[d].struct_handle];
            let ghost ids_before = ids@;
            let name = ids.get_identifier_idx(&raw.identifiers[handle.name]);
            proof {
                assert forall|i: int| 0 <= i < ids0.len() implies #[trigger] ids@[i] == ids0[i] by {
                    assert(ids_before[i] == ids0[i]);
                }
            }
            let key: EntityKey = (package_id.hi, package_id.lo, module_name_idx, name);
            if map.contains_key(&key) {
                proof {
                    ids.lemma_distinct();
                    assert(input@.len() == input.len());
                    assert forall|q: int| 0 <= q < input@.len() implies (#[trigger] input@[q]).modules@.len() <= usize::MAX by {
                        assert(input@[q].modules@.len() == input@[q].modules.len());
                    }
                    lemma_struct_key_clash(input@, packages@, modules0, modules@, sources@, ids0, ids@, structs@, map@, m as int, d as int, key, name);
                }
                return Err(duplicate(package_id, raw.self_name_string().as_str(), raw.identifiers[handle.name].as_str()));
            }
            let s = structs.len();
            let st = Struct {
                self_idx: s,
                package: modules[m].package,
                module: m,
                name,
                def_idx: d,
                abilities: handle.abilities,
                type_parameters: copy_vec(&handle.type_parameters),
                fields: Vec::new(),
            };
            let ghost old_modules = modules@;
            let ghost old_structs = structs@;
            let ghost old_map = map@;
            structs.push(st);
            modules[m].structs.push(s);
            map.insert(key, s);
            proof {
                assert(modules@[m as int].structs@ == old_modules[m as int].structs@.push(s));
                assert forall|q: int| 0 <= q < modules@.len() && q != m implies modules@[q] == old_modules[q] by {}
                assert forall|t: int| 0 <= t < structs@.len() implies struct_from(
                    input@,
                    modules@,
                    sources@,
                    ids@,
                    #[trigger] structs@[t],
                    t,
                ) by {
                    if t < s {
                        assert(old_structs[t] == structs@[t]);
                        let mt = structs@[t].module as int;
                        if mt == m {
                            assert(modules@[mt].structs@[structs@[t].def_idx as int] == old_modules[mt].structs@[structs@[t].def_idx as int]);
                        }
                    }
                }
                assert forall|q: int, j: int|
                    0 <= q < modules@.len() && 0 <= j < modules@[q].structs@.len() implies {
                        let t = #[trigger] modules@[q].structs@[j] as int;
                        0 <= t < structs@.len() && structs@[t].module == q && structs@[t].def_idx == j
                    } by {
                    if q == m && j == d {
                    } else if q == m {
                        assert(modules@[q].structs@[j] == old_modules[q].structs@[j]);
                    } else {
                        assert(modules@[q] == old_modules[q]);
                    }
                }
                assert forall|t: int| 0 <= t < structs@.len() implies struct_key_of(packages@, modules@, structs@[t]) == struct_key_of(packages@, old_modules, #[trigger] structs@[t]) by {
                    assert(modules@[structs@[t].module as int].name == old_modules[structs@[t].module as int].name);
                }
                assert forall|kk: EntityKey| #[trigger] map@.contains_key(kk) implies {
                    let t = map@[kk] as int;
                    0 <= t < structs@.len() && struct_key_of(packages@, modules@, structs@[t]) == kk
                } by {
                    if kk != key {
                        let t = map@[kk] as int;
                        assert(old_map.contains_key(kk));
                        assert(old_structs[t] == structs@[t]);
                        assert(struct_key_of(packages@, modules@, structs@[t]) == struct_key_of(packages@, old_modules, old_structs[t]));
                    }
                }
                assert forall|t: int| 0 <= t < structs@.len() implies #[trigger] map@.contains_key(struct_key_of(packages@, modules@, structs@[t]))
                    && map@[struct_key_of(packages@, modules@, structs@[t])] == t by {
                    if t < s {
                        assert(old_structs[t] == structs@[t]);
                        assert(struct_key_of(packages@, modules@, structs@[t]) == struct_key_of(packages@, old_modules, old_structs[t]));
                        assert(old_map.contains_key(struct_key_of(packages@, old_modules, old_structs[t])));
                        assert(struct_key_of(packages@, modules@, structs@[t]) != key);
                    }
                }
            }
            d += 1;
        }
        proof {
            let p = src.0 as int;
            let k = src.1 as int;
            assert(module_from(input@, packages@, modules0[m as int], m as int, sources@[m as int], ids0));
            assert(packages@[p].modules@[k] == m);
            lemma_raw_of_module(input@, p, k);
            assert(raw_of_module(input@, m as int) == *raw);
            assert(structs_before(input@, m + 1) == structs_before(input@, m as int) + raw.struct_defs@.len());
        }
        m += 1;
    }
    proof {
        ids.lemma_distinct();
        assert(input@.len() == input.len());
        assert forall|q: int| 0 <= q < input@.len() implies (#[trigger] input@[q]).modules@.len() <= usize::MAX by {
            assert(input@[q].modules@.len() == input@[q].modules.len());
        }
        lemma_no_struct_clash(input@, packages@, modules0, modules@, sources@, ids0, ids@, structs@, map@);
    }
    Ok((structs, map))
}



/// The fields that definition `d` of `raw` declares; none for a native struct.
pub open spec fn declared_fields(raw: RawModule, d: int) -> Seq<crate::file_format::FieldDefinition> {
    match raw.struct_defs@[d].field_information {
        StructFieldInformation::Native => Seq::empty(),
        StructFieldInformation::Declared(fields) => fields@,
    }
}

/// The name of field `j` of definition `d` of the module at global index `m`.
pub open spec fn field_name_at(input: Seq<RawPackage>, sources: Seq<(usize, usize)>, m: int, d: int, j: int) -> Seq<char> {
    let raw = raw_at(input, sources[m]);
    raw.identifiers@[declared_fields(raw, d)[j].name as int]@
}

/// Every field name of every struct definition of the first `n` modules is interned.
pub open spec fn field_names_in(input: Seq<RawPackage>, sources: Seq<(usize, usize)>, n: int, ids: Seq<Seq<char>>) -> bool {
    forall|m: int, d: int, j: int|
        0 <= m < n && 0 <= d < raw_at(input, sources[m]).struct_defs@.len() && 0 <= j < declared_fields(
            raw_at(input, sources[m]),
            d,
        ).len() ==> ids.contains(#[trigger] field_name_at(input, sources, m, d, j))
}

/// Names in a pool stay in it as the pool grows.
pub proof fn lemma_prefix_contains(a: Seq<Seq<char>>, b: Seq<Seq<char>>, x: Seq<char>)
    requires
        is_prefix(a, b),
        a.contains(x),
    ensures
        b.contains(x),
{
    let i = choose|i: int| 0 <= i < a.len() && a[i] == x;
    assert(b[i] == x);
}

/// Interned field names stay interned as the table grows.
pub proof fn lemma_field_names_grow(
    input: Seq<RawPackage>,
    sources: Seq<(usize, usize)>,
    n: int,
    a: Seq<Seq<char>>,
    b: Seq<Seq<char>>,
)
    requires
        field_names_in(input, sources, n, a),
        is_prefix(a, b),
    ensures
        field_names_in(input, sources, n, b),
{
    assert forall|m: int, d: int, j: int|
        0 <= m < n && 0 <= d < raw_at(input, sources[m]).struct_defs@.len() && 0 <= j < declared_fields(
            raw_at(input, sources[m]),
            d,
        ).len() implies b.contains(#[trigger] field_name_at(input, sources, m, d, j)) by {
        lemma_prefix_contains(a, b, field_name_at(input, sources, m, d, j));
    }
}

/// Interns the field names of every struct definition, module by module.
pub fn intern_field_names(
    input: &Vec<RawPackage>,
    sources: &Vec<(usize, usize)>,
    n_modules: usize,
    ids: &mut IdentifierMap,
)
    requires
        input_ok(input@),
        old(ids).wf(),
        n_modules == sources@.len(),
        forall|m: int| 0 <= m < n_modules ==> {
            let src = #[trigger] sources@[m];
            src.0 < input@.len() && src.1 < input@[src.0 as int].modules@.len()
        },
    ensures
        final(ids).wf(),
        is_prefix(old(ids)@, final(ids)@),
        field_names_in(input@, sources@, n_modules as int, final(ids)@),
{
    let ghost ids0 = ids@;
    let mut m: usize = 0;
    while m < n_modules
        invariant
            input_ok(input@),
            ids.wf(),
            ids0 == old(ids)@,
            is_prefix(ids0, ids@),
            n_modules == sources@.len(),
            forall|q: int| 0 <= q < n_modules ==> {
                let src = #[trigger] sources@[q];
                src.0 < input@.len() && src.1 < input@[src.0 as int].modules@.len()
            },
            m <= n_modules,
            field_names_in(input@, sources@, m as int, ids@),
        decreases n_modules - m,
    {
        let src = sources[m];
        proof {
            assert(module_ok(input@, src.0 as int, src.1 as int));
        }
        let raw = &input[src.0].modules[src.1].1;
        let mut d: usize = 0;
        while d < raw.struct_defs.len()
            invariant
                ids.wf(),
                ids0 == old(ids)@,
                is_prefix(ids0, ids@),
                m < n_modules,
                n_modules == sources@.len(),
                src == sources@[m as int],
                *raw == raw_at(input@, src),
                raw.wf(),
                d <= raw.struct_defs@.len(),
                field_names_in(input@, sources@, m as int, ids@),
                forall|dd: int, j: int|
                    0 <= dd < d && 0 <= j < declared_fields(*raw, dd).len() ==> ids@.contains(
                        #[trigger] field_name_at(input@, sources@, m as int, dd, j),
                    ),
            decreases raw.struct_defs@.len() - d,
        {
            proof {
                assert(raw.struct_def_wf(raw.struct_defs@[d as int]));
            }
            match &raw.struct_defs[d].field_information {
                StructFieldInformation::Native => {},
                StructFieldInformation::Declared(fields) => {
                    let mut j: usize = 0;
                    while j < fields.len()
                        invariant
                            ids.wf(),
                            ids0 == old(ids)@,
                            is_prefix(ids0, ids@),
                            m < n_modules,
                            n_modules == sources@.len(),
                            src == sources@[m as int],
                            *raw == raw_at(input@, src),
                            raw.wf(),
                            d < raw.struct_defs@.len(),
                            raw.struct_def_wf(raw.struct_defs@[d as int]),
                            raw.struct_defs@[d as int].field_information == StructFieldInformation::Declared(*fields),
                            j <= fields@.len(),
                            field_names_in(input@, sources@, m as int, ids@),
                            forall|dd: int, jj: int|
                                0 <= dd < d && 0 <= jj < declared_fields(*raw, dd).len() ==> ids@.contains(
                                    #[trigger] field_name_at(input@, sources@, m as int, dd, jj),
                                ),
                            forall|jj: int| 0 <= jj < j ==> ids@.contains(
                                #[trigger] field_name_at(input@, sources@, m as int, d as int, jj),
                            ),
                        decreases fields@.len() - j,
                    {
                        let ghost before = ids@;
                        let idx = ids.get_identifier_idx(&raw.identifiers[fields[j].name]);
                        proof {
                            assert(is_prefix(before, ids@));
                            assert forall|i: int| 0 <= i < ids0.len() implies #[trigger] ids@[i] == ids0[i] by {
                                assert(before[i] == ids0[i]);
                            }
                            assert forall|mm: int, dd: int, jj: int|
                                0 <= mm < m && 0 <= dd < raw_at(input@, sources@[mm]).struct_defs@.len() && 0 <= jj
                                    < declared_fields(raw_at(input@, sources@[mm]), dd).len() implies ids@.contains(
                                    #[trigger] field_name_at(input@, sources@, mm, dd, jj),
                                ) by {
                                lemma_prefix_contains(before, ids@, field_name_at(input@, sources@, mm, dd, jj));
                            }
                            assert forall|dd: int, jj: int|
                                0 <= dd < d && 0 <= jj < declared_fields(*raw, dd).len() implies ids@.contains(
                                    #[trigger] field_name_at(input@, sources@, m as int, dd, jj),
                                ) by {
                                lemma_prefix_contains(before, ids@, field_name_at(input@, sources@, m as int, dd, jj));
                            }
                            assert forall|jj: int| 0 <= jj < j + 1 implies ids@.contains(
                                #[trigger] field_name_at(input@, sources@, m as int, d as int, jj),
                            ) by {
                                if jj < j {
                                    lemma_prefix_contains(before, ids@, field_name_at(input@, sources@, m as int, d as int, jj));
                                } else {
                                    assert(ids@[idx as int] == field_name_at(input@, sources@, m as int, d as int, jj));
                                }
                            }
                        }
                        j += 1;
                    }
                },
            }
            d += 1;
        }
        m += 1;
    }
}

/// Resolves the declared fields of a struct of `raw`, a module of package `pkg`.
fn resolve_fields(
    ids: &IdentifierMap,
    builder: &TypeBuilder,
    pkg: usize,
    raw: &RawModule,
    raw_fields: &Vec<crate::file_format::FieldDefinition>,
) -> (r: Result<Vec<Field>, PackageAnalyzerError>)
    requires
        ids.wf(),
        builder.wf(),
        raw.wf(),
        pkg < builder.packages@.len(),
        forall|j: int|
            0 <= j < raw_fields@.len() ==> {
                let f = #[trigger] raw_fields@[j];
                f.name < raw.identifiers@.len() && crate::file_format::token_wf(
                    f.signature,
                    raw.struct_handles@.len(),
                ) && ids@.contains(raw.identifiers@[f.name as int]@)
            },
    ensures
        r is Ok <==> forall|j: int|
            0 <= j < raw_fields@.len() ==> builder.context(ids@).token_resolvable(
                pkg as int,
                *raw,
                (#[trigger] raw_fields@[j]).signature,
            ),
        r is Ok ==> r->Ok_0@.len() == raw_fields@.len(),
        r is Ok ==> forall|j: int|
            0 <= j < r->Ok_0@.len() ==> field_loaded(builder.context(ids@), pkg as int, *raw, #[trigger] r->Ok_0@[j], raw_fields@[j], builder.struct_count as nat),
        r is Err ==> r->Err_0 is UnresolvedSymbol || r->Err_0 is UnsupportedConstruct,
        r is Err ==> exists|j: int|
            0 <= j < raw_fields@.len() && builder.context(ids@).token_error(
                pkg as int,
                *raw,
                (#[trigger] raw_fields@[j]).signature,
                r->Err_0,
            ),
{
    let ghost ctx = builder.context(ids@);
    let mut fields: Vec<Field> = Vec::new();
    let mut k: usize = 0;
    while k < raw_fields.len()
        invariant
            ids.wf(),
            builder.wf(),
            raw.wf(),
            ctx == builder.context(ids@),
            pkg < builder.packages@.len(),
            forall|j: int|
                0 <= j < raw_fields@.len() ==> {
                    let f = #[trigger] raw_fields@[j];
                    f.name < raw.identifiers@.len() && crate::file_format::token_wf(
                        f.signature,
                        raw.struct_handles@.len(),
                    ) && ids@.contains(raw.identifiers@[f.name as int]@)
                },
            k <= raw_fields@.len(),
            fields@.len() == k,
            forall|j: int| 0 <= j < k ==> ctx.token_resolvable(pkg as int, *raw, (#[trigger] raw_fields@[j]).signature),
            forall|j: int|
                0 <= j < k ==> field_loaded(ctx, pkg as int, *raw, #[trigger] fields@[j], raw_fields@[j], builder.struct_count as nat),
        decreases raw_fields@.len() - k,
    {
        let f = &raw_fields[k];
        let name = match ids.lookup(&raw.identifiers[f.name]) {
            Some(i) => i,
            None => {
                proof {
                    assert(ids@.contains(raw.identifiers@[f.name as int]@));
                }
                0
            },
        };
        let type_ = match builder.make_type(ids, pkg, raw, &f.signature) {
            Ok(t) => t,
            Err(e) => {
                proof {
                    assert(ctx.token_error(pkg as int, *raw, raw_fields@[k as int].signature, e));
                }
                return Err(e);
            },
        };
        fields.push(Field { name, type_ });
        k += 1;
    }
    Ok(fields)
}

/// Field `fl` was loaded from the declaration `f` of a struct of `raw`: its
/// name is the declared one, its type the resolution of the declared type.
pub open spec fn field_loaded(
    ctx: crate::resolver::TypeContext,
    pkg: int,
    raw: RawModule,
    fl: Field,
    f: crate::file_format::FieldDefinition,
    n_structs: nat,
) -> bool {
    &&& fl.name < ctx.identifiers.len()
    &&& ctx.identifiers[fl.name as int] == raw.identifiers@[f.name as int]@
    &&& ctx.token_resolves_to(pkg, raw, f.signature, fl.type_)
    &&& type_valid(fl.type_, n_structs)
}

/// Resolves the constant pool of `raw`, a module of package `pkg`.
fn resolve_constants(ids: &IdentifierMap, builder: &TypeBuilder, pkg: usize, raw: &RawModule) -> (r:
    Result<Vec<Constant>, PackageAnalyzerError>)
    requires
        ids.wf(),
        builder.wf(),
        raw.wf(),
        pkg < builder.packages@.len(),
    ensures
        r is Ok <==> forall|j: int|
            0 <= j < raw.constant_pool@.len() ==> builder.context(ids@).token_resolvable(
                pkg as int,
                *raw,
                (#[trigger] raw.constant_pool@[j]).type_,
            ),
        r is Ok ==> r->Ok_0@.len() == raw.constant_pool@.len(),
        r is Ok ==> forall|j: int|
            0 <= j < r->Ok_0@.len() ==> (#[trigger] r->Ok_0@[j]).constant == j && type_valid(
                r->Ok_0@[j].type_,
                builder.struct_count as nat,
            ) && builder.context(ids@).token_resolves_to(pkg as int, *raw, raw.constant_pool@[j].type_, r->Ok_0@[j].type_),
        r is Err ==> r->Err_0 is UnresolvedSymbol || r->Err_0 is UnsupportedConstruct,
        r is Err ==> exists|j: int|
            0 <= j < raw.constant_pool@.len() && builder.context(ids@).token_error(
                pkg as int,
                *raw,
                (#[trigger] raw.constant_pool@[j]).type_,
                r->Err_0,
            ),
{
    let ghost ctx = builder.context(ids@);
    let mut constants: Vec<Constant> = Vec::new();
    let mut k: usize = 0;
    while k < raw.constant_pool.len()
        invariant
            ids.wf(),
            builder.wf(),
            raw.wf(),
            ctx == builder.context(ids@),
            pkg < builder.packages@.len(),
            k <= raw.constant_pool@.len(),
            constants@.len() == k,
            forall|j: int| 0 <= j < k ==> ctx.token_resolvable(pkg as int, *raw, (#[trigger] raw.constant_pool@[j]).type_),
            forall|j: int| 0 <= j < k ==> (#[trigger] constants@[j]).constant == j
                && type_valid(constants@[j].type_, builder.struct_count as nat)
                && ctx.token_resolves_to(pkg as int, *raw, raw.constant_pool@[j].type_, constants@[j].type_),
        decreases raw.constant_pool@.len() - k,
    {
        proof {
            assert(crate::file_format::token_wf(raw.constant_pool@[k as int].type_, raw.struct_handles@.len()));
        }
        let type_ = match builder.make_type(ids, pkg, raw, &raw.constant_pool[k].type_) {
            Ok(t) => t,
            Err(e) => {
                proof {
                    assert(ctx.token_error(pkg as int, *raw, raw.constant_pool@[k as int].type_, e));
                }
                return Err(e);
            },
        };
        constants.push(Constant { type_, constant: k });
        k += 1;
    }
    Ok(constants)
}

/// Struct `st` is `old` with its field list filled in.
pub open spec fn same_but_fields(st: Struct, old: Struct) -> bool {
    &&& st.self_idx == old.self_idx
    &&& st.package == old.package
    &&& st.module == old.module
    &&& st.name == old.name
    &&& st.def_idx == old.def_idx
    &&& st.abilities == old.abilities
    &&& st.type_parameters == old.type_parameters
}

/// The number of fields that definition `d` of `raw` declares; none for a
/// native struct.
pub open spec fn declared_field_count(raw: RawModule, d: int) -> Option<nat> {
    match raw.struct_defs@[d].field_information {
        StructFieldInformation::Native => None,
        StructFieldInformation::Declared(fields) => Some(fields@.len()),
    }
}

/// Whether the definition of struct `st` can be given its fields: it is not
/// native and every declared field type resolves.
pub open spec fn struct_fields_ok(
    ctx: crate::resolver::TypeContext,
    input: Seq<RawPackage>,
    sources: Seq<(usize, usize)>,
    st: Struct,
) -> bool {
    let raw = raw_at(input, sources[st.module as int]);
    &&& raw.struct_defs@[st.def_idx as int].field_information is Declared
    &&& forall|j: int|
        0 <= j < declared_fields(raw, st.def_idx as int).len() ==> ctx.token_resolvable(
            st.package as int,
            raw,
            (#[trigger] declared_fields(raw, st.def_idx as int)[j]).signature,
        )
}

/// Whether `e` is an error that giving struct `st` its fields reports: a
/// native definition as unsupported, or an error of a declared field type.
pub open spec fn struct_fields_error(
    ctx: crate::resolver::TypeContext,
    input: Seq<RawPackage>,
    sources: Seq<(usize, usize)>,
    st: Struct,
    e: PackageAnalyzerError,
) -> bool {
    let raw = raw_at(input, sources[st.module as int]);
    match raw.struct_defs@[st.def_idx as int].field_information {
        StructFieldInformation::Native => e is UnsupportedConstruct && e->UnsupportedConstruct_0
            == Unsupported::NativeStruct,
        StructFieldInformation::Declared(fields) => exists|j: int|
            0 <= j < fields@.len() && ctx.token_error(st.package as int, raw, (#[trigger] fields@[j]).signature, e),
    }
}

/// The fields of struct `st` are those its definition declares, in order:
/// interned names, resolved types.
pub open spec fn struct_fields_loaded(
    ctx: crate::resolver::TypeContext,
    input: Seq<RawPackage>,
    sources: Seq<(usize, usize)>,
    st: Struct,
    n_structs: nat,
) -> bool {
    let raw = raw_at(input, sources[st.module as int]);
    let decl = declared_fields(raw, st.def_idx as int);
    &&& declared_field_count(raw, st.def_idx as int) == Some(st.fields@.len())
    &&& forall|j: int|
        0 <= j < st.fields@.len() ==> field_loaded(ctx, st.package as int, raw, #[trigger] st.fields@[j], decl[j], n_structs)
}

/// Fills in the fields of every struct, now that every struct has its index
/// and every field name is interned.
pub fn load_fields(
    input: &Vec<RawPackage>,
    sources: &Vec<(usize, usize)>,
    ids: &IdentifierMap,
    builder: &TypeBuilder,
    modules: &Vec<Module>,
    structs: &mut Vec<Struct>,
) -> (r: Result<(), PackageAnalyzerError>)
    requires
        input_ok(input@),
        ids.wf(),
        builder.wf(),
        builder.struct_count == old(structs)@.len(),
        modules_from(input@, builder.packages@, modules@, sources@, ids@),
        structs_loaded_upto(input@, modules@, sources@, ids@, old(structs)@, modules@.len() as int, 0),
        field_names_in(input@, sources@, modules@.len() as int, ids@),
    ensures
        final(structs)@.len() == old(structs)@.len(),
        forall|s: int| 0 <= s < old(structs)@.len() ==> same_but_fields(#[trigger] final(structs)@[s], old(structs)@[s]),
        r is Ok <==> forall|s: int|
            0 <= s < old(structs)@.len() ==> struct_fields_ok(builder.context(ids@), input@, sources@, #[trigger] old(structs)@[s]),
        r is Ok ==> forall|s: int|
            0 <= s < old(structs)@.len() ==> struct_fields_loaded(
                builder.context(ids@),
                input@,
                sources@,
                #[trigger] final(structs)@[s],
                builder.struct_count as nat,
            ),
        r is Err ==> r->Err_0 is UnresolvedSymbol || r->Err_0 is UnsupportedConstruct,
        r is Err ==> exists|s: int|
            0 <= s < old(structs)@.len() && struct_fields_error(builder.context(ids@), input@, sources@, #[trigger] old(structs)@[s], r->Err_0),
{
    let ghost ctx = builder.context(ids@);
    let ghost structs0 = structs@;
    let mut s: usize = 0;
    while s < structs.len()
        invariant
            input_ok(input@),
            ids.wf(),
            structs0 == old(structs)@,
            ctx == builder.context(ids@),
            builder.wf(),
            builder.struct_count == structs0.len(),
            structs@.len() == structs0.len(),
            s <= structs@.len(),
            modules_from(input@, builder.packages@, modules@, sources@, ids@),
            structs_loaded_upto(input@, modules@, sources@, ids@, structs0, modules@.len() as int, 0),
            field_names_in(input@, sources@, modules@.len() as int, ids@),
            forall|t: int| 0 <= t < structs0.len() ==> same_but_fields(#[trigger] structs@[t], structs0[t]),
            forall|t: int| 0 <= t < s ==> struct_fields_ok(ctx, input@, sources@, #[trigger] structs0[t]),
            forall|t: int| 0 <= t < s ==> struct_fields_loaded(ctx, input@, sources@, #[trigger] structs@[t], builder.struct_count as nat),
        decreases structs@.len() - s,
    {
        let m = structs[s].module;
        let pkg = structs[s].package;
        proof {
            assert(same_but_fields(structs@[s as int], structs0[s as int]));
            assert(struct_from(input@, modules@, sources@, ids@, structs0[s as int], s as int));
            assert(module_from(input@, builder.packages@, modules@[m as int], m as int, sources@[m as int], ids@));
            assert(module_ok(input@, sources@[m as int].0 as int, sources@[m as int].1 as int));
        }
        let src = sources[m];
        let raw = &input[src.0].modules[src.1].1;
        let d = structs[s].def_idx;
        let def = &raw.struct_defs[d];
        proof {
            assert(raw.struct_def_wf(*def));
        }
        match &def.field_information {
            StructFieldInformation::Native => {
                let e = PackageAnalyzerError::UnsupportedConstruct(
                    Unsupported::NativeStruct,
                    builder.location(pkg, raw),
                );
                proof {
                    assert(struct_fields_error(ctx, input@, sources@, structs0[s as int], e));
                }
                return Err(e);
            },
            StructFieldInformation::Declared(raw_fields) => {
                proof {
                    assert forall|j: int| 0 <= j < raw_fields@.len() implies {
                        let f = #[trigger] raw_fields@[j];
                        f.name < raw.identifiers@.len() && crate::file_format::token_wf(f.signature, raw.struct_handles@.len())
                            && ids@.contains(raw.identifiers@[f.name as int]@)
                    } by {
                        assert(declared_fields(*raw, d as int)[j] == raw_fields@[j]);
                        assert(ids@.contains(field_name_at(input@, sources@, m as int, d as int, j)));
                    }
                }
                let fields = match resolve_fields(ids, builder, pkg, raw, raw_fields) {
                    Ok(f) => f,
                    Err(e) => {
                        proof {
                            let j = choose|j: int| 0 <= j < raw_fields@.len() && ctx.token_error(pkg as int, *raw, (#[trigger] raw_fields@[j]).signature, e);
                            assert(struct_fields_error(ctx, input@, sources@, structs0[s as int], e));
                        }
                        return Err(e);
                    },
                };
                let ghost before = structs@;
                structs[s].fields = fields;
                proof {
                    assert forall|t: int| 0 <= t < structs0.len() && t != s implies structs@[t] == before[t] by {}
                    assert(struct_fields_ok(ctx, input@, sources@, structs0[s as int]));
                    assert(struct_fields_loaded(ctx, input@, sources@, structs@[s as int], builder.struct_count as nat));
                }
            },
        }
        s += 1;
    }
    Ok(())
}

/// Module `md` is `old` with its constants filled in.
pub open spec fn same_but_constants(md: Module, old: Module) -> bool {
    &&& md.self_idx == old.self_idx
    &&& md.package == old.package
    &&& md.name == old.name
    &&& md.module_id == old.module_id
    &&& md.dependencies == old.dependencies
    &&& md.functions == old.functions
    &&& md.structs == old.structs
}

/// Every constant type of module `m` resolves.
pub open spec fn constants_ok(
    ctx: crate::resolver::TypeContext,
    input: Seq<RawPackage>,
    sources: Seq<(usize, usize)>,
    md: Module,
    m: int,
) -> bool {
    let raw = raw_at(input, sources[m]);
    forall|k: int| 0 <= k < raw.constant_pool@.len() ==> ctx.token_resolvable(md.package as int, raw, (#[trigger] raw.constant_pool@[k]).type_)
}

/// The constants of module `md` are those of its pool, in order, each with
/// its pool position and the resolution of its type.
pub open spec fn constants_loaded(
    ctx: crate::resolver::TypeContext,
    input: Seq<RawPackage>,
    sources: Seq<(usize, usize)>,
    md: Module,
    m: int,
    n_structs: nat,
) -> bool {
    let raw = raw_at(input, sources[m]);
    &&& md.constants@.len() == raw.constant_pool@.len()
    &&& forall|k: int| 0 <= k < md.constants@.len() ==> (#[trigger] md.constants@[k]).constant == k
            && type_valid(md.constants@[k].type_, n_structs)
            && ctx.token_resolves_to(md.package as int, raw, raw.constant_pool@[k].type_, md.constants@[k].type_)
}

/// Fills in the constant pool of every module, with resolved types.
pub fn load_constants(
    input: &Vec<RawPackage>,
    sources: &Vec<(usize, usize)>,
    ids: &IdentifierMap,
    builder: &TypeBuilder,
    modules: &mut Vec<Module>,
) -> (r: Result<(), PackageAnalyzerError>)
    requires
        input_ok(input@),
        ids.wf(),
        builder.wf(),
        modules_from(input@, builder.packages@, old(modules)@, sources@, ids@),
    ensures
        final(modules)@.len() == old(modules)@.len(),
        forall|m: int| 0 <= m < old(modules)@.len() ==> same_but_constants(#[trigger] final(modules)@[m], old(modules)@[m]),
        r is Ok <==> forall|m: int|
            0 <= m < old(modules)@.len() ==> constants_ok(builder.context(ids@), input@, sources@, #[trigger] old(modules)@[m], m),
        r is Ok ==> forall|m: int|
            0 <= m < old(modules)@.len() ==> constants_loaded(builder.context(ids@), input@, sources@, #[trigger] final(modules)@[m], m, builder.struct_count as nat),
        r is Err ==> r->Err_0 is UnresolvedSymbol || r->Err_0 is UnsupportedConstruct,
        r is Err ==> exists|m: int, k: int|
            0 <= m < old(modules)@.len() && 0 <= k < raw_at(input@, sources@[m]).constant_pool@.len()
                && builder.context(ids@).token_error(
                old(modules)@[m].package as int,
                raw_at(input@, sources@[m]),
                (#[trigger] raw_at(input@, sources@[m]).constant_pool@[k]).type_,
                r->Err_0,
            ),
{
    let ghost ctx = builder.context(ids@);
    let ghost modules0 = modules@;
    let mut m: usize = 0;
    while m < modules.len()
        invariant
            input_ok(input@),
            ids.wf(),
            builder.wf(),
            ctx == builder.context(ids@),
            modules0 == old(modules)@,
            modules@.len() == modules0.len(),
            m <= modules@.len(),
            modules_from(input@, builder.packages@, modules0, sources@, ids@),
            forall|q: int| 0 <= q < modules0.len() ==> same_but_constants(#[trigger] modules@[q], modules0[q]),
            forall|q: int| 0 <= q < m ==> constants_ok(ctx, input@, sources@, #[trigger] modules0[q], q),
            forall|q: int| 0 <= q < m ==> constants_loaded(ctx, input@, sources@, #[trigger] modules@[q], q, builder.struct_count as nat),
        decreases modules@.len() - m,
    {
        proof {
            assert(module_from(input@, builder.packages@, modules0[m as int], m as int, sources@[m as int], ids@));
            assert(module_ok(input@, sources@[m as int].0 as int, sources@[m as int].1 as int));
            assert(same_but_constants(modules@[m as int], modules0[m as int]));
        }
        let src = sources[m];
        let raw = &input[src.0].modules[src.1].1;
        let pkg = modules[m].package;
        let constants = match resolve_constants(ids, builder, pkg, raw) {
            Ok(c) => c,
            Err(e) => {
                proof {
                    let k = choose|k: int| 0 <= k < raw.constant_pool@.len() && ctx.token_error(pkg as int, *raw, (#[trigger] raw.constant_pool@[k]).type_, e);
                    assert(ctx.token_error(modules0[m as int].package as int, raw_at(input@, sources@[m as int]), raw_at(input@, sources@[m as int]).constant_pool@[k].type_, e));
                }
                return Err(e);
            },
        };
        let ghost before = modules@;
        modules[m].constants = constants;
        proof {
            assert forall|q: int| 0 <= q < modules0.len() && q != m implies modules@[q] == before[q] by {}
            assert(constants_ok(ctx, input@, sources@, modules0[m as int], m as int));
            assert(constants_loaded(ctx, input@, sources@, modules@[m as int], m as int, builder.struct_count as nat));
        }
        m += 1;
    }
    Ok(())
}

/// The name of function definition `d` of the module at global index `m`.
pub open spec fn function_name_at_m(input: Seq<RawPackage>, sources: Seq<(usize, usize)>, m: int, d: int) -> Seq<char> {
    let raw = raw_at(input, sources[m]);
    raw.function_handle_name(raw.function_defs@[d].function as int)
}

/// Every function name of the first `n` modules is interned.
pub open spec fn function_names_in(input: Seq<RawPackage>, sources: Seq<(usize, usize)>, n: int, ids: Seq<Seq<char>>) -> bool {
    forall|m: int, d: int|
        0 <= m < n && 0 <= d < raw_at(input, sources[m]).function_defs@.len() ==> ids.contains(
            #[trigger] function_name_at_m(input, sources, m, d),
        )
}

/// The function handle of definition `d` of `raw`.
pub open spec fn def_function_handle(raw: RawModule, d: int) -> crate::file_format::FunctionHandle {
    raw.function_handles@[raw.function_defs@[d].function as int]
}

/// The parameter and return types of function definition `d` of module `m`,
/// a module of package `pkg`, resolve.
pub open spec fn function_sig_ok(
    ctx: crate::resolver::TypeContext,
    input: Seq<RawPackage>,
    sources: Seq<(usize, usize)>,
    pkg: int,
    m: int,
    d: int,
) -> bool {
    let raw = raw_at(input, sources[m]);
    let h = def_function_handle(raw, d);
    ctx.tokens_resolvable(pkg, raw, raw.signatures@[h.parameters as int]@) && ctx.tokens_resolvable(
        pkg,
        raw,
        raw.signatures@[h.return_ as int]@,
    )
}

/// Whether `e` is an error that resolving the parameter or return types of
/// function definition `d` of module `m` reports.
pub open spec fn function_sig_error(
    ctx: crate::resolver::TypeContext,
    input: Seq<RawPackage>,
    sources: Seq<(usize, usize)>,
    pkg: int,
    m: int,
    d: int,
    e: PackageAnalyzerError,
) -> bool {
    let raw = raw_at(input, sources[m]);
    let h = def_function_handle(raw, d);
    ctx.tokens_error(pkg, raw, raw.signatures@[h.parameters as int]@, e) || ctx.tokens_error(
        pkg,
        raw,
        raw.signatures@[h.return_ as int]@,
        e,
    )
}

/// Function `fun` carries its definition's visibility and entry flag, its
/// handle's type parameters, and the resolutions of its handle's parameter
/// and return types.
pub open spec fn function_meta_loaded(
    ctx: crate::resolver::TypeContext,
    input: Seq<RawPackage>,
    sources: Seq<(usize, usize)>,
    fun: Function,
) -> bool {
    let raw = raw_at(input, sources[fun.module as int]);
    let def = raw.function_defs@[fun.def_idx as int];
    let h = def_function_handle(raw, fun.def_idx as int);
    &&& fun.visibility == def.visibility
    &&& fun.is_entry == def.is_entry
    &&& fun.type_parameters@ == h.type_parameters@
    &&& ctx.tokens_resolve_to(fun.package as int, raw, raw.signatures@[h.parameters as int]@, fun.parameters@)
    &&& ctx.tokens_resolve_to(fun.package as int, raw, raw.signatures@[h.return_ as int]@, fun.returns@)
}

/// Interns the function names of every module, in order.
pub fn intern_function_names(
    input: &Vec<RawPackage>,
    sources: &Vec<(usize, usize)>,
    n_modules: usize,
    ids: &mut IdentifierMap,
)
    requires
        input_ok(input@),
        old(ids).wf(),
        n_modules == sources@.len(),
        forall|m: int| 0 <= m < n_modules ==> {
            let src = #[trigger] sources@[m];
            src.0 < input@.len() && src.1 < input@[src.0 as int].modules@.len()
        },
    ensures
        final(ids).wf(),
        is_prefix(old(ids)@, final(ids)@),
        function_names_in(input@, sources@, n_modules as int, final(ids)@),
{
    let ghost ids0 = ids@;
    let mut m: usize = 0;
    while m < n_modules
        invariant
            input_ok(input@),
            ids.wf(),
            ids0 == old(ids)@,
            is_prefix(ids0, ids@),
            n_modules == sources@.len(),
            forall|q: int| 0 <= q < n_modules ==> {
                let src = #[trigger] sources@[q];
                src.0 < input@.len() && src.1 < input@[src.0 as int].modules@.len()
            },
            m <= n_modules,
            function_names_in(input@, sources@, m as int, ids@),
        decreases n_modules - m,
    {
        let src = sources[m];
        proof {
            assert(module_ok(input@, src.0 as int, src.1 as int));
        }
        let raw = &input[src.0].modules[src.1].1;
        let mut d: usize = 0;
        while d < raw.function_defs.len()
            invariant
                ids.wf(),
                ids0 == old(ids)@,
                is_prefix(ids0, ids@),
                m < n_modules,
                n_modules == sources@.len(),
                src == sources@[m as int],
                *raw == raw_at(input@, src),
                raw.wf(),
                d <= raw.function_defs@.len(),
                function_names_in(input@, sources@, m as int, ids@),
                forall|dd: int| 0 <= dd < d ==> ids@.contains(#[trigger] function_name_at_m(input@, sources@, m as int, dd)),
            decreases raw.function_defs@.len() - d,
        {
            proof {
                assert(raw.function_def_wf(raw.function_defs@[d as int]));
            }
            let h = &raw.function_handles[raw.function_defs[d].function];
            let ghost before = ids@;
            let idx = ids.get_identifier_idx(&raw.identifiers[h.name]);
            proof {
                assert forall|i: int| 0 <= i < ids0.len() implies #[trigger] ids@[i] == ids0[i] by {
                    assert(before[i] == ids0[i]);
                }
                assert forall|mm: int, dd: int|
                    0 <= mm < m && 0 <= dd < raw_at(input@, sources@[mm]).function_defs@.len() implies ids@.contains(
                        #[trigger] function_name_at_m(input@, sources@, mm, dd),
                    ) by {
                    lemma_prefix_contains(before, ids@, function_name_at_m(input@, sources@, mm, dd));
                }
                assert forall|dd: int| 0 <= dd < d + 1 implies ids@.contains(#[trigger] function_name_at_m(input@, sources@, m as int, dd)) by {
                    if dd < d {
                        lemma_prefix_contains(before, ids@, function_name_at_m(input@, sources@, m as int, dd));
                    } else {
                        assert(ids@[idx as int] == function_name_at_m(input@, sources@, m as int, dd));
                    }
                }
            }
            d += 1;
        }
        m += 1;
    }
}

/// Function `fun` was loaded from definition `fun.def_idx` of module `fun.module`.
pub open spec fn function_from(
    input: Seq<RawPackage>,
    modules: Seq<Module>,
    sources: Seq<(usize, usize)>,
    ids: Seq<Seq<char>>,
    n_structs: nat,
    fun: Function,
    f: int,
) -> bool {
    let raw = raw_at(input, sources[fun.module as int]);
    &&& fun.self_idx == f
    &&& fun.module < modules.len()
    &&& fun.package == modules[fun.module as int].package
    &&& fun.def_idx < raw.function_defs@.len()
    &&& modules[fun.module as int].functions@.len() > fun.def_idx
    &&& modules[fun.module as int].functions@[fun.def_idx as int] == f
    &&& fun.name < ids.len()
    &&& ids[fun.name as int] == raw.function_handle_name(
        raw.function_defs@[fun.def_idx as int].function as int,
    )
    &&& types_valid(fun.parameters@, n_structs)
    &&& types_valid(fun.returns@, n_structs)
}

/// The canonical key of function `fun`.
pub open spec fn function_key_of(packages: Seq<Package>, modules: Seq<Module>, fun: Function) -> EntityKey {
    let a = packages[fun.package as int].id;
    (a.hi, a.lo, modules[fun.module as int].name, fun.name)
}

/// The function map sends exactly the key of every function to it.
pub open spec fn function_map_consistent(
    packages: Seq<Package>,
    modules: Seq<Module>,
    functions: Seq<Function>,
    map: Map<EntityKey, FunctionIndex>,
) -> bool {
    &&& forall|k: EntityKey| #[trigger]
        map.contains_key(k) ==> {
            let f = map[k] as int;
            0 <= f < functions.len() && function_key_of(packages, modules, functions[f]) == k
        }
    &&& forall|f: int|
        0 <= f < functions.len() ==> #[trigger] map.contains_key(function_key_of(packages, modules, functions[f]))
            && map[function_key_of(packages, modules, functions[f])] == f
}

/// Functions were loaded from every definition of the modules before `m`,
/// and from the first `d` of module `m`.
pub open spec fn functions_loaded_upto(
    input: Seq<RawPackage>,
    modules: Seq<Module>,
    sources: Seq<(usize, usize)>,
    ids: Seq<Seq<char>>,
    n_structs: nat,
    functions: Seq<Function>,
    m: int,
    d: int,
) -> bool {
    &&& forall|f: int|
        0 <= f < functions.len() ==> function_from(input, modules, sources, ids, n_structs, #[trigger] functions[f], f)
    &&& forall|q: int|
        0 <= q < modules.len() ==> (#[trigger] modules[q]).functions@.len() == if q < m {
            raw_at(input, sources[q]).function_defs@.len() as int
        } else if q == m {
            d
        } else {
            0
        }
    &&& forall|q: int, j: int|
        0 <= q < modules.len() && 0 <= j < modules[q].functions@.len() ==> {
            let f = #[trigger] modules[q].functions@[j] as int;
            0 <= f < functions.len() && functions[f].module == q && functions[f].def_idx == j
        }
}

/// Module `md` is `old` with its function list filled in.
pub open spec fn same_but_functions(md: Module, old: Module) -> bool {
    &&& md.self_idx == old.self_idx
    &&& md.package == old.package
    &&& md.name == old.name
    &&& md.module_id == old.module_id
    &&& md.dependencies == old.dependencies
    &&& md.structs == old.structs
    &&& md.constants == old.constants
}


/// A function key that is taken already when definition `d` of module `m`
/// is loaded belongs to an earlier definition of the same name in `m`.
proof fn lemma_function_key_clash(
    input: Seq<RawPackage>,
    packages: Seq<Package>,
    modules0: Seq<Module>,
    modules: Seq<Module>,
    sources: Seq<(usize, usize)>,
    ids0: Seq<Seq<char>>,
    ids: Seq<Seq<char>>,
    n_structs: nat,
    functions: Seq<Function>,
    map: Map<EntityKey, FunctionIndex>,
    m: int,
    d: int,
    key: EntityKey,
    name: usize,
)
    requires
        input.len() <= usize::MAX,
        forall|p: int| 0 <= p < input.len() ==> (#[trigger] input[p]).modules@.len() <= usize::MAX,
        input_ok(input),
        !has_duplicate_package(input),
        !has_duplicate_module(input),
        forall|p: int| 0 <= p < input.len() ==> package_loaded(#[trigger] packages[p], input[p], p),
        modules_from(input, packages, modules0, sources, ids0),
        is_prefix(ids0, ids),
        crate::identifiers::distinct(ids),
        modules.len() == modules0.len(),
        forall|q: int| 0 <= q < modules0.len() ==> same_but_functions(#[trigger] modules[q], modules0[q]),
        functions_loaded_upto(input, modules, sources, ids, n_structs, functions, m, d),
        function_map_consistent(packages, modules, functions, map),
        0 <= m < modules.len(),
        0 <= d < raw_at(input, sources[m]).function_defs@.len(),
        map.contains_key(key),
        key == (packages[modules[m].package as int].id.hi, packages[modules[m].package as int].id.lo, modules[m].name, name),
        (name as int) < ids.len(),
        ids[name as int] == raw_at(input, sources[m]).function_handle_name(
            raw_at(input, sources[m]).function_defs@[d].function as int,
        ),
    ensures
        has_duplicate_function(input),
{
    let t = map[key] as int;
    let fun = functions[t];
    assert(function_from(input, modules, sources, ids, n_structs, fun, t));
    assert(function_key_of(packages, modules, fun) == key);
    assert(module_from(input, packages, modules0[m], m, sources[m], ids0));
    assert(module_from(input, packages, modules0[fun.module as int], fun.module as int, sources[fun.module as int], ids0));
    assert(same_but_functions(modules[m], modules0[m]));
    assert(same_but_functions(modules[fun.module as int], modules0[fun.module as int]));
    let pid = packages[modules[m].package as int].id;
    assert(packages[fun.package as int].id == pid);
    lemma_package_unique(input, packages, fun.package as int, modules[m].package as int);
    lemma_module_by_name(input, packages, modules0, sources, ids0, fun.module as int, m);
    assert(fun.module == m);
    assert(modules[m].functions@.len() == d);
    assert(fun.def_idx < d);
    assert(fun.name == name);
    let p = sources[m].0 as int;
    let k = sources[m].1 as int;
    assert(raw_at(input, sources[m]) == input[p].modules@[k].1);
    assert(function_name_at(input, p, k, fun.def_idx as int) == function_name_at(input, p, k, d));
}

/// Loaded functions with distinct keys mean no module defines two functions
/// of one name.
proof fn lemma_no_function_clash(
    input: Seq<RawPackage>,
    packages: Seq<Package>,
    modules0: Seq<Module>,
    modules: Seq<Module>,
    sources: Seq<(usize, usize)>,
    ids0: Seq<Seq<char>>,
    ids: Seq<Seq<char>>,
    n_structs: nat,
    functions: Seq<Function>,
    map: Map<EntityKey, FunctionIndex>,
)
    requires
        input.len() <= usize::MAX,
        forall|p: int| 0 <= p < input.len() ==> (#[trigger] input[p]).modules@.len() <= usize::MAX,
        input_ok(input),
        modules_from(input, packages, modules0, sources, ids0),
        is_prefix(ids0, ids),
        crate::identifiers::distinct(ids),
        modules.len() == modules0.len(),
        forall|q: int| 0 <= q < modules0.len() ==> same_but_functions(#[trigger] modules[q], modules0[q]),
        functions_loaded_upto(input, modules, sources, ids, n_structs, functions, modules.len() as int, 0),
        function_map_consistent(packages, modules, functions, map),
    ensures
        !has_duplicate_function(input),
{
    if has_duplicate_function(input) {
        let (p, k, d1, d2) = choose|p: int, k: int, d1: int, d2: int|
            0 <= p < input.len() && 0 <= k < input[p].modules@.len() && 0 <= d1 < d2
                < input[p].modules@[k].1.function_defs@.len() && #[trigger] function_name_at(input, p, k, d1)
                == #[trigger] function_name_at(input, p, k, d2);
        let m = packages[p].modules@[k] as int;
        assert(sources[m] == (p as usize, k as usize));
        assert(module_from(input, packages, modules0[m], m, sources[m], ids0));
        assert(raw_at(input, sources[m]) == input[p].modules@[k].1);
        assert(same_but_functions(modules[m], modules0[m]));
        let f1 = modules[m].functions@[d1] as int;
        let f2 = modules[m].functions@[d2] as int;
        assert(function_from(input, modules, sources, ids, n_structs, functions[f1], f1));
        assert(function_from(input, modules, sources, ids, n_structs, functions[f2], f2));
        assert(ids[functions[f1].name as int] == ids[functions[f2].name as int]);
        assert(functions[f1].name == functions[f2].name);
        assert(function_key_of(packages, modules, functions[f1]) == function_key_of(packages, modules, functions[f2]));
        assert(map.contains_key(function_key_of(packages, modules, functions[f1])));
        assert(map.contains_key(function_key_of(packages, modules, functions[f2])));
    }
}

/// Creates one function per function definition, module by module, with
/// resolved signatures and no code yet, and lists each in its module.
pub fn load_functions(
    input: &Vec<RawPackage>,
    sources: &Vec<(usize, usize)>,
    ids: &mut IdentifierMap,
    builder: &TypeBuilder,
    modules: &mut Vec<Module>,
) -> (r: Result<(Vec<Function>, BTreeMap<EntityKey, FunctionIndex>), PackageAnalyzerError>)
    requires
        forall|p: int, k: int|
            0 <= p < input@.len() && 0 <= k < input@[p].modules@.len() ==> #[trigger] builder.packages@[p].modules@[k]
                == modules_before(input@, p) + k,
        input_ok(input@),
        !has_duplicate_package(input@),
        !has_duplicate_module(input@),
        forall|p: int| 0 <= p < input@.len() ==> package_loaded(#[trigger] builder.packages@[p], input@[p], p),
        old(ids).wf(),
        builder.wf(),
        modules_from(input@, builder.packages@, old(modules)@, sources@, old(ids)@),
        function_names_in(input@, sources@, old(modules)@.len() as int, old(ids)@),
        forall|m: int| 0 <= m < old(modules)@.len() ==> (#[trigger] old(modules)@[m]).functions@.len() == 0,
    ensures
        final(ids).wf(),
        is_prefix(old(ids)@, final(ids)@),
        final(modules)@.len() == old(modules)@.len(),
        forall|m: int|
            0 <= m < old(modules)@.len() ==> same_but_functions(#[trigger] final(modules)@[m], old(modules)@[m]),
        r is Err ==> (r->Err_0 is InvariantViolation ==> has_duplicate_function(input@)),
        r is Err ==> r->Err_0 is InvariantViolation || r->Err_0 is UnresolvedSymbol
            || r->Err_0 is UnsupportedConstruct,
        r is Ok ==> !has_duplicate_function(input@),
        final(ids)@ == old(ids)@,
        r is Ok <==> !has_duplicate_function(input@) && forall|m: int, d: int|
            0 <= m < old(modules)@.len() && 0 <= d < raw_at(input@, sources@[m]).function_defs@.len()
                ==> #[trigger] function_sig_ok(builder.context(old(ids)@), input@, sources@, old(modules)@[m].package as int, m, d),
        r is Err && (forall|m: int, d: int|
            0 <= m < old(modules)@.len() && 0 <= d < raw_at(input@, sources@[m]).function_defs@.len()
                ==> #[trigger] function_sig_ok(builder.context(old(ids)@), input@, sources@, old(modules)@[m].package as int, m, d))
            ==> r->Err_0 is InvariantViolation,
        r is Err && !(r->Err_0 is InvariantViolation) ==> exists|m: int, d: int|
            0 <= m < old(modules)@.len() && 0 <= d < raw_at(input@, sources@[m]).function_defs@.len()
                && #[trigger] function_sig_error(builder.context(old(ids)@), input@, sources@, old(modules)@[m].package as int, m, d, r->Err_0),
        r matches Ok((functions, map)) ==> {
            &&& forall|f: int| 0 <= f < functions@.len() ==> function_meta_loaded(builder.context(old(ids)@), input@, sources@, #[trigger] functions@[f])
            &&& functions_loaded_upto(input@, final(modules)@, sources@, final(ids)@, builder.struct_count as nat, functions@, final(modules)@.len() as int, 0)
            &&& function_map_consistent(builder.packages@, final(modules)@, functions@, map@)
            &&& functions@.len() == functions_before(input@, final(modules)@.len() as int)
            &&& forall|q: int, j: int|
                0 <= q < final(modules)@.len() && 0 <= j < final(modules)@[q].functions@.len() ==> #[trigger] final(modules)@[q].functions@[j]
                    == functions_before(input@, q) + j
            &&& forall|f: int| 0 <= f < functions@.len() ==> (#[trigger] functions@[f]).code is None
        },
{
    let ghost ids0 = ids@;
    let ghost modules0 = modules@;
    let mut functions: Vec<Function> = Vec::new();
    let mut map: BTreeMap<EntityKey, FunctionIndex> = BTreeMap::new();
    let mut m: usize = 0;
    while m < modules.len()
        invariant
            forall|p: int, k: int|
                0 <= p < input@.len() && 0 <= k < input@[p].modules@.len() ==> #[trigger] builder.packages@[p].modules@[k]
                        == modules_before(input@, p) + k,
            functions@.len() == functions_before(input@, m as int),
            forall|q: int, j: int|
                0 <= q < modules@.len() && 0 <= j < modules@[q].functions@.len() ==> #[trigger] modules@[q].functions@[j]
                    == functions_before(input@, q) + j,
            input_ok(input@),
            !has_duplicate_package(input@),
            !has_duplicate_module(input@),
            forall|p: int| 0 <= p < input@.len() ==> package_loaded(#[trigger] builder.packages@[p], input@[p], p),
            ids.wf(),
            builder.wf(),
            ids0 == old(ids)@,
            modules0 == old(modules)@,
            is_prefix(ids0, ids@),
            m <= modules@.len(),
            modules@.len() == modules0.len(),
            modules_from(input@, builder.packages@, modules0, sources@, ids0),
            forall|q: int| 0 <= q < modules0.len() ==> same_but_functions(#[trigger] modules@[q], modules0[q]),
            functions_loaded_upto(input@, modules@, sources@, ids@, builder.struct_count as nat, functions@, m as int, 0),
            function_map_consistent(builder.packages@, modules@, functions@, map@),
            forall|f: int| 0 <= f < functions@.len() ==> (#[trigger] functions@[f]).code is None,
            ids@ == ids0,
            function_names_in(input@, sources@, modules0.len() as int, ids0),
            forall|f: int| 0 <= f < functions@.len() ==> function_meta_loaded(builder.context(ids0), input@, sources@, #[trigger] functions@[f]),
            forall|q: int, dd: int| 0 <= q < m && 0 <= dd < raw_at(input@, sources@[q]).function_defs@.len()
                ==> #[trigger] function_sig_ok(builder.context(ids0), input@, sources@, modules0[q].package as int, q, dd),
        decreases modules@.len() - m,
    {
        let src = sources[m];
        proof {
            assert(module_from(input@, builder.packages@, modules0[m as int], m as int, sources@[m as int], ids0));
            assert(module_ok(input@, src.0 as int, src.1 as int));
        }
        let raw = &input[src.0].modules[src.1].1;
        let pkg = modules[m].package;
        let package_id = builder.packages[pkg].id;
        let module_name_idx = modules[m].name;
        let mut d: usize = 0;
        while d < raw.function_defs.len()
            invariant
                forall|p: int, k: int|
                    0 <= p < input@.len() && 0 <= k < input@[p].modules@.len() ==> #[trigger] builder.packages@[p].modules@[k]
                                == modules_before(input@, p) + k,
                functions@.len() == functions_before(input@, m as int) + d,
                forall|q: int, j: int|
                    0 <= q < modules@.len() && 0 <= j < modules@[q].functions@.len() ==> #[trigger] modules@[q].functions@[j]
                        == functions_before(input@, q) + j,
                input_ok(input@),
                !has_duplicate_package(input@),
                !has_duplicate_module(input@),
                forall|p: int| 0 <= p < input@.len() ==> package_loaded(#[trigger] builder.packages@[p], input@[p], p),
                ids.wf(),
                builder.wf(),
                ids0 == old(ids)@,
                modules0 == old(modules)@,
                is_prefix(ids0, ids@),
                m < modules@.len(),
                modules@.len() == modules0.len(),
                src == sources@[m as int],
                *raw == raw_at(input@, src),
                raw.wf(),
                pkg == modules@[m as int].package,
                pkg < builder.packages@.len(),
                package_id == builder.packages@[pkg as int].id,
                module_name_idx == modules@[m as int].name,
                d <= raw.function_defs@.len(),
                src.0 < input@.len() && src.1 < input@[src.0 as int].modules@.len(),
                modules_from(input@, builder.packages@, modules0, sources@, ids0),
                forall|q: int| 0 <= q < modules0.len() ==> same_but_functions(#[trigger] modules@[q], modules0[q]),
                functions_loaded_upto(input@, modules@, sources@, ids@, builder.struct_count as nat, functions@, m as int, d as int),
                function_map_consistent(builder.packages@, modules@, functions@, map@),
                forall|f: int| 0 <= f < functions@.len() ==> (#[trigger] functions@[f]).code is None,
                ids@ == ids0,
                function_names_in(input@, sources@, modules0.len() as int, ids0),
                forall|f: int| 0 <= f < functions@.len() ==> function_meta_loaded(builder.context(ids0), input@, sources@, #[trigger] functions@[f]),
                forall|q: int, dd: int| 0 <= q < m && 0 <= dd < raw_at(input@, sources@[q]).function_defs@.len()
                    ==> #[trigger] function_sig_ok(builder.context(ids0), input@, sources@, modules0[q].package as int, q, dd),
                pkg == modules0[m as int].package,
                forall|dd: int| 0 <= dd < d ==> #[trigger] function_sig_ok(builder.context(ids0), input@, sources@, pkg as int, m as int, dd),
            decreases raw.function_defs@.len() - d,
        {
            proof {
                assert(raw.function_def_wf(raw.function_defs@[d as int]));
            }
            let def = &raw.function_defs[d];
            let handle = &raw.function_handles[def.function];
            let ghost ids_before = ids@;
            proof {
                assert(ids@.contains(function_name_at_m(input@, sources@, m as int, d as int)));
            }
            let name = ids.get_identifier_idx(&raw.identifiers[handle.name]);
            proof {
                assert(ids@ == ids_before);
                assert forall|i: int| 0 <= i < ids0.len() implies #[trigger] ids@[i] == ids0[i] by {
                    assert(ids_before[i] == ids0[i]);
                }
                assert(crate::file_format::tokens_wf(raw.signatures@[handle.parameters as int]@, raw.struct_handles@.len()));
                assert(crate::file_format::tokens_wf(raw.signatures@[handle.return_ as int]@, raw.struct_handles@.len()));
            }
            let parameters = match builder.make_types(ids, pkg, raw, &raw.signatures[handle.parameters]) {
                Ok(t) => t,
                Err(e) => {
                    proof {
                        assert(function_sig_error(builder.context(ids0), input@, sources@, modules0[m as int].package as int, m as int, d as int, e));
                        assert(!builder.context(ids0).tokens_resolvable(pkg as int, *raw, raw.signatures@[handle.parameters as int]@));
                        assert(!function_sig_ok(builder.context(ids0), input@, sources@, modules0[m as int].package as int, m as int, d as int));
                    }
                    return Err(e);
                },
            };
            let return_types = match builder.make_types(ids, pkg, raw, &raw.signatures[handle.return_]) {
                Ok(t) => t,
                Err(e) => {
                    proof {
                        assert(function_sig_error(builder.context(ids0), input@, sources@, modules0[m as int].package as int, m as int, d as int, e));
                        assert(!builder.context(ids0).tokens_resolvable(pkg as int, *raw, raw.signatures@[handle.return_ as int]@));
                        assert(!function_sig_ok(builder.context(ids0), input@, sources@, modules0[m as int].package as int, m as int, d as int));
                    }
                    return Err(e);
                },
            };
            proof {
                assert(function_sig_ok(builder.context(ids0), input@, sources@, pkg as int, m as int, d as int));
            }
            let key: EntityKey = (package_id.hi, package_id.lo, module_name_idx, name);
            if map.contains_key(&key) {
                proof {
                    ids.lemma_distinct();
                    assert(input@.len() == input.len());
                    assert forall|q: int| 0 <= q < input@.len() implies (#[trigger] input@[q]).modules@.len() <= usize::MAX by {
                        assert(input@[q].modules@.len() == input@[q].modules.len());
                    }
                    lemma_function_key_clash(input@, builder.packages@, modules0, modules@, sources@, ids0, ids@, builder.struct_count as nat, functions@, map@, m as int, d as int, key, name);
                }
                return Err(duplicate(package_id, raw.self_name_string().as_str(), raw.identifiers[handle.name].as_str()));
            }
            let f = functions.len();
            let fun = Function {
                self_idx: f,
                package: pkg,
                module: m,
                name,
                def_idx: d,
                type_parameters: copy_vec(&handle.type_parameters),
                parameters,
                returns: return_types,
                visibility: def.visibility,
                is_entry: def.is_entry,
                code: None,
            };
            let ghost old_modules = modules@;
            let ghost old_functions = functions@;
            functions.push(fun);
            modules[m].functions.push(f);
            map.insert(key, f);
            proof {
                assert(function_meta_loaded(builder.context(ids0), input@, sources@, functions@[f as int]));
                assert forall|t: int| 0 <= t < functions@.len() implies function_meta_loaded(builder.context(ids0), input@, sources@, #[trigger] functions@[t]) by {
                    if t < f {
                        assert(old_functions[t] == functions@[t]);
                    }
                }
                assert(modules@[m as int].functions@ == old_modules[m as int].functions@.push(f));
                assert forall|q: int| 0 <= q < modules@.len() && q != m implies modules@[q] == old_modules[q] by {}
                assert forall|t: int| 0 <= t < functions@.len() implies function_from(
                    input@,
                    modules@,
                    sources@,
                    ids@,
                    builder.struct_count as nat,
                    #[trigger] functions@[t],
                    t,
                ) by {
                    if t < f {
                        assert(old_functions[t] == functions@[t]);
                        let mt = functions@[t].module as int;
                        if mt == m {
                            assert(modules@[mt].functions@[functions@[t].def_idx as int] == old_modules[mt].functions@[functions@[t].def_idx as int]);
                        }
                    }
                }
                assert forall|q: int, j: int|
                    0 <= q < modules@.len() && 0 <= j < modules@[q].functions@.len() implies {
                        let t = #[trigger] modules@[q].functions@[j] as int;
                        0 <= t < functions@.len() && functions@[t].module == q && functions@[t].def_idx == j
                    } by {
                    if q == m && j == d {
                    } else if q == m {
                        assert(modules@[q].functions@[j] == old_modules[q].functions@[j]);
                    } else {
                        assert(modules@[q] == old_modules[q]);
                    }
                }
                assert forall|t: int| 0 <= t < functions@.len() implies function_key_of(builder.packages@, modules@, functions@[t]) == function_key_of(builder.packages@, old_modules, #[trigger] functions@[t]) by {
                    assert(modules@[functions@[t].module as int].name == old_modules[functions@[t].module as int].name);
                }
                assert forall|kk: EntityKey| #[trigger] map@.contains_key(kk) implies {
                    let t = map@[kk] as int;
                    0 <= t < functions@.len() && function_key_of(builder.packages@, modules@, functions@[t]) == kk
                } by {
                    if kk != key {
                        let t = map@[kk] as int;
                        assert(old_functions[t] == functions@[t]);
                    }
                }
                assert forall|t: int| 0 <= t < functions@.len() implies #[trigger] map@.contains_key(function_key_of(builder.packages@, modules@, functions@[t]))
                    && map@[function_key_of(builder.packages@, modules@, functions@[t])] == t by {
                    if t < f {
                        assert(old_functions[t] == functions@[t]);
                        assert(function_key_of(builder.packages@, modules@, functions@[t]) != key);
                    }
                }
            }
            d += 1;
        }
        proof {
            let p = src.0 as int;
            let k = src.1 as int;
            assert(module_from(input@, builder.packages@, modules0[m as int], m as int, sources@[m as int], ids0));
            assert(builder.packages@[p].modules@[k] == m);
            lemma_raw_of_module(input@, p, k);
            assert(raw_of_module(input@, m as int) == *raw);
            assert(functions_before(input@, m + 1) == functions_before(input@, m as int) + raw.function_defs@.len());
        }
        m += 1;
    }
    proof {
        ids.lemma_distinct();
        assert(input@.len() == input.len());
        assert forall|q: int| 0 <= q < input@.len() implies (#[trigger] input@[q]).modules@.len() <= usize::MAX by {
            assert(input@[q].modules@.len() == input@[q].modules.len());
        }
        lemma_no_function_clash(input@, builder.packages@, modules0, modules@, sources@, ids0, ids@, builder.struct_count as nat, functions@, map@);
    }
    Ok((functions, map))
}


/// Names interned earlier keep their indices as the table grows.
pub proof fn lemma_modules_from_grow(
    input: Seq<RawPackage>,
    packages: Seq<Package>,
    modules: Seq<Module>,
    sources: Seq<(usize, usize)>,
    ids1: Seq<Seq<char>>,
    ids2: Seq<Seq<char>>,
)
    requires
        modules_from(input, packages, modules, sources, ids1),
        is_prefix(ids1, ids2),
    ensures
        modules_from(input, packages, modules, sources, ids2),
{
    assert forall|m: int| 0 <= m < modules.len() implies module_from(input, packages, #[trigger] modules[m], m, sources[m], ids2) by {
        assert(module_from(input, packages, modules[m], m, sources[m], ids1));
        assert(ids2[modules[m].name as int] == ids1[modules[m].name as int]);
    }
}

/// Struct names interned earlier keep their indices as the table grows.
pub proof fn lemma_structs_loaded_grow(
    input: Seq<RawPackage>,
    modules: Seq<Module>,
    sources: Seq<(usize, usize)>,
    ids1: Seq<Seq<char>>,
    ids2: Seq<Seq<char>>,
    structs: Seq<Struct>,
)
    requires
        structs_loaded_upto(input, modules, sources, ids1, structs, modules.len() as int, 0),
        is_prefix(ids1, ids2),
    ensures
        structs_loaded_upto(input, modules, sources, ids2, structs, modules.len() as int, 0),
{
    assert forall|s: int| 0 <= s < structs.len() implies struct_from(input, modules, sources, ids2, #[trigger] structs[s], s) by {
        assert(struct_from(input, modules, sources, ids1, structs[s], s));
        assert(ids2[structs[s].name as int] == ids1[structs[s].name as int]);
    }
}

/// The code of function `fun`, defined in `raw`, is the resolution of its
/// definition's code:
/// absent for a native function, otherwise one resolved instruction per raw
/// instruction, in order.
pub open spec fn code_resolved(
    raw: RawModule,
    ctx: crate::resolver::ResolutionContext,
    n_structs: nat,
    n_functions: nat,
    fun: Function,
) -> bool {
    match raw.function_defs@[fun.def_idx as int].code {
        None => fun.code is None,
        Some(cu) => {
            &&& fun.code is Some
            &&& types_valid(fun.code->Some_0.locals@, n_structs)
            &&& ctx.sig_resolves_to(fun.package as int, raw, cu.locals as int, fun.code->Some_0.locals@)
            &&& fun.code->Some_0.code@.len() == cu.code@.len()
            &&& forall|k: int|
                0 <= k < cu.code@.len() ==> ctx.bytecode_resolves_to(
                    fun.package as int,
                    raw,
                    #[trigger] cu.code@[k],
                    fun.code->Some_0.code@[k],
                ) && bytecode_valid(fun.code->Some_0.code@[k], n_structs, n_functions)
        },
    }
}

proof fn lemma_code_resolved_intro(
    raw: RawModule,
    ctx: crate::resolver::ResolutionContext,
    n_structs: nat,
    n_functions: nat,
    fun: Function,
    cu: crate::file_format::CodeUnit,
)
    requires
        raw.function_defs@[fun.def_idx as int].code == Some(cu),
        fun.code is Some,
        types_valid(fun.code->Some_0.locals@, n_structs),
        ctx.sig_resolves_to(fun.package as int, raw, cu.locals as int, fun.code->Some_0.locals@),
        fun.code->Some_0.code@.len() == cu.code@.len(),
        forall|k: int|
            0 <= k < cu.code@.len() ==> ctx.bytecode_resolves_to(
                fun.package as int,
                raw,
                #[trigger] cu.code@[k],
                fun.code->Some_0.code@[k],
            ) && bytecode_valid(fun.code->Some_0.code@[k], n_structs, n_functions),
    ensures
        code_resolved(raw, ctx, n_structs, n_functions, fun),
{
}

/// Resolves the instructions of a function of `raw`, a module of package `pkg`.
fn resolve_code(
    ids: &IdentifierMap,
    builder: &TypeBuilder,
    function_map: &BTreeMap<EntityKey, FunctionIndex>,
    function_count: usize,
    pkg: usize,
    raw: &RawModule,
    raw_code: &Vec<crate::file_format::MoveBytecode>,
) -> (r: Result<Vec<Bytecode>, PackageAnalyzerError>)
    requires
        ids.wf(),
        builder.wf(),
        raw.wf(),
        values_below(function_map@, function_count as nat),
        pkg < builder.packages@.len(),
        forall|j: int| 0 <= j < raw_code@.len() ==> raw.bytecode_wf(#[trigger] raw_code@[j]),
    ensures
        r is Ok ==> r->Ok_0@.len() == raw_code@.len(),
        r is Ok ==> forall|k: int|
            0 <= k < raw_code@.len() ==> builder.resolution(ids@, function_map@).bytecode_resolves_to(
                pkg as int,
                *raw,
                #[trigger] raw_code@[k],
                r->Ok_0@[k],
            ) && bytecode_valid(r->Ok_0@[k], builder.struct_count as nat, function_count as nat),
        r is Ok <==> forall|k: int|
            0 <= k < raw_code@.len() ==> builder.resolution(ids@, function_map@).bytecode_resolvable(pkg as int, *raw, #[trigger] raw_code@[k]),
        r is Err ==> r->Err_0 is UnresolvedSymbol || r->Err_0 is UnsupportedConstruct,
        r is Err ==> exists|k: int|
            0 <= k < raw_code@.len() && builder.resolution(ids@, function_map@).bytecode_error(pkg as int, *raw, #[trigger] raw_code@[k], r->Err_0),
{
    let mut code: Vec<Bytecode> = Vec::new();
    let mut k: usize = 0;
    while k < raw_code.len()
        invariant
            ids.wf(),
            builder.wf(),
            raw.wf(),
            values_below(function_map@, function_count as nat),
            pkg < builder.packages@.len(),
            forall|j: int| 0 <= j < raw_code@.len() ==> raw.bytecode_wf(#[trigger] raw_code@[j]),
            k <= raw_code@.len(),
            code@.len() == k,
            forall|j: int|
                0 <= j < k ==> builder.resolution(ids@, function_map@).bytecode_resolves_to(
                    pkg as int,
                    *raw,
                    #[trigger] raw_code@[j],
                    code@[j],
                ) && bytecode_valid(code@[j], builder.struct_count as nat, function_count as nat),
            forall|j: int| 0 <= j < k ==> builder.resolution(ids@, function_map@).bytecode_resolvable(pkg as int, *raw, #[trigger] raw_code@[j]),
        decreases raw_code@.len() - k,
    {
        let b = match builder.resolve_bytecode(ids, function_map, function_count, pkg, raw, &raw_code[k]) {
            Ok(b) => b,
            Err(e) => {
                proof {
                    assert(builder.resolution(ids@, function_map@).bytecode_error(pkg as int, *raw, raw_code@[k as int], e));
                }
                return Err(e);
            },
        };
        code.push(b);
        k += 1;
    }
    Ok(code)
}

/// Function `fun` is `old` with its code filled in.
pub open spec fn same_but_code(fun: Function, old: Function) -> bool {
    &&& fun.self_idx == old.self_idx
    &&& fun.package == old.package
    &&& fun.module == old.module
    &&& fun.name == old.name
    &&& fun.def_idx == old.def_idx
    &&& fun.type_parameters == old.type_parameters
    &&& fun.parameters == old.parameters
    &&& fun.returns == old.returns
    &&& fun.visibility == old.visibility
    &&& fun.is_entry == old.is_entry
}

/// Resolves the code of every function that has a body.
pub fn load_code(
    input: &Vec<RawPackage>,
    sources: &Vec<(usize, usize)>,
    ids: &IdentifierMap,
    builder: &TypeBuilder,
    function_map: &BTreeMap<EntityKey, FunctionIndex>,
    modules: &Vec<Module>,
    functions: &mut Vec<Function>,
) -> (r: Result<(), PackageAnalyzerError>)
    requires
        input_ok(input@),
        ids.wf(),
        builder.wf(),
        values_below(function_map@, old(functions)@.len() as nat),
        modules_from(input@, builder.packages@, modules@, sources@, ids@),
        functions_loaded_upto(input@, modules@, sources@, ids@, builder.struct_count as nat, old(functions)@, modules@.len() as int, 0),
        forall|f: int| 0 <= f < old(functions)@.len() ==> (#[trigger] old(functions)@[f]).code is None,
    ensures
        final(functions)@.len() == old(functions)@.len(),
        forall|f: int| 0 <= f < old(functions)@.len() ==> same_but_code(#[trigger] final(functions)@[f], old(functions)@[f]),
        r is Ok ==> forall|f: int|
            0 <= f < old(functions)@.len() ==> code_resolved(
                raw_at(input@, sources@[final(functions)@[f].module as int]),
                builder.resolution(ids@, function_map@),
                builder.struct_count as nat,
                old(functions)@.len() as nat,
                #[trigger] final(functions)@[f],
            ),
        r is Ok <==> forall|f: int|
            0 <= f < old(functions)@.len() ==> function_code_ok(builder.resolution(ids@, function_map@), input@, sources@, #[trigger] old(functions)@[f]),
        r is Err ==> r->Err_0 is UnresolvedSymbol || r->Err_0 is UnsupportedConstruct,
        r is Err ==> exists|f: int|
            0 <= f < old(functions)@.len() && function_code_error(builder.resolution(ids@, function_map@), input@, sources@, #[trigger] old(functions)@[f], r->Err_0),
{
    let ghost ctx = builder.resolution(ids@, function_map@);
    let ghost functions0 = functions@;
    let function_count = functions.len();
    let mut f: usize = 0;
    while f < functions.len()
        invariant
            input_ok(input@),
            ids.wf(),
            builder.wf(),
            functions0 == old(functions)@,
            function_count == functions0.len(),
            functions@.len() == functions0.len(),
            f <= functions@.len(),
            values_below(function_map@, function_count as nat),
            modules_from(input@, builder.packages@, modules@, sources@, ids@),
            functions_loaded_upto(input@, modules@, sources@, ids@, builder.struct_count as nat, functions0, modules@.len() as int, 0),
            forall|t: int| 0 <= t < functions0.len() ==> same_but_code(#[trigger] functions@[t], functions0[t]),
            forall|t: int| f <= t < functions0.len() ==> (#[trigger] functions@[t]).code is None,
            forall|t: int|
                0 <= t < f ==> code_resolved(
                    raw_at(input@, sources@[functions@[t].module as int]),
                    builder.resolution(ids@, function_map@),
                    builder.struct_count as nat,
                    function_count as nat,
                    #[trigger] functions@[t],
                ),
            ctx == builder.resolution(ids@, function_map@),
            forall|t: int| 0 <= t < f ==> function_code_ok(ctx, input@, sources@, #[trigger] functions0[t]),
        decreases functions@.len() - f,
    {
        let m = functions[f].module;
        let pkg = functions[f].package;
        proof {
            assert(function_from(input@, modules@, sources@, ids@, builder.struct_count as nat, functions0[f as int], f as int));
            assert(module_from(input@, builder.packages@, modules@[m as int], m as int, sources@[m as int], ids@));
            assert(module_ok(input@, sources@[m as int].0 as int, sources@[m as int].1 as int));
        }
        let src = sources[m];
        let raw = &input[src.0].modules[src.1].1;
        let def = &raw.function_defs[functions[f].def_idx];
        proof {
            assert(raw.function_def_wf(*def));
        }
        proof {
            assert(same_but_code(functions@[f as int], functions0[f as int]));
            assert(raw_at(input@, sources@[functions0[f as int].module as int]) == *raw);
        }
        match &def.code {
            None => {},
            Some(cu) => {
                proof {
                    assert(crate::file_format::tokens_wf(raw.signatures@[cu.locals as int]@, raw.struct_handles@.len()));
                }
                let locals = match builder.make_types(ids, pkg, raw, &raw.signatures[cu.locals]) {
                    Ok(l) => l,
                    Err(e) => {
                        proof {
                            assert(function_code_error(ctx, input@, sources@, functions0[f as int], e));
                        }
                        return Err(e);
                    },
                };
                let code = match resolve_code(ids, builder, function_map, function_count, pkg, raw, &cu.code) {
                    Ok(c) => c,
                    Err(e) => {
                        proof {
                            let k = choose|k: int| 0 <= k < cu.code@.len() && ctx.bytecode_error(pkg as int, *raw, #[trigger] cu.code@[k], e);
                            assert(function_code_error(ctx, input@, sources@, functions0[f as int], e));
                        }
                        return Err(e);
                    },
                };
                let ghost before = functions@;
                functions[f].code = Some(Code { locals, code });
                proof {
                    assert forall|t: int| 0 <= t < functions0.len() && t != f implies functions@[t] == before[t] by {}
                    assert(raw_at(input@, sources@[functions@[f as int].module as int]) == *raw);
                    assert(functions@[f as int].def_idx == before[f as int].def_idx);
                    assert(raw.function_defs@[functions@[f as int].def_idx as int] == *def);
                    assert(functions@[f as int].package == pkg);
                    lemma_code_resolved_intro(
                        *raw,
                        builder.resolution(ids@, function_map@),
                        builder.struct_count as nat,
                        function_count as nat,
                        functions@[f as int],
                        *cu,
                    );
                    assert(function_code_ok(ctx, input@, sources@, functions0[f as int]));
                }
            },
        }
        f += 1;
    }
    Ok(())
}


/// Whether the code of function `fun` resolves: its locals and every
/// instruction; a native function has none to resolve.
pub open spec fn function_code_ok(
    ctx: crate::resolver::ResolutionContext,
    input: Seq<RawPackage>,
    sources: Seq<(usize, usize)>,
    fun: Function,
) -> bool {
    let raw = raw_at(input, sources[fun.module as int]);
    match raw.function_defs@[fun.def_idx as int].code {
        None => true,
        Some(cu) => ctx.sig_resolvable(fun.package as int, raw, cu.locals as int) && forall|k: int|
            0 <= k < cu.code@.len() ==> ctx.bytecode_resolvable(fun.package as int, raw, #[trigger] cu.code@[k]),
    }
}

/// Whether `e` is an error that resolving the code of function `fun`
/// reports: one of its locals' types, or one of its instructions.
pub open spec fn function_code_error(
    ctx: crate::resolver::ResolutionContext,
    input: Seq<RawPackage>,
    sources: Seq<(usize, usize)>,
    fun: Function,
    e: PackageAnalyzerError,
) -> bool {
    let raw = raw_at(input, sources[fun.module as int]);
    match raw.function_defs@[fun.def_idx as int].code {
        None => false,
        Some(cu) => ctx.sig_error(fun.package as int, raw, cu.locals as int, e) || exists|k: int|
            0 <= k < cu.code@.len() && ctx.bytecode_error(fun.package as int, raw, #[trigger] cu.code@[k], e),
    }
}

/// Struct `s` of `env` was loaded from definition `d` of `raw`, module `m`
/// of package `p`: its name, abilities and type parameters are those of the
/// definition's handle, and its fields those the definition declares, with
/// interned names and resolved types.
pub open spec fn struct_built(env: GlobalEnv, p: int, m: int, raw: RawModule, d: int, s: int) -> bool {
    let st = env.structs@[s];
    let h = raw.struct_handles@[def_handle(raw, d)];
    &&& st.module == m
    &&& st.def_idx == d
    &&& st.package == p
    &&& env.identifiers@[st.name as int] == raw.struct_handle_name(def_handle(raw, d))
    &&& st.abilities == h.abilities
    &&& st.type_parameters@ == h.type_parameters@
    &&& declared_field_count(raw, d) == Some(st.fields@.len())
    &&& forall|j: int|
        0 <= j < st.fields@.len() ==> field_loaded(
            env.context().types,
            p,
            raw,
            #[trigger] st.fields@[j],
            declared_fields(raw, d)[j],
            env.structs@.len(),
        )
}

/// Function `fun` of `env` was loaded from definition `d` of `raw`, a module
/// of package `p`: its name, type parameters, parameter and return types
/// are those of the definition's handle, resolved; its visibility and entry
/// flag those of the definition.
pub open spec fn function_built(env: GlobalEnv, p: int, raw: RawModule, d: int, fun: Function) -> bool {
    let def = raw.function_defs@[d];
    let h = def_function_handle(raw, d);
    &&& fun.package == p
    &&& env.identifiers@[fun.name as int] == raw.function_handle_name(def.function as int)
    &&& fun.visibility == def.visibility
    &&& fun.is_entry == def.is_entry
    &&& fun.type_parameters@ == h.type_parameters@
    &&& env.context().types.tokens_resolve_to(p, raw, raw.signatures@[h.parameters as int]@, fun.parameters@)
    &&& env.context().types.tokens_resolve_to(p, raw, raw.signatures@[h.return_ as int]@, fun.returns@)
}

/// The environment holds, for every input package, module and definition,
/// the entity loaded from it, and every function's code is the resolution of
/// its definition's code.
pub open spec fn built_from(env: GlobalEnv, input: Seq<RawPackage>) -> bool {
    &&& env.packages@.len() == input.len()
    &&& env.modules@.len() == modules_before(input, input.len() as int)
    &&& env.structs@.len() == structs_before(input, env.modules@.len() as int)
    &&& env.functions@.len() == functions_before(input, env.modules@.len() as int)
    &&& forall|p: int, k: int|
        0 <= p < input.len() && 0 <= k < input[p].modules@.len() ==> #[trigger] env.packages@[p].modules@[k]
            == modules_before(input, p) + k
    &&& forall|m: int, d: int|
        0 <= m < env.modules@.len() && 0 <= d < env.modules@[m].structs@.len() ==> #[trigger] env.modules@[m].structs@[d]
            == structs_before(input, m) + d
    &&& forall|m: int, d: int|
        0 <= m < env.modules@.len() && 0 <= d < env.modules@[m].functions@.len() ==> #[trigger] env.modules@[m].functions@[d]
            == functions_before(input, m) + d
    &&& forall|p: int|
        0 <= p < input.len() ==> package_loaded(#[trigger] env.packages@[p], input[p], p)
            && env.packages@[p].modules@.len() == input[p].modules@.len()
    &&& forall|p: int, k: int|
        0 <= p < input.len() && 0 <= k < input[p].modules@.len() ==> {
            let m = #[trigger] env.packages@[p].modules@[k] as int;
            let raw = input[p].modules@[k].1;
            let md = env.modules@[m];
            &&& md.package == p
            &&& env.identifiers@[md.name as int] == input[p].modules@[k].0@
            &&& md.structs@.len() == raw.struct_defs@.len()
            &&& md.functions@.len() == raw.function_defs@.len()
            &&& md.constants@.len() == raw.constant_pool@.len()
            &&& forall|j: int|
                0 <= j < md.constants@.len() ==> (#[trigger] md.constants@[j]).constant == j
                    && env.context().types.token_resolves_to(p, raw, raw.constant_pool@[j].type_, md.constants@[j].type_)
            &&& forall|d: int|
                0 <= d < raw.struct_defs@.len() ==> struct_built(env, p, m, raw, d, #[trigger] md.structs@[d] as int)
            &&& forall|d: int|
                0 <= d < raw.function_defs@.len() ==> {
                    let fun = env.functions@[#[trigger] md.functions@[d] as int];
                    &&& fun.module == m
                    &&& fun.def_idx == d
                    &&& function_built(env, p, raw, d, fun)
                    &&& code_resolved(
                        raw,
                        env.context(),
                        env.structs@.len(),
                        env.functions@.len(),
                        fun,
                    )
                }
        }
    &&& forall|s: int|
        0 <= s < env.structs@.len() ==> env.structs@[s].def_idx < env.modules@[env.structs@[s].module as int].structs@.len()
            && env.modules@[env.structs@[s].module as int].structs@[(#[trigger] env.structs@[s]).def_idx as int] == s
    &&& forall|f: int|
        0 <= f < env.functions@.len() ==> env.functions@[f].def_idx < env.modules@[env.functions@[f].module as int].functions@.len()
            && env.modules@[env.functions@[f].module as int].functions@[(#[trigger] env.functions@[f]).def_idx as int] == f
}


/// The function that a call instruction calls.
pub open spec fn callee(b: Bytecode) -> Option<FunctionIndex> {
    match b {
        Bytecode::Call(g) => Some(g),
        Bytecode::CallGeneric(g, _) => Some(g),
        _ => None,
    }
}

/// A call instruction calls a function below `n`.
pub open spec fn callee_below(b: Bytecode, n: nat) -> bool {
    match callee(b) {
        Some(g) => g < n,
        None => true,
    }
}

/// Instruction `k` of function `f`, a function of module `m`, calls a
/// function of module `x`.
pub open spec fn call_at(functions: Seq<Function>, f: int, k: int, m: int, x: int) -> bool {
    &&& 0 <= f < functions.len()
    &&& functions[f].module == m
    &&& functions[f].code is Some
    &&& 0 <= k < functions[f].code->Some_0.code@.len()
    &&& callee(functions[f].code->Some_0.code@[k]) matches Some(g) && 0 <= g < functions.len()
        && functions[g as int].module == x
}

/// Some function of module `m` calls into module `x`, another module.
pub open spec fn calls_into(functions: Seq<Function>, m: int, x: int) -> bool {
    x != m && exists|f: int, k: int| call_at(functions, f, k, m, x)
}

/// Some instruction before instruction `k` of function `f` calls from
/// module `m` into another module `x`.
pub open spec fn calls_before(functions: Seq<Function>, m: int, x: int, f: int, k: int) -> bool {
    x != m && exists|f2: int, k2: int|
        (f2 < f || (f2 == f && k2 < k)) && #[trigger] call_at(functions, f2, k2, m, x)
}

/// Module `md` is `old` with its dependency list filled in.
pub open spec fn same_but_dependencies(md: Module, old: Module) -> bool {
    &&& md.self_idx == old.self_idx
    &&& md.package == old.package
    &&& md.name == old.name
    &&& md.module_id == old.module_id
    &&& md.functions == old.functions
    &&& md.structs == old.structs
    &&& md.constants == old.constants
}

/// The dependency lists of `modules` hold exactly the modules that
/// instructions before instruction `k` of function `f` call into, once each.
pub open spec fn dependencies_upto(functions: Seq<Function>, modules: Seq<Module>, f: int, k: int) -> bool {
    forall|m: int|
        0 <= m < modules.len() ==> {
            let deps = (#[trigger] modules[m]).dependencies@;
            &&& deps.no_duplicates()
            &&& forall|x: int| 0 <= x < modules.len() ==> (deps.contains(x as usize) <==> calls_before(functions, m, x, f, k))
            &&& forall|j: int| 0 <= j < deps.len() ==> (deps[j] as int) < modules.len()
        }
}

/// Records, in each module, the other modules its functions call into, in
/// order of first call.
pub fn load_dependencies(functions: &Vec<Function>, modules: &mut Vec<Module>)
    requires
        forall|f: int| 0 <= f < functions@.len() ==> (#[trigger] functions@[f]).module < old(modules)@.len(),
        forall|f: int, k: int|
            0 <= f < functions@.len() && functions@[f].code is Some && 0 <= k < functions@[f].code->Some_0.code@.len()
                ==> callee_below(#[trigger] functions@[f].code->Some_0.code@[k], functions@.len()),
        forall|m: int| 0 <= m < old(modules)@.len() ==> (#[trigger] old(modules)@[m]).dependencies@.len() == 0,
    ensures
        final(modules)@.len() == old(modules)@.len(),
        forall|m: int| 0 <= m < old(modules)@.len() ==> same_but_dependencies(#[trigger] final(modules)@[m], old(modules)@[m]),
        forall|m: int|
            0 <= m < final(modules)@.len() ==> {
                let deps = (#[trigger] final(modules)@[m]).dependencies@;
                &&& deps.no_duplicates()
                &&& forall|x: int| 0 <= x < final(modules)@.len() ==> (deps.contains(x as usize) <==> calls_into(functions@, m, x))
                &&& forall|j: int| 0 <= j < deps.len() ==> (deps[j] as int) < final(modules)@.len()
            },
{
    let ghost modules0 = modules@;
    let mut f: usize = 0;
    proof {
        assert forall|m: int| 0 <= m < modules@.len() implies {
            let deps = (#[trigger] modules@[m]).dependencies@;
            &&& deps.no_duplicates()
            &&& forall|x: int| 0 <= x < modules@.len() ==> (deps.contains(x as usize) <==> calls_before(functions@, m, x, 0, 0))
            &&& forall|j: int| 0 <= j < deps.len() ==> (deps[j] as int) < modules@.len()
        } by {
            assert forall|x: int| 0 <= x < modules@.len() implies !calls_before(functions@, m, x, 0, 0) by {
                if calls_before(functions@, m, x, 0, 0) {
                    let (f2, k2) = choose|f2: int, k2: int| (f2 < 0 || (f2 == 0 && k2 < 0)) && #[trigger] call_at(functions@, f2, k2, m, x);
                }
            }
        }
    }
    while f < functions.len()
        invariant
            modules0 == old(modules)@,
            modules@.len() == modules0.len(),
            f <= functions@.len(),
            forall|g: int| 0 <= g < functions@.len() ==> (#[trigger] functions@[g]).module < modules0.len(),
            forall|g: int, k: int|
                0 <= g < functions@.len() && functions@[g].code is Some && 0 <= k < functions@[g].code->Some_0.code@.len()
                    ==> callee_below(#[trigger] functions@[g].code->Some_0.code@[k], functions@.len()),
            forall|m: int| 0 <= m < modules0.len() ==> same_but_dependencies(#[trigger] modules@[m], modules0[m]),
            dependencies_upto(functions@, modules@, f as int, 0),
        decreases functions@.len() - f,
    {
        let func = &functions[f];
        let m = func.module;
        match &func.code {
            None => {
                proof {
                    let f1 = f + 1;
                    assert forall|mm: int, x: int| 0 <= mm < modules@.len() && 0 <= x < modules@.len() implies
                        (calls_before(functions@, mm, x, f as int, 0) <==> calls_before(functions@, mm, x, f1, 0)) by {
                        if calls_before(functions@, mm, x, f1, 0) {
                            let (f2, k2) = choose|f2: int, k2: int| (f2 < f1 || (f2 == f1 && k2 < 0)) && #[trigger] call_at(functions@, f2, k2, mm, x);
                            assert(f2 < f);
                        }
                        if calls_before(functions@, mm, x, f as int, 0) {
                            let (f2, k2) = choose|f2: int, k2: int| (f2 < f || (f2 == f && k2 < 0)) && #[trigger] call_at(functions@, f2, k2, mm, x);
                            assert(call_at(functions@, f2, k2, mm, x));
                        }
                    }
                }
            },
            Some(code) => {
                let mut k: usize = 0;
                while k < code.code.len()
                    invariant
                        modules0 == old(modules)@,
                        modules@.len() == modules0.len(),
                        f < functions@.len(),
                        *func == functions@[f as int],
                        m == func.module,
                        func.code == Some(*code),
                        k <= code.code@.len(),
                        forall|g: int| 0 <= g < functions@.len() ==> (#[trigger] functions@[g]).module < modules0.len(),
                        forall|g: int, kk: int|
                            0 <= g < functions@.len() && functions@[g].code is Some && 0 <= kk < functions@[g].code->Some_0.code@.len()
                                ==> callee_below(#[trigger] functions@[g].code->Some_0.code@[kk], functions@.len()),
                        forall|mm: int| 0 <= mm < modules0.len() ==> same_but_dependencies(#[trigger] modules@[mm], modules0[mm]),
                        dependencies_upto(functions@, modules@, f as int, k as int),
                    decreases code.code@.len() - k,
                {
                    let target = match &code.code[k] {
                        Bytecode::Call(g) => Some(*g),
                        Bytecode::CallGeneric(g, _) => Some(*g),
                        _ => None,
                    };
                    let ghost before = modules@;
                    let ghost added: Option<int> = None;
                    match target {
                        Some(g) => {
                            proof {
                                assert(callee(code.code@[k as int]) == Some(g));
                                assert(callee_below(functions@[f as int].code->Some_0.code@[k as int], functions@.len()));
                            }
                            let x = functions[g].module;
                            if x != m && !contains_index(&modules[m].dependencies, x) {
                                proof {
                                    assert(functions@[g as int].module < modules@.len());
                                }
                                modules[m].dependencies.push(x);
                                proof {
                                    added = Some(x as int);
                                }
                            }
                        },
                        None => {},
                    }
                    proof {
                        let k1 = k + 1;
                        assert forall|mm: int| 0 <= mm < modules@.len() implies {
                            let deps = (#[trigger] modules@[mm]).dependencies@;
                            &&& deps.no_duplicates()
                            &&& forall|x: int| 0 <= x < modules@.len() ==> (deps.contains(x as usize) <==> #[trigger] calls_before(functions@, mm, x, f as int, k1))
                            &&& forall|j: int| 0 <= j < deps.len() ==> (deps[j] as int) < modules@.len()
                        } by {
                            let deps = modules@[mm].dependencies@;
                            let old_deps = before[mm].dependencies@;
                            if mm == m as int && added is Some {
                                assert(deps == old_deps.push(added->Some_0 as usize));
                            } else {
                                assert(deps == old_deps);
                            }
                            assert forall|x: int| 0 <= x < modules@.len() implies (deps.contains(x as usize) <==> #[trigger] calls_before(functions@, mm, x, f as int, k1)) by {
                                if calls_before(functions@, mm, x, f as int, k1) {
                                    let (f2, k2) = choose|f2: int, k2: int| (f2 < f || (f2 == f && k2 < k1)) && #[trigger] call_at(functions@, f2, k2, mm, x);
                                    if f2 == f && k2 == k {
                                        if !(old_deps.contains(x as usize)) {
                                            assert(added == Some(x) && mm == m as int);
                                            assert(deps[deps.len() - 1] == x as usize);
                                        } else if mm == m as int && added is Some {
                                            let j = choose|j: int| 0 <= j < old_deps.len() && old_deps[j] == x as usize;
                                            assert(deps[j] == x as usize);
                                        }
                                    } else {
                                        assert(calls_before(functions@, mm, x, f as int, k as int));
                                        if mm == m as int && added is Some {
                                            let j = choose|j: int| 0 <= j < old_deps.len() && old_deps[j] == x as usize;
                                            assert(deps[j] == x as usize);
                                        }
                                    }
                                }
                                if deps.contains(x as usize) {
                                    if mm == m as int && added == Some(x) {
                                        assert(call_at(functions@, f as int, k as int, mm, x));
                                    } else {
                                        if mm == m as int && added is Some {
                                            let j = choose|j: int| 0 <= j < deps.len() && deps[j] == x as usize;
                                            assert(deps[deps.len() - 1] == added->Some_0 as usize);
                                            assert(modules@.len() == modules.len());
                                            assert((x as usize) as int == x);
                                            assert(added->Some_0 < modules@.len());
                                            assert(j < old_deps.len());
                                            assert(old_deps[j] == x as usize);
                                        }
                                        assert(old_deps.contains(x as usize));
                                        assert(calls_before(functions@, mm, x, f as int, k as int));
                                        let (f2, k2) = choose|f2: int, k2: int| (f2 < f || (f2 == f && k2 < k)) && #[trigger] call_at(functions@, f2, k2, mm, x);
                                        assert(call_at(functions@, f2, k2, mm, x));
                                    }
                                }
                            }
                            if mm == m as int && added is Some {
                                assert(deps == old_deps.push(added->Some_0 as usize));
                                assert(!old_deps.contains(added->Some_0 as usize));
                            }
                        }
                        assert(dependencies_upto(functions@, modules@, f as int, k1));
                    }
                    k += 1;
                }
                proof {
                    let f1 = f + 1;
                    assert forall|mm: int, x: int| 0 <= mm < modules@.len() && 0 <= x < modules@.len() implies
                        (calls_before(functions@, mm, x, f as int, k as int) <==> calls_before(functions@, mm, x, f1, 0)) by {
                        if calls_before(functions@, mm, x, f1, 0) {
                            let (f2, k2) = choose|f2: int, k2: int| (f2 < f1 || (f2 == f1 && k2 < 0)) && #[trigger] call_at(functions@, f2, k2, mm, x);
                            assert(call_at(functions@, f2, k2, mm, x));
                        }
                        if calls_before(functions@, mm, x, f as int, k as int) {
                            let (f2, k2) = choose|f2: int, k2: int| (f2 < f || (f2 == f && k2 < k)) && #[trigger] call_at(functions@, f2, k2, mm, x);
                            assert(call_at(functions@, f2, k2, mm, x));
                        }
                    }
                }
            },
        }
        f += 1;
    }
    proof {
        assert forall|mm: int, x: int| 0 <= mm < modules@.len() && 0 <= x < modules@.len() implies
            (calls_before(functions@, mm, x, f as int, 0) <==> calls_into(functions@, mm, x)) by {
            if calls_into(functions@, mm, x) {
                let (f2, k2) = choose|f2: int, k2: int| call_at(functions@, f2, k2, mm, x);
                assert(call_at(functions@, f2, k2, mm, x));
            }
            if calls_before(functions@, mm, x, f as int, 0) {
                let (f2, k2) = choose|f2: int, k2: int| (f2 < f || (f2 == f && k2 < 0)) && #[trigger] call_at(functions@, f2, k2, mm, x);
                assert(call_at(functions@, f2, k2, mm, x));
            }
        }
    }
}

/// Whether `v` holds `x`.
fn contains_index(v: &Vec<usize>, x: usize) -> (r: bool)
    ensures
        r == v@.contains(x),
{
    let mut i: usize = 0;
    while i < v.len()
        invariant
            i <= v@.len(),
            forall|j: int| 0 <= j < i ==> v@[j] != x,
        decreases v@.len() - i,
    {
        if v[i] == x {
            return true;
        }
        i += 1;
    }
    false
}

/// Builds the environment out of a batch of packages: every entity gets its
/// global index in input order and every reference is resolved. Any failure
/// aborts the whole build.
#[verifier::rlimit(40)]
pub fn build_environment(packages: Vec<RawPackage>) -> (r: Result<GlobalEnv, PackageAnalyzerError>)
    ensures
        !input_ok(packages@) ==> r is Err && r->Err_0 is MalformedInput,
        input_ok(packages@) && has_duplicate_package(packages@) ==> r is Err && r->Err_0 is InvariantViolation,
        r is Ok ==> r->Ok_0.wf() && built_from(r->Ok_0, packages@),
        input_ok(packages@) && !has_duplicate_package(packages@) && has_duplicate_module(packages@)
            ==> r is Err && r->Err_0 is InvariantViolation,
        input_ok(packages@) && !has_duplicate_package(packages@) && !has_duplicate_module(packages@)
            && has_duplicate_struct(packages@) ==> r is Err && r->Err_0 is InvariantViolation,
        r is Ok ==> input_ok(packages@) && !has_duplicate_package(packages@) && !has_duplicate_module(
            packages@,
        ) && !has_duplicate_struct(packages@) && !has_duplicate_function(packages@),
        input_ok(packages@) && !has_duplicate_package(packages@) && !has_duplicate_module(packages@)
            && !has_duplicate_struct(packages@) && !has_duplicate_function(packages@)
            && crate::resolvable::resolvable(packages@) ==> r is Ok,
        r is Err && (r->Err_0 is UnresolvedSymbol || r->Err_0 is UnsupportedConstruct)
            ==> !crate::resolvable::resolvable(packages@),
        r is Ok ==> crate::resolvable::resolvable(packages@),
        r is Err && r->Err_0 is MalformedInput ==> !input_ok(packages@),
        r is Err && (r->Err_0 is UnresolvedSymbol || r->Err_0 is UnsupportedConstruct) ==> input_ok(
            packages@,
        ) && !has_duplicate_package(packages@) && !has_duplicate_module(packages@)
            && !has_duplicate_struct(packages@),
        r is Err && r->Err_0 is InvariantViolation ==> has_duplicate_package(packages@)
            || has_duplicate_module(packages@) || has_duplicate_struct(packages@)
            || has_duplicate_function(packages@),
        r is Ok ==> forall|m: int|
            0 <= m < r->Ok_0.modules@.len() ==> {
                let deps = (#[trigger] r->Ok_0.modules@[m]).dependencies@;
                &&& deps.no_duplicates()
                &&& forall|x: int|
                    0 <= x < r->Ok_0.modules@.len() ==> (deps.contains(x as usize) <==> calls_into(
                        r->Ok_0.functions@,
                        m,
                        x,
                    ))
            },
{
    let input = packages;
    check_input(&input)?;
    let (mut pkgs, package_map) = load_packages(&input)?;
    let ghost pkgs0 = pkgs@;
    let mut ids = IdentifierMap::new();
    let (mut modules, module_map, sources) = load_modules(&input, &mut ids, &mut pkgs)?;
    let ghost ids1 = ids@;
    let ghost modules1 = modules@;
    let (mut structs, struct_map) = load_structs(&input, &sources, &mut ids, &mut modules, &pkgs)?;
    let ghost ids2 = ids@;
    let ghost modules2 = modules@;
    let ghost structs2 = structs@;
    let struct_count = structs.len();
    let builder = TypeBuilder { packages: pkgs, struct_map, struct_count };
    proof {
        lemma_modules_from_grow(input@, builder.packages@, modules1, sources@, ids1, ids2);
        assert forall|m: int| 0 <= m < modules2.len() implies module_from(input@, builder.packages@, #[trigger] modules2[m], m, sources@[m], ids2) by {
            assert(module_from(input@, builder.packages@, modules1[m], m, sources@[m], ids2));
            assert(same_but_structs(modules2[m], modules1[m]));
        }
        assert(modules_from(input@, builder.packages@, modules2, sources@, ids2));
    }
    proof {
        assert forall|m: int| 0 <= m < modules.len() implies {
            let src = #[trigger] sources@[m];
            src.0 < input@.len() && src.1 < input@[src.0 as int].modules@.len()
        } by {
            assert(module_from(input@, builder.packages@, modules2[m], m, sources@[m], ids2));
        }
    }
    intern_field_names(&input, &sources, modules.len(), &mut ids);
    let ghost ids_fields = ids@;
    intern_function_names(&input, &sources, modules.len(), &mut ids);
    let ghost ids3 = ids@;
    proof {
        lemma_field_names_grow(input@, sources@, modules.len() as int, ids_fields, ids3);
        lemma_modules_from_grow(input@, builder.packages@, modules2, sources@, ids2, ids3);
        lemma_structs_loaded_grow(input@, modules2, sources@, ids2, ids3, structs2);
    }
    let ghost builder_ctx = builder.context(ids@);
    proof {
        ids.lemma_distinct();
        assert(input@.len() == input.len());
        assert forall|q: int| 0 <= q < input@.len() implies (#[trigger] input@[q]).modules@.len() <= usize::MAX by {
            assert(input@[q].modules@.len() == input@[q].modules.len());
        }
        assert(crate::resolvable::structs_state(input@, builder.packages@, modules2, sources@, ids3, structs2, builder.struct_map@));
        if crate::resolvable::resolvable(input@) {
            crate::resolvable::lemma_fields_ok(input@, builder.packages@, modules2, sources@, ids3, structs2, builder.struct_map@);
            crate::resolvable::lemma_constants_ok(input@, builder.packages@, modules2, sources@, ids3, structs2, builder.struct_map@);
            crate::resolvable::lemma_signatures_ok(input@, builder.packages@, modules2, sources@, ids3, structs2, builder.struct_map@);
        }
    }
    load_fields(&input, &sources, &ids, &builder, &modules, &mut structs)?;
    load_constants(&input, &sources, &ids, &builder, &mut modules)?;
    let ghost modules3 = modules@;
    proof {
        assert forall|m: int| 0 <= m < modules3.len() implies module_from(input@, builder.packages@, #[trigger] modules3[m], m, sources@[m], ids3) by {
            assert(module_from(input@, builder.packages@, modules2[m], m, sources@[m], ids3));
            assert(same_but_constants(modules3[m], modules2[m]));
        }
        assert(modules_from(input@, builder.packages@, modules3, sources@, ids3));
        assert forall|m: int| 0 <= m < modules3.len() implies (#[trigger] modules3[m]).functions@.len() == 0 by {
            assert(same_but_constants(modules3[m], modules2[m]));
            assert(same_but_structs(modules2[m], modules1[m]));
        }
    }
    let ghost ids3b = ids@;
    proof {
        if crate::resolvable::resolvable(input@) {
            assert forall|m: int, d: int|
                0 <= m < modules3.len() && 0 <= d < raw_at(input@, sources@[m]).function_defs@.len()
                    implies #[trigger] function_sig_ok(builder.context(ids@), input@, sources@, modules3[m].package as int, m, d) by {
                assert(same_but_constants(modules3[m], modules2[m]));
                assert(function_sig_ok(builder_ctx, input@, sources@, modules2[m].package as int, m, d));
            }
        }
    }
    let (mut functions, function_map) = load_functions(&input, &sources, &mut ids, &builder, &mut modules)?;
    let ghost ids4 = ids@;
    let ghost modules4 = modules@;
    let ghost functions4 = functions@;
    proof {
        lemma_modules_from_grow(input@, builder.packages@, modules3, sources@, ids3b, ids4);
        assert forall|m: int| 0 <= m < modules4.len() implies module_from(input@, builder.packages@, #[trigger] modules4[m], m, sources@[m], ids4) by {
            assert(module_from(input@, builder.packages@, modules3[m], m, sources@[m], ids4));
            assert(same_but_functions(modules4[m], modules3[m]));
        }
        assert(modules_from(input@, builder.packages@, modules4, sources@, ids4));
        assert forall|k: EntityKey| #[trigger] function_map@.contains_key(k) implies (function_map@[k] as nat) < functions4.len() by {}
    }
    proof {
        if crate::resolvable::resolvable(input@) {
            assert(crate::resolvable::structs_state(input@, builder.packages@, modules2, sources@, ids4, structs2, builder.struct_map@));
            crate::resolvable::lemma_code_ok(input@, builder.packages@, modules2, sources@, ids4, structs2, builder.struct_map@, modules4, struct_count as nat, functions4, function_map@);
        }
    }
    load_code(&input, &sources, &ids, &builder, &function_map, &modules, &mut functions)?;
    proof {
        assert(crate::resolvable::structs_state(input@, builder.packages@, modules2, sources@, ids4, structs2, builder.struct_map@));
        assert forall|m: int, d: int|
            0 <= m < modules2.len() && 0 <= d < raw_at(input@, sources@[m]).function_defs@.len()
                implies #[trigger] function_sig_ok(builder_ctx, input@, sources@, modules2[m].package as int, m, d) by {
            assert(same_but_constants(modules3[m], modules2[m]));
            assert(function_sig_ok(builder.context(ids3b), input@, sources@, modules3[m].package as int, m, d));
        }
        crate::resolvable::lemma_stages_resolvable(input@, builder.packages@, modules2, sources@, ids4, structs2, builder.struct_map@, modules4, struct_count as nat, functions4, function_map@);
    }
    let ghost ctx = builder.resolution(ids@, function_map@);
    proof {
        assert forall|f: int| 0 <= f < functions@.len() implies (#[trigger] functions@[f]).module < modules@.len() by {
            assert(same_but_code(functions@[f], functions4[f]));
            assert(function_from(input@, modules4, sources@, ids4, struct_count as nat, functions4[f], f));
        }
        assert forall|f: int, k: int|
            0 <= f < functions@.len() && functions@[f].code is Some && 0 <= k < functions@[f].code->Some_0.code@.len()
                implies callee_below(#[trigger] functions@[f].code->Some_0.code@[k], functions@.len()) by {
            let fun = functions@[f];
            assert(same_but_code(fun, functions4[f]));
            assert(function_from(input@, modules4, sources@, ids4, struct_count as nat, functions4[f], f));
            let raw = raw_at(input@, sources@[fun.module as int]);
            assert(code_resolved(raw, ctx, struct_count as nat, functions4.len() as nat, fun));
            let cu = raw.function_defs@[fun.def_idx as int].code->Some_0;
            assert(ctx.bytecode_resolves_to(fun.package as int, raw, cu.code@[k], fun.code->Some_0.code@[k]));
            assert(bytecode_valid(fun.code->Some_0.code@[k], struct_count as nat, functions4.len() as nat));
        }
        assert forall|m: int| 0 <= m < modules@.len() implies (#[trigger] modules@[m]).dependencies@.len() == 0 by {
            assert(same_but_functions(modules4[m], modules3[m]));
            assert(same_but_constants(modules3[m], modules2[m]));
            assert(same_but_structs(modules2[m], modules1[m]));
        }
    }
    load_dependencies(&functions, &mut modules);
    let ghost modules5 = modules@;
    let TypeBuilder { packages: pkgs, struct_map, struct_count: _ } = builder;
    let env = GlobalEnv {
        packages: pkgs,
        modules,
        functions,
        structs,
        identifiers: ids,
        package_map,
        module_map,
        function_map,
        struct_map,
    };
    proof {
        let n = env.sizes();
        assert(env.context() == ctx);
        assert forall|m: int| 0 <= m < modules4.len() implies {
            &&& same_but_structs(modules2[m], modules1[m])
            &&& same_but_constants(modules3[m], modules2[m])
            &&& same_but_functions(modules4[m], modules3[m])
            &&& same_but_dependencies(#[trigger] modules5[m], modules4[m])
        } by {}
        assert forall|m: int| 0 <= m < modules5.len() implies module_from(input@, env.packages@, #[trigger] modules5[m], m, sources@[m], ids4) by {
            assert(module_from(input@, env.packages@, modules4[m], m, sources@[m], ids4));
        }
        assert(modules_from(input@, env.packages@, modules5, sources@, ids4));
        // every package lists valid modules
        assert forall|p: int| 0 <= p < env.packages@.len() implies package_valid(#[trigger] env.packages@[p], p, n) by {
            assert(package_loaded(env.packages@[p], input@[p], p));
            assert forall|k: int| 0 <= k < env.packages@[p].modules@.len() implies (#[trigger] env.packages@[p].modules@[k] as nat) < n.modules by {
                assert(env.packages@[p].modules@.len() == input@[p].modules@.len());
            }
        }
        assert forall|m: int| 0 <= m < env.modules@.len() implies module_valid(#[trigger] env.modules@[m], m, n) by {
            let md = env.modules@[m];
            assert(module_from(input@, env.packages@, modules4[m], m, sources@[m], ids4));
            assert(md.structs == modules2[m].structs);
            assert forall|j: int| 0 <= j < md.structs@.len() implies (#[trigger] md.structs@[j] as nat) < n.structs by {
                assert(md.structs@[j] == modules2[m].structs@[j]);
            }
            assert forall|j: int| 0 <= j < md.functions@.len() implies (#[trigger] md.functions@[j] as nat) < n.functions by {
                assert(md.functions == modules4[m].functions);
            }
            assert forall|j: int| 0 <= j < md.dependencies@.len() implies (#[trigger] md.dependencies@[j] as nat) < n.modules by {}
            assert(md.constants == modules3[m].constants);
            assert(md.functions == modules4[m].functions);
        }
        assert forall|t: int| 0 <= t < env.structs@.len() implies struct_valid(#[trigger] env.structs@[t], t, n) by {
            let st = env.structs@[t];
            assert(same_but_fields(st, structs2[t]));
            assert(struct_from(input@, modules2, sources@, ids2, structs2[t], t));
            assert(module_from(input@, env.packages@, modules4[st.module as int], st.module as int, sources@[st.module as int], ids4));
            assert forall|k: int| 0 <= k < st.fields@.len() implies field_valid(#[trigger] st.fields@[k], n) by {}
        }
        assert forall|f: int| 0 <= f < env.functions@.len() implies function_valid(#[trigger] env.functions@[f], f, n) by {
            let fun = env.functions@[f];
            assert(same_but_code(fun, functions4[f]));
            assert(function_from(input@, modules4, sources@, ids4, struct_count as nat, functions4[f], f));
            assert(module_from(input@, env.packages@, modules4[fun.module as int], fun.module as int, sources@[fun.module as int], ids4));
            assert(code_resolved(raw_at(input@, sources@[fun.module as int]), ctx, struct_count as nat, functions4.len() as nat, fun));
            let raw = raw_at(input@, sources@[fun.module as int]);
            match raw.function_defs@[fun.def_idx as int].code {
                None => {},
                Some(cu) => {
                    assert forall|k: int| 0 <= k < fun.code->Some_0.code@.len() implies bytecode_valid(#[trigger] fun.code->Some_0.code@[k], n.structs, n.functions) by {
                        assert(ctx.bytecode_resolves_to(fun.package as int, raw, cu.code@[k], fun.code->Some_0.code@[k]));
                    }
                },
            }
        }
        assert(env.pools_valid());
        assert forall|p: int| 0 <= p < env.packages@.len() implies #[trigger] env.packages@[p].id == pkgs0[p].id by {
            assert(package_loaded(env.packages@[p], input@[p], p));
            assert(package_loaded(pkgs0[p], input@[p], p));
        }
        assert forall|k: (u128, u128)| #[trigger] env.package_map@.contains_key(k) implies {
            let p = env.package_map@[k] as int;
            0 <= p < env.packages@.len() && env.packages@[p].id.key() == k
        } by {
            let p = env.package_map@[k] as int;
            assert(pkgs0[p].id.key() == k);
        }
        assert forall|p: int| 0 <= p < env.packages@.len() implies #[trigger] env.package_map@.contains_key(
                env.packages@[p].id.key(),
            ) && env.package_map@[env.packages@[p].id.key()] == p by {
            assert(env.package_map@.contains_key(pkgs0[p].id.key()));
        }
        assert forall|m: int| 0 <= m < env.modules@.len() implies #[trigger] env.module_key(m) == module_key_of(env.packages@, modules1[m]) by {
            assert(same_but_dependencies(modules5[m], modules4[m]));
        }
        assert forall|k: ModuleKey| #[trigger] env.module_map@.contains_key(k) implies {
            let m = env.module_map@[k] as int;
            0 <= m < env.modules@.len() && env.module_key(m) == k
        } by {
            let m = env.module_map@[k] as int;
            assert(env.module_key(m) == module_key_of(env.packages@, modules1[m]));
        }
        assert forall|m: int| 0 <= m < env.modules@.len() implies #[trigger] env.module_map@.contains_key(env.module_key(m))
            && env.module_map@[env.module_key(m)] == m by {
            assert(env.module_key(m) == module_key_of(env.packages@, modules1[m]));
            assert(env.module_map@.contains_key(module_key_of(env.packages@, modules1[m])));
        }
        assert forall|t: int| 0 <= t < env.structs@.len() implies #[trigger] env.struct_key(t) == struct_key_of(env.packages@, modules2, structs2[t]) by {
            assert(same_but_fields(env.structs@[t], structs2[t]));
            assert(struct_from(input@, modules2, sources@, ids2, structs2[t], t));
        }
        assert forall|k: EntityKey| #[trigger] env.struct_map@.contains_key(k) implies {
            let t = env.struct_map@[k] as int;
            0 <= t < env.structs@.len() && env.struct_key(t) == k
        } by {
            let t = env.struct_map@[k] as int;
            assert(env.struct_key(t) == struct_key_of(env.packages@, modules2, structs2[t]));
        }
        assert forall|t: int| 0 <= t < env.structs@.len() implies #[trigger] env.struct_map@.contains_key(env.struct_key(t))
            && env.struct_map@[env.struct_key(t)] == t by {
            assert(env.struct_key(t) == struct_key_of(env.packages@, modules2, structs2[t]));
            assert(env.struct_map@.contains_key(struct_key_of(env.packages@, modules2, structs2[t])));
        }
        assert forall|f: int| 0 <= f < env.functions@.len() implies #[trigger] env.function_key(f) == function_key_of(env.packages@, modules4, functions4[f]) by {
            assert(same_but_code(env.functions@[f], functions4[f]));
            assert(function_from(input@, modules4, sources@, ids4, struct_count as nat, functions4[f], f));
            assert(same_but_dependencies(modules5[functions4[f].module as int], modules4[functions4[f].module as int]));
        }
        assert forall|k: EntityKey| #[trigger] env.function_map@.contains_key(k) implies {
            let f = env.function_map@[k] as int;
            0 <= f < env.functions@.len() && env.function_key(f) == k
        } by {
            let f = env.function_map@[k] as int;
            assert(env.function_key(f) == function_key_of(env.packages@, modules4, functions4[f]));
        }
        assert forall|f: int| 0 <= f < env.functions@.len() implies #[trigger] env.function_map@.contains_key(env.function_key(f))
            && env.function_map@[env.function_key(f)] == f by {
            assert(env.function_key(f) == function_key_of(env.packages@, modules4, functions4[f]));
            assert(env.function_map@.contains_key(function_key_of(env.packages@, modules4, functions4[f])));
        }
        assert(env.maps_consistent());
        assert forall|p: int, k: int|
            0 <= p < input@.len() && 0 <= k < input@[p].modules@.len() implies {
                let m = #[trigger] env.packages@[p].modules@[k] as int;
                let raw = input@[p].modules@[k].1;
                let md = env.modules@[m];
                &&& md.package == p
                &&& env.identifiers@[md.name as int] == input@[p].modules@[k].0@
                &&& md.structs@.len() == raw.struct_defs@.len()
                &&& md.functions@.len() == raw.function_defs@.len()
                &&& md.constants@.len() == raw.constant_pool@.len()
                &&& forall|d: int|
                    0 <= d < raw.struct_defs@.len() ==> {
                        let st = env.structs@[#[trigger] md.structs@[d] as int];
                        st.module == m && st.def_idx == d && declared_field_count(raw, d) == Some(st.fields@.len())
                    }
                &&& forall|d: int|
                    0 <= d < raw.function_defs@.len() ==> {
                        let fun = env.functions@[#[trigger] md.functions@[d] as int];
                        &&& fun.module == m
                        &&& fun.def_idx == d
                        &&& code_resolved(raw, env.context(), env.structs@.len(), env.functions@.len(), fun)
                    }
            } by {
            let m = env.packages@[p].modules@[k] as int;
            let raw = input@[p].modules@[k].1;
            let md = env.modules@[m];
            assert(sources@[m] == (p as usize, k as usize));
            assert(input@.len() == input.len());
            assert(input@[p].modules@.len() == input@[p].modules.len());
            assert(raw_at(input@, sources@[m]) == raw);
            assert(module_from(input@, env.packages@, modules4[m], m, sources@[m], ids4));
            assert(module_ok(input@, p, k));
            assert(same_but_dependencies(modules5[m], modules4[m]));
            assert(md.structs == modules2[m].structs);
            assert(env.context().types == builder_ctx);
            assert forall|j: int| 0 <= j < md.constants@.len() implies (#[trigger] md.constants@[j]).constant == j
                && env.context().types.token_resolves_to(p, raw, raw.constant_pool@[j].type_, md.constants@[j].type_) by {
                assert(md.constants == modules3[m].constants);
                assert(constants_loaded(builder_ctx, input@, sources@, modules3[m], m, struct_count as nat));
                assert(modules3[m].package == p as usize);
            }
            assert forall|d: int| 0 <= d < raw.struct_defs@.len() implies struct_built(env, p, m, raw, d, #[trigger] md.structs@[d] as int) by {
                let t = md.structs@[d] as int;
                assert(md.structs@[d] == modules2[m].structs@[d]);
                assert(same_but_fields(env.structs@[t], structs2[t]));
                assert(struct_from(input@, modules2, sources@, ids2, structs2[t], t));
                assert(ids@[structs2[t].name as int] == ids2[structs2[t].name as int]);
                assert(struct_fields_loaded(builder_ctx, input@, sources@, env.structs@[t], struct_count as nat));
            }
            assert forall|d: int| 0 <= d < raw.function_defs@.len() implies {
                let fun = env.functions@[#[trigger] md.functions@[d] as int];
                &&& fun.module == m
                &&& fun.def_idx == d
                &&& function_built(env, p, raw, d, fun)
                &&& code_resolved(raw, env.context(), env.structs@.len(), env.functions@.len(), fun)
            } by {
                let f = md.functions@[d] as int;
                assert(same_but_code(env.functions@[f], functions4[f]));
                assert(function_from(input@, modules4, sources@, ids4, struct_count as nat, functions4[f], f));
                assert(function_meta_loaded(builder_ctx, input@, sources@, functions4[f]));
            }
        }
        assert forall|m: int, d: int|
            0 <= m < env.modules@.len() && 0 <= d < env.modules@[m].structs@.len() implies #[trigger] env.modules@[m].structs@[d]
                == structs_before(input@, m) + d by {
            assert(same_but_dependencies(modules5[m], modules4[m]));
            assert(env.modules@[m].structs == modules2[m].structs);
        }
        assert forall|m: int, d: int|
            0 <= m < env.modules@.len() && 0 <= d < env.modules@[m].functions@.len() implies #[trigger] env.modules@[m].functions@[d]
                == functions_before(input@, m) + d by {
            assert(same_but_dependencies(modules5[m], modules4[m]));
        }
        assert forall|t: int| 0 <= t < env.structs@.len() implies env.structs@[t].def_idx < env.modules@[env.structs@[t].module as int].structs@.len()
            && env.modules@[env.structs@[t].module as int].structs@[(#[trigger] env.structs@[t]).def_idx as int] == t by {
            assert(same_but_fields(env.structs@[t], structs2[t]));
            assert(struct_from(input@, modules2, sources@, ids2, structs2[t], t));
            assert(same_but_dependencies(modules5[env.structs@[t].module as int], modules4[env.structs@[t].module as int]));
            assert(env.modules@[env.structs@[t].module as int].structs == modules2[env.structs@[t].module as int].structs);
        }
        assert forall|f: int| 0 <= f < env.functions@.len() implies env.functions@[f].def_idx < env.modules@[env.functions@[f].module as int].functions@.len()
            && env.modules@[env.functions@[f].module as int].functions@[(#[trigger] env.functions@[f]).def_idx as int] == f by {
            assert(same_but_code(env.functions@[f], functions4[f]));
            assert(function_from(input@, modules4, sources@, ids4, struct_count as nat, functions4[f], f));
            assert(same_but_dependencies(modules5[functions4[f].module as int], modules4[functions4[f].module as int]));
        }
    }
    Ok(env)
}

} // verus!
