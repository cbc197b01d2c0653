//! The finished environment: pools of entities, the canonical maps, and the
//! lookups that downstream consumers use.
use crate::file_format::Address;
use crate::identifiers::{IdentifierMap};
use crate::move_model::{
    bytecode_valid, Function, FunctionIndex, Module, ModuleIndex, Package, PackageIndex, Struct,
    StructIndex, Field, type_valid, types_valid,
};
use crate::resolver::{EntityKey, ModuleKey, ResolutionContext, TypeContext, find_entity};
use std::collections::BTreeMap;
use vstd::prelude::*;

verus! {

/// Pool sizes that every index of an entity must stay below.
pub ghost struct PoolSizes {
    pub packages: nat,
    pub modules: nat,
    pub structs: nat,
    pub functions: nat,
    pub identifiers: nat,
}

pub open spec fn indices_below(v: Seq<usize>, n: nat) -> bool {
    forall|k: int| 0 <= k < v.len() ==> (#[trigger] v[k] as nat) < n
}

pub open spec fn package_valid(p: Package, idx: int, n: PoolSizes) -> bool {
    &&& p.self_idx == idx
    &&& indices_below(p.modules@, n.modules)
}

pub open spec fn module_valid(m: Module, idx: int, n: PoolSizes) -> bool {
    &&& m.self_idx == idx
    &&& m.package < n.packages
    &&& m.name < n.identifiers
    &&& indices_below(m.dependencies@, n.modules)
    &&& indices_below(m.structs@, n.structs)
    &&& indices_below(m.functions@, n.functions)
    &&& forall|k: int| 0 <= k < m.constants@.len() ==> type_valid(#[trigger] m.constants@[k].type_, n.structs)
}

pub open spec fn field_valid(f: Field, n: PoolSizes) -> bool {
    f.name < n.identifiers && type_valid(f.type_, n.structs)
}

pub open spec fn struct_valid(s: Struct, idx: int, n: PoolSizes) -> bool {
    &&& s.self_idx == idx
    &&& s.package < n.packages
    &&& s.module < n.modules
    &&& s.name < n.identifiers
    &&& forall|k: int| 0 <= k < s.fields@.len() ==> field_valid(#[trigger] s.fields@[k], n)
}

pub open spec fn function_valid(f: Function, idx: int, n: PoolSizes) -> bool {
    &&& f.self_idx == idx
    &&& f.package < n.packages
    &&& f.module < n.modules
    &&& f.name < n.identifiers
    &&& types_valid(f.parameters@, n.structs)
    &&& types_valid(f.returns@, n.structs)
    &&& match f.code {
        None => true,
        Some(c) => types_valid(c.locals@, n.structs) && forall|k: int|
            0 <= k < c.code@.len() ==> bytecode_valid(#[trigger] c.code@[k], n.structs, n.functions),
    }
}

/// The environment built out of a batch of packages.
#[derive(Debug)]
pub struct GlobalEnv {
    pub packages: Vec<Package>,
    pub modules: Vec<Module>,
    pub functions: Vec<Function>,
    pub structs: Vec<Struct>,
    /// The intern table of every name.
    pub identifiers: IdentifierMap,
    /// Package address to package.
    pub package_map: BTreeMap<(u128, u128), PackageIndex>,
    /// `<package>::<module>` to module.
    pub module_map: BTreeMap<ModuleKey, ModuleIndex>,
    /// `<package>::<module>::<function>` to function.
    pub function_map: BTreeMap<EntityKey, FunctionIndex>,
    /// `<package>::<module>::<struct>` to struct.
    pub struct_map: BTreeMap<EntityKey, StructIndex>,
}

impl GlobalEnv {
    pub open spec fn sizes(&self) -> PoolSizes {
        PoolSizes {
            packages: self.packages@.len(),
            modules: self.modules@.len(),
            structs: self.structs@.len(),
            functions: self.functions@.len(),
            identifiers: self.identifiers@.len(),
        }
    }

    /// The canonical key of struct `s`.
    pub open spec fn struct_key(&self, s: int) -> EntityKey {
        let st = self.structs@[s];
        let a = self.packages@[st.package as int].id;
        (a.hi, a.lo, self.modules@[st.module as int].name, st.name)
    }

    /// The canonical key of function `f`.
    pub open spec fn function_key(&self, f: int) -> EntityKey {
        let fun = self.functions@[f];
        let a = self.packages@[fun.package as int].id;
        (a.hi, a.lo, self.modules@[fun.module as int].name, fun.name)
    }

    /// The canonical key of module `m`.
    pub open spec fn module_key(&self, m: int) -> ModuleKey {
        let a = self.packages@[self.modules@[m].package as int].id;
        (a.hi, a.lo, self.modules@[m].name)
    }

    /// Every index in every entity lies within its pool.
    pub open spec fn pools_valid(&self) -> bool {
        let n = self.sizes();
        &&& forall|p: int| 0 <= p < self.packages@.len() ==> package_valid(#[trigger] self.packages@[p], p, n)
        &&& forall|m: int| 0 <= m < self.modules@.len() ==> module_valid(#[trigger] self.modules@[m], m, n)
        &&& forall|s: int| 0 <= s < self.structs@.len() ==> struct_valid(#[trigger] self.structs@[s], s, n)
        &&& forall|f: int|
            0 <= f < self.functions@.len() ==> function_valid(#[trigger] self.functions@[f], f, n)
    }

    /// Each canonical map sends exactly the key of every entity to it.
    pub open spec fn maps_consistent(&self) -> bool {
        &&& forall|k: (u128, u128)| #[trigger]
            self.package_map@.contains_key(k) ==> {
                let p = self.package_map@[k] as int;
                0 <= p < self.packages@.len() && self.packages@[p].id.key() == k
            }
        &&& forall|p: int|
            0 <= p < self.packages@.len() ==> #[trigger] self.package_map@.contains_key(
                self.packages@[p].id.key(),
            ) && self.package_map@[self.packages@[p].id.key()] == p
        &&& forall|k: ModuleKey| #[trigger]
            self.module_map@.contains_key(k) ==> {
                let m = self.module_map@[k] as int;
                0 <= m < self.modules@.len() && self.module_key(m) == k
            }
        &&& forall|m: int|
            0 <= m < self.modules@.len() ==> #[trigger] self.module_map@.contains_key(self.module_key(m))
                && self.module_map@[self.module_key(m)] == m
        &&& forall|k: EntityKey| #[trigger]
            self.struct_map@.contains_key(k) ==> {
                let s = self.struct_map@[k] as int;
                0 <= s < self.structs@.len() && self.struct_key(s) == k
            }
        &&& forall|s: int|
            0 <= s < self.structs@.len() ==> #[trigger] self.struct_map@.contains_key(self.struct_key(s))
                && self.struct_map@[self.struct_key(s)] == s
        &&& forall|k: EntityKey| #[trigger]
            self.function_map@.contains_key(k) ==> {
                let f = self.function_map@[k] as int;
                0 <= f < self.functions@.len() && self.function_key(f) == k
            }
        &&& forall|f: int|
            0 <= f < self.functions@.len() ==> #[trigger] self.function_map@.contains_key(
                self.function_key(f),
            ) && self.function_map@[self.function_key(f)] == f
    }

    /// What resolution reads in this environment.
    pub open spec fn context(&self) -> ResolutionContext {
        ResolutionContext {
            types: TypeContext {
                packages: self.packages@,
                identifiers: self.identifiers@,
                struct_map: self.struct_map@,
            },
            function_map: self.function_map@,
        }
    }

    /// A built environment: indices valid, maps consistent, names interned.
    pub open spec fn wf(&self) -> bool {
        &&& self.identifiers.wf()
        &&& self.pools_valid()
        &&& self.maps_consistent()
    }
}


impl GlobalEnv {
    /// The name of module `idx`.
    pub fn module_name_from_idx(&self, idx: ModuleIndex) -> (r: String)
        requires
            self.wf(),
            idx < self.modules@.len(),
        ensures
            r@ == self.identifiers@[self.modules@[idx as int].name as int],
    {
        self.module_name(&self.modules[idx])
    }

    /// The name of `module`.
    pub fn module_name(&self, module: &Module) -> (r: String)
        requires
            self.wf(),
            module.name < self.identifiers@.len(),
        ensures
            r@ == self.identifiers@[module.name as int],
    {
        self.identifiers.identifier_string(module.name)
    }

    /// The name of struct `idx`.
    pub fn struct_name_from_idx(&self, idx: StructIndex) -> (r: String)
        requires
            self.wf(),
            idx < self.structs@.len(),
        ensures
            r@ == self.identifiers@[self.structs@[idx as int].name as int],
    {
        self.struct_name(&self.structs[idx])
    }

    /// The name of `struct_`.
    pub fn struct_name(&self, struct_: &Struct) -> (r: String)
        requires
            self.wf(),
            struct_.name < self.identifiers@.len(),
        ensures
            r@ == self.identifiers@[struct_.name as int],
    {
        self.identifiers.identifier_string(struct_.name)
    }

    /// The name of function `idx`.
    pub fn function_name_from_idx(&self, idx: FunctionIndex) -> (r: String)
        requires
            self.wf(),
            idx < self.functions@.len(),
        ensures
            r@ == self.identifiers@[self.functions@[idx as int].name as int],
    {
        self.function_name(&self.functions[idx])
    }

    /// The name of `func`.
    pub fn function_name(&self, func: &Function) -> (r: String)
        requires
            self.wf(),
            func.name < self.identifiers@.len(),
        ensures
            r@ == self.identifiers@[func.name as int],
    {
        self.identifiers.identifier_string(func.name)
    }

    /// The name of `field`.
    pub fn field_name(&self, field: &Field) -> (r: String)
        requires
            self.wf(),
            field.name < self.identifiers@.len(),
        ensures
            r@ == self.identifiers@[field.name as int],
    {
        self.identifiers.identifier_string(field.name)
    }

    /// The modules of `package`, in the order the package lists them.
    pub fn modules_in_package<'a>(&'a self, package: &'a Package) -> (r: Vec<&'a Module>)
        requires
            self.wf(),
            indices_below(package.modules@, self.modules@.len()),
        ensures
            r@.len() == package.modules@.len(),
            forall|k: int| 0 <= k < r@.len() ==> *(#[trigger] r@[k]) == self.modules@[package.modules@[k] as int],
    {
        let mut r: Vec<&'a Module> = Vec::new();
        let mut k: usize = 0;
        while k < package.modules.len()
            invariant
                indices_below(package.modules@, self.modules@.len()),
                k <= package.modules@.len(),
                r@.len() == k,
                forall|j: int| 0 <= j < k ==> *(#[trigger] r@[j]) == self.modules@[package.modules@[j] as int],
            decreases package.modules@.len() - k,
        {
            r.push(&self.modules[package.modules[k]]);
            k += 1;
        }
        r
    }

    /// The package at `address`.
    pub fn package_index(&self, address: Address) -> (r: Option<PackageIndex>)
        requires
            self.wf(),
        ensures
            match r {
                Some(p) => p < self.packages@.len() && self.packages@[p as int].id == address,
                None => forall|p: int| 0 <= p < self.packages@.len() ==> self.packages@[p].id != address,
            },
    {
        match self.package_map.get(&address.to_key()) {
            Some(p) => Some(*p),
            None => {
                proof {
                    assert forall|p: int| 0 <= p < self.packages@.len() implies self.packages@[p].id != address by {
                        assert(self.package_map@.contains_key(self.packages@[p].id.key()));
                    }
                }
                None
            },
        }
    }

    /// The struct whose canonical key is `address::module::name`.
    pub fn struct_index(&self, address: Address, module: &String, name: &String) -> (r: Option<StructIndex>)
        requires
            self.wf(),
        ensures
            r == find_entity(self.identifiers@, self.struct_map@, address, module@, name@),
            r matches Some(s) ==> s < self.structs@.len(),
    {
        let r = crate::resolver::find_in_map(&self.identifiers, &self.struct_map, address, module, name);
        proof {
            crate::resolver::lemma_found_below(self.identifiers@, self.struct_map@, self.structs@.len(), address, module@, name@);
        }
        r
    }

    /// The function whose canonical key is `address::module::name`.
    pub fn function_index(&self, address: Address, module: &String, name: &String) -> (r: Option<FunctionIndex>)
        requires
            self.wf(),
        ensures
            r == find_entity(self.identifiers@, self.function_map@, address, module@, name@),
            r matches Some(f) ==> f < self.functions@.len(),
    {
        let r = crate::resolver::find_in_map(&self.identifiers, &self.function_map, address, module, name);
        proof {
            crate::resolver::lemma_found_below(self.identifiers@, self.function_map@, self.functions@.len(), address, module@, name@);
        }
        r
    }
}

impl Package {
    /// How many structs the modules of this package define, in all.
    pub fn struct_count(&self, env: &GlobalEnv) -> (r: usize)
        requires
            env.wf(),
            indices_below(self.modules@, env.modules@.len()),
            package_struct_total(env.modules@, self.modules@) <= usize::MAX,
        ensures
            r == package_struct_total(env.modules@, self.modules@),
    {
        let mut total: usize = 0;
        let mut k: usize = 0;
        while k < self.modules.len()
            invariant
                indices_below(self.modules@, env.modules@.len()),
                package_struct_total(env.modules@, self.modules@) <= usize::MAX,
                k <= self.modules@.len(),
                total == package_struct_total(env.modules@, self.modules@.subrange(0, k as int)),
            decreases self.modules@.len() - k,
        {
            proof {
                lemma_struct_total_prefix(env.modules@, self.modules@, k as int);
            }
            total = total + env.modules[self.modules[k]].structs.len();
            k += 1;
        }
        proof {
            assert(self.modules@.subrange(0, k as int) =~= self.modules@);
        }
        total
    }

    /// How many functions the modules of this package define, in all.
    pub fn function_count(&self, env: &GlobalEnv) -> (r: usize)
        requires
            env.wf(),
            indices_below(self.modules@, env.modules@.len()),
            package_function_total(env.modules@, self.modules@) <= usize::MAX,
        ensures
            r == package_function_total(env.modules@, self.modules@),
    {
        let mut total: usize = 0;
        let mut k: usize = 0;
        while k < self.modules.len()
            invariant
                indices_below(self.modules@, env.modules@.len()),
                package_function_total(env.modules@, self.modules@) <= usize::MAX,
                k <= self.modules@.len(),
                total == package_function_total(env.modules@, self.modules@.subrange(0, k as int)),
            decreases self.modules@.len() - k,
        {
            proof {
                lemma_function_total_prefix(env.modules@, self.modules@, k as int);
            }
            total = total + env.modules[self.modules[k]].functions.len();
            k += 1;
        }
        proof {
            assert(self.modules@.subrange(0, k as int) =~= self.modules@);
        }
        total
    }
}

/// The number of structs of the listed modules, together.
pub open spec fn package_struct_total(modules: Seq<Module>, list: Seq<usize>) -> nat
    decreases list.len(),
{
    if list.len() == 0 {
        0
    } else {
        package_struct_total(modules, list.drop_last()) + modules[list.last() as int].structs@.len()
    }
}

/// The number of functions of the listed modules, together.
pub open spec fn package_function_total(modules: Seq<Module>, list: Seq<usize>) -> nat
    decreases list.len(),
{
    if list.len() == 0 {
        0
    } else {
        package_function_total(modules, list.drop_last()) + modules[list.last() as int].functions@.len()
    }
}

proof fn lemma_struct_total_prefix(modules: Seq<Module>, list: Seq<usize>, k: int)
    requires
        0 <= k < list.len(),
    ensures
        package_struct_total(modules, list.subrange(0, k + 1)) == package_struct_total(modules, list.subrange(0, k))
            + modules[list[k] as int].structs@.len(),
        package_struct_total(modules, list.subrange(0, k + 1)) <= package_struct_total(modules, list),
    decreases list.len() - k,
{
    assert(list.subrange(0, k + 1).drop_last() =~= list.subrange(0, k));
    if k + 1 < list.len() {
        lemma_struct_total_prefix(modules, list, k + 1);
    } else {
        assert(list.subrange(0, k + 1) =~= list);
    }
}

proof fn lemma_function_total_prefix(modules: Seq<Module>, list: Seq<usize>, k: int)
    requires
        0 <= k < list.len(),
    ensures
        package_function_total(modules, list.subrange(0, k + 1)) == package_function_total(modules, list.subrange(0, k))
            + modules[list[k] as int].functions@.len(),
        package_function_total(modules, list.subrange(0, k + 1)) <= package_function_total(modules, list),
    decreases list.len() - k,
{
    assert(list.subrange(0, k + 1).drop_last() =~= list.subrange(0, k));
    if k + 1 < list.len() {
        lemma_function_total_prefix(modules, list, k + 1);
    } else {
        assert(list.subrange(0, k + 1) =~= list);
    }
}

} // verus!
