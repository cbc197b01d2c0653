//! When a batch of packages can be built: every reference it makes names a
//! struct or function that the batch itself defines.
use crate::file_format::{Address, MoveBytecode, RawModule, RawPackage, SignatureToken};
use crate::resolver::{linkage_lookup, origin_lookup};
use crate::identifiers::{distinct, index_in, lemma_index_in_unique};
use crate::loader::{
    declared_fields, def_function_handle, function_from, function_map_consistent,
    function_name_at, functions_loaded_upto, input_ok, module_from, module_ok, modules_from,
    package_loaded, raw_at, struct_from, struct_map_consistent, struct_name_at,
    structs_loaded_upto,
};
use crate::move_model::{Function, Module, Package, Struct};
use crate::resolver::{
    entity_key, find_entity, EntityKey, ResolutionContext, TypeContext,
};
use vstd::prelude::*;

verus! {

/// Some package of the batch at address `a` defines struct `module::name`.
pub open spec fn struct_defined(input: Seq<RawPackage>, a: Address, module: Seq<char>, name: Seq<char>) -> bool {
    exists|p: int, k: int, d: int|
        0 <= p < input.len() && 0 <= k < input[p].modules@.len() && 0 <= d
            < input[p].modules@[k].1.struct_defs@.len() && input[p].id == a && input[p].modules@[k].0@
            == module && #[trigger] struct_name_at(input, p, k, d) == name
}

/// Some package of the batch at address `a` defines function `module::name`.
pub open spec fn function_defined(input: Seq<RawPackage>, a: Address, module: Seq<char>, name: Seq<char>) -> bool {
    exists|p: int, k: int, d: int|
        0 <= p < input.len() && 0 <= k < input[p].modules@.len() && 0 <= d
            < input[p].modules@[k].1.function_defs@.len() && input[p].id == a && input[p].modules@[k].0@
            == module && #[trigger] function_name_at(input, p, k, d) == name
}

/// `a`, replaced by its upgrade in the linkage table of input package `rp`.
pub open spec fn raw_linked(rp: RawPackage, a: Address) -> Address {
    match linkage_lookup(rp.linkage@, a) {
        Some(u) => u,
        None => a,
    }
}

/// Where struct handle `h` of `raw`, a module of input package `rp`, points:
/// the type-origin address if any, else the handle's, then its upgrade.
pub open spec fn raw_struct_home(rp: RawPackage, raw: RawModule, h: int) -> Address {
    let mh = raw.struct_handles@[h].module as int;
    let start = match origin_lookup(rp.type_origin@, raw.handle_module_name(mh), raw.struct_handle_name(h)) {
        Some(o) => o,
        None => raw.handle_address(mh),
    };
    raw_linked(rp, start)
}

/// Where function handle `h` of `raw`, a module of input package `rp`,
/// points: `rp` itself for a call inside the package, else the upgrade of
/// the handle's address.
pub open spec fn raw_function_home(rp: RawPackage, raw: RawModule, h: int) -> Address {
    let a = raw.handle_address(raw.function_handles@[h].module as int);
    if a == raw.self_address() {
        rp.id
    } else {
        raw_linked(rp, a)
    }
}

/// Struct handle `h` of `raw`, a module of package `p`, names a struct of the batch.
pub open spec fn struct_handle_ok(input: Seq<RawPackage>, p: int, raw: RawModule, h: int) -> bool {
    let mh = raw.struct_handles@[h].module as int;
    struct_defined(input, raw_struct_home(input[p], raw, h), raw.handle_module_name(mh), raw.struct_handle_name(h))
}

/// Function handle `h` of `raw`, a module of package `p`, names a function of the batch.
pub open spec fn function_handle_ok(input: Seq<RawPackage>, p: int, raw: RawModule, h: int) -> bool {
    let mh = raw.function_handles@[h].module as int;
    function_defined(input, raw_function_home(input[p], raw, h), raw.handle_module_name(mh), raw.function_handle_name(h))
}

/// Every struct that `tok` names is defined in the batch, and it holds no `signer`.
pub open spec fn token_ok(input: Seq<RawPackage>, p: int, raw: RawModule, tok: SignatureToken) -> bool
    decreases tok,
{
    match tok {
        SignatureToken::Signer => false,
        SignatureToken::Vector(b) => token_ok(input, p, raw, *b),
        SignatureToken::Reference(b) => token_ok(input, p, raw, *b),
        SignatureToken::MutableReference(b) => token_ok(input, p, raw, *b),
        SignatureToken::Struct(h) => struct_handle_ok(input, p, raw, h as int),
        SignatureToken::StructInstantiation(h, args) => struct_handle_ok(input, p, raw, h as int) && forall|k: int|
            0 <= k < args.len() ==> token_ok(input, p, raw, #[trigger] args@[k]),
        _ => true,
    }
}

pub open spec fn tokens_ok(input: Seq<RawPackage>, p: int, raw: RawModule, ts: Seq<SignatureToken>) -> bool {
    forall|k: int| 0 <= k < ts.len() ==> token_ok(input, p, raw, #[trigger] ts[k])
}

/// Every struct and function that `rb` names is defined in the batch, its
/// types are, and it is no global-storage instruction.
pub open spec fn bytecode_ok(input: Seq<RawPackage>, p: int, raw: RawModule, rb: MoveBytecode) -> bool {
    let sig_ok = |s: usize| tokens_ok(input, p, raw, raw.signatures@[s as int]@);
    let elem_ok = |s: usize| token_ok(input, p, raw, raw.signatures@[s as int]@[0]);
    let def_ok = |d: usize| struct_handle_ok(input, p, raw, raw.struct_defs@[d as int].struct_handle as int);
    match rb {
        MoveBytecode::Call(h) => function_handle_ok(input, p, raw, h as int),
        MoveBytecode::CallGeneric(i) => function_handle_ok(
            input,
            p,
            raw,
            raw.function_instantiations@[i as int].handle as int,
        ) && sig_ok(raw.function_instantiations@[i as int].type_parameters),
        MoveBytecode::Pack(d) => def_ok(d),
        MoveBytecode::Unpack(d) => def_ok(d),
        MoveBytecode::PackGeneric(i) => def_ok(raw.struct_def_instantiations@[i as int].def) && sig_ok(
            raw.struct_def_instantiations@[i as int].type_parameters,
        ),
        MoveBytecode::UnpackGeneric(i) => def_ok(raw.struct_def_instantiations@[i as int].def) && sig_ok(
            raw.struct_def_instantiations@[i as int].type_parameters,
        ),
        MoveBytecode::MutBorrowField(f) => def_ok(raw.field_handles@[f as int].owner),
        MoveBytecode::ImmBorrowField(f) => def_ok(raw.field_handles@[f as int].owner),
        MoveBytecode::MutBorrowFieldGeneric(i) => def_ok(
            raw.field_handles@[raw.field_instantiations@[i as int].handle as int].owner,
        ) && sig_ok(raw.field_instantiations@[i as int].type_parameters),
        MoveBytecode::ImmBorrowFieldGeneric(i) => def_ok(
            raw.field_handles@[raw.field_instantiations@[i as int].handle as int].owner,
        ) && sig_ok(raw.field_instantiations@[i as int].type_parameters),
        MoveBytecode::VecPack(s, _) => elem_ok(s),
        MoveBytecode::VecLen(s) => elem_ok(s),
        MoveBytecode::VecImmBorrow(s) => elem_ok(s),
        MoveBytecode::VecMutBorrow(s) => elem_ok(s),
        MoveBytecode::VecPushBack(s) => elem_ok(s),
        MoveBytecode::VecPopBack(s) => elem_ok(s),
        MoveBytecode::VecUnpack(s, _) => elem_ok(s),
        MoveBytecode::VecSwap(s) => elem_ok(s),
        MoveBytecode::MutBorrowGlobal(_) => false,
        MoveBytecode::ImmBorrowGlobal(_) => false,
        MoveBytecode::Exists(_) => false,
        MoveBytecode::MoveFrom(_) => false,
        MoveBytecode::MoveTo(_) => false,
        MoveBytecode::MutBorrowGlobalGeneric(_) => false,
        MoveBytecode::ImmBorrowGlobalGeneric(_) => false,
        MoveBytecode::ExistsGeneric(_) => false,
        MoveBytecode::MoveFromGeneric(_) => false,
        MoveBytecode::MoveToGeneric(_) => false,
        _ => true,
    }
}

/// Module `raw` of package `p` can be resolved: no struct is native, every
/// field, constant, parameter, return and local type resolves, and so does
/// every instruction.
pub open spec fn module_resolvable(input: Seq<RawPackage>, p: int, raw: RawModule) -> bool {
    &&& forall|d: int|
        0 <= d < raw.struct_defs@.len() ==> (#[trigger] raw.struct_defs@[d]).field_information is Declared
    &&& forall|d: int, j: int|
        0 <= d < raw.struct_defs@.len() && 0 <= j < declared_fields(raw, d).len() ==> token_ok(
            input,
            p,
            raw,
            (#[trigger] declared_fields(raw, d)[j]).signature,
        )
    &&& forall|c: int|
        0 <= c < raw.constant_pool@.len() ==> token_ok(input, p, raw, (#[trigger] raw.constant_pool@[c]).type_)
    &&& forall|d: int|
        0 <= d < raw.function_defs@.len() ==> {
            let h = #[trigger] def_function_handle(raw, d);
            &&& tokens_ok(input, p, raw, raw.signatures@[h.parameters as int]@)
            &&& tokens_ok(input, p, raw, raw.signatures@[h.return_ as int]@)
        }
    &&& forall|d: int|
        0 <= d < raw.function_defs@.len() ==> match (#[trigger] raw.function_defs@[d]).code {
            None => true,
            Some(cu) => tokens_ok(input, p, raw, raw.signatures@[cu.locals as int]@) && forall|i: int|
                0 <= i < cu.code@.len() ==> bytecode_ok(input, p, raw, #[trigger] cu.code@[i]),
        }
}

/// Every module of the batch can be resolved.
pub open spec fn resolvable(input: Seq<RawPackage>) -> bool {
    forall|p: int, k: int|
        0 <= p < input.len() && 0 <= k < input[p].modules@.len() ==> module_resolvable(
            input,
            p,
            #[trigger] input[p].modules@[k].1,
        )
}


/// What the build has established once structs are loaded: modules and
/// structs come from the input and the struct map is consistent.
pub open spec fn structs_state(
    input: Seq<RawPackage>,
    packages: Seq<Package>,
    modules: Seq<Module>,
    sources: Seq<(usize, usize)>,
    ids: Seq<Seq<char>>,
    structs: Seq<Struct>,
    struct_map: Map<EntityKey, usize>,
) -> bool {
    &&& input_ok(input)
    &&& input.len() <= usize::MAX
    &&& forall|p: int| 0 <= p < input.len() ==> (#[trigger] input[p]).modules@.len() <= usize::MAX
    &&& distinct(ids)
    &&& ids.len() <= usize::MAX
    &&& forall|p: int| 0 <= p < input.len() ==> package_loaded(#[trigger] packages[p], input[p], p)
    &&& modules_from(input, packages, modules, sources, ids)
    &&& structs_loaded_upto(input, modules, sources, ids, structs, modules.len() as int, 0)
    &&& struct_map_consistent(packages, modules, structs, struct_map)
}

/// Type-origin tables with the same entries give the same origin.
pub proof fn lemma_origin_same(t1: Seq<crate::file_format::TypeOrigin>, t2: Seq<crate::file_format::TypeOrigin>, m: Seq<char>, n: Seq<char>)
    requires
        t1.len() == t2.len(),
        forall|k: int| 0 <= k < t1.len() ==> {
            let (a, b) = (#[trigger] t1[k], t2[k]);
            a.module_name@ == b.module_name@ && a.struct_name@ == b.struct_name@ && a.package == b.package
        },
    ensures
        origin_lookup(t1, m, n) == origin_lookup(t2, m, n),
    decreases t1.len(),
{
    if t1.len() > 0 {
        assert(t1[0].module_name@ == t2[0].module_name@);
        let (d1, d2) = (t1.drop_first(), t2.drop_first());
        assert forall|k: int| 0 <= k < d1.len() implies {
            let (a, b) = (#[trigger] d1[k], d2[k]);
            a.module_name@ == b.module_name@ && a.struct_name@ == b.struct_name@ && a.package == b.package
        } by {
            assert(d1[k] == t1[k + 1] && d2[k] == t2[k + 1]);
        }
        lemma_origin_same(d1, d2, m, n);
    }
}

/// A struct the input defines is found in the struct map under its key.
pub proof fn lemma_struct_found(
    input: Seq<RawPackage>,
    packages: Seq<Package>,
    modules: Seq<Module>,
    sources: Seq<(usize, usize)>,
    ids: Seq<Seq<char>>,
    structs: Seq<Struct>,
    struct_map: Map<EntityKey, usize>,
    a: Address,
    module: Seq<char>,
    name: Seq<char>,
)
    requires
        structs_state(input, packages, modules, sources, ids, structs, struct_map),
        struct_defined(input, a, module, name),
    ensures
        find_entity(ids, struct_map, a, module, name) is Some,
{
    let (p, k, d) = choose|p: int, k: int, d: int|
        0 <= p < input.len() && 0 <= k < input[p].modules@.len() && 0 <= d
            < input[p].modules@[k].1.struct_defs@.len() && input[p].id == a && input[p].modules@[k].0@
            == module && #[trigger] struct_name_at(input, p, k, d) == name;
    let mi = packages[p].modules@[k] as int;
    assert(sources[mi] == (p as usize, k as usize));
    assert(module_from(input, packages, modules[mi], mi, sources[mi], ids));
    assert(module_ok(input, p, k));
    assert(raw_at(input, sources[mi]) == input[p].modules@[k].1);
    assert(modules[mi].structs@.len() == input[p].modules@[k].1.struct_defs@.len());
    let s = modules[mi].structs@[d] as int;
    let st = structs[s];
    assert(struct_from(input, modules, sources, ids, st, s));
    assert(package_loaded(packages[p], input[p], p));
    let key = entity_key(a, index_in(ids, module), index_in(ids, name));
    lemma_index_in_unique(ids, module, modules[mi].name as int);
    lemma_index_in_unique(ids, name, st.name as int);
    assert(struct_map.contains_key(crate::loader::struct_key_of(packages, modules, st)));
    assert(crate::loader::struct_key_of(packages, modules, st) == key);
}

/// A function the input defines is found in the function map under its key.
pub proof fn lemma_function_found(
    input: Seq<RawPackage>,
    packages: Seq<Package>,
    modules: Seq<Module>,
    sources: Seq<(usize, usize)>,
    ids: Seq<Seq<char>>,
    n_structs: nat,
    functions: Seq<Function>,
    function_map: Map<EntityKey, usize>,
    a: Address,
    module: Seq<char>,
    name: Seq<char>,
)
    requires
        input_ok(input),
        input.len() <= usize::MAX,
        forall|p: int| 0 <= p < input.len() ==> (#[trigger] input[p]).modules@.len() <= usize::MAX,
        distinct(ids),
        forall|p: int| 0 <= p < input.len() ==> package_loaded(#[trigger] packages[p], input[p], p),
        modules_from(input, packages, modules, sources, ids),
        functions_loaded_upto(input, modules, sources, ids, n_structs, functions, modules.len() as int, 0),
        function_map_consistent(packages, modules, functions, function_map),
        function_defined(input, a, module, name),
    ensures
        find_entity(ids, function_map, a, module, name) is Some,
{
    let (p, k, d) = choose|p: int, k: int, d: int|
        0 <= p < input.len() && 0 <= k < input[p].modules@.len() && 0 <= d
            < input[p].modules@[k].1.function_defs@.len() && input[p].id == a && input[p].modules@[k].0@
            == module && #[trigger] function_name_at(input, p, k, d) == name;
    let mi = packages[p].modules@[k] as int;
    assert(sources[mi] == (p as usize, k as usize));
    assert(module_from(input, packages, modules[mi], mi, sources[mi], ids));
    assert(module_ok(input, p, k));
    assert(raw_at(input, sources[mi]) == input[p].modules@[k].1);
    assert(modules[mi].functions@.len() == input[p].modules@[k].1.function_defs@.len());
    let f = modules[mi].functions@[d] as int;
    let fun = functions[f];
    assert(function_from(input, modules, sources, ids, n_structs, fun, f));
    assert(package_loaded(packages[p], input[p], p));
    let key = entity_key(a, index_in(ids, module), index_in(ids, name));
    lemma_index_in_unique(ids, module, modules[mi].name as int);
    lemma_index_in_unique(ids, name, fun.name as int);
    assert(function_map.contains_key(crate::loader::function_key_of(packages, modules, fun)));
    assert(crate::loader::function_key_of(packages, modules, fun) == key);
}

/// A handle that the input resolves, the build's context resolves.
pub proof fn lemma_handle_ok(
    input: Seq<RawPackage>,
    packages: Seq<Package>,
    modules: Seq<Module>,
    sources: Seq<(usize, usize)>,
    ids: Seq<Seq<char>>,
    structs: Seq<Struct>,
    struct_map: Map<EntityKey, usize>,
    p: int,
    raw: RawModule,
    h: int,
)
    requires
        structs_state(input, packages, modules, sources, ids, structs, struct_map),
        0 <= p < input.len(),
        struct_handle_ok(input, p, raw, h),
    ensures
        (TypeContext { packages, identifiers: ids, struct_map }).resolve_struct_handle(p, raw, h) is Some,
{
    let ctx = TypeContext { packages, identifiers: ids, struct_map };
    let mh = raw.struct_handles@[h].module as int;
    assert(package_loaded(packages[p], input[p], p));
    lemma_origin_same(packages[p].type_origin@, input[p].type_origin@, raw.handle_module_name(mh), raw.struct_handle_name(h));
    assert(ctx.struct_handle_home(p, raw, h) == raw_struct_home(input[p], raw, h));
    lemma_struct_found(input, packages, modules, sources, ids, structs, struct_map, raw_struct_home(input[p], raw, h), raw.handle_module_name(mh), raw.struct_handle_name(h));
}

/// A type that the input resolves, the build's context resolves.
pub proof fn lemma_token_ok(
    input: Seq<RawPackage>,
    packages: Seq<Package>,
    modules: Seq<Module>,
    sources: Seq<(usize, usize)>,
    ids: Seq<Seq<char>>,
    structs: Seq<Struct>,
    struct_map: Map<EntityKey, usize>,
    p: int,
    raw: RawModule,
    tok: SignatureToken,
)
    requires
        structs_state(input, packages, modules, sources, ids, structs, struct_map),
        0 <= p < input.len(),
        token_ok(input, p, raw, tok),
    ensures
        (TypeContext { packages, identifiers: ids, struct_map }).token_resolvable(p, raw, tok),
    decreases tok,
{
    let ctx = TypeContext { packages, identifiers: ids, struct_map };
    match tok {
        SignatureToken::Vector(b) => lemma_token_ok(input, packages, modules, sources, ids, structs, struct_map, p, raw, *b),
        SignatureToken::Reference(b) => lemma_token_ok(input, packages, modules, sources, ids, structs, struct_map, p, raw, *b),
        SignatureToken::MutableReference(b) => lemma_token_ok(input, packages, modules, sources, ids, structs, struct_map, p, raw, *b),
        SignatureToken::Struct(h) => lemma_handle_ok(input, packages, modules, sources, ids, structs, struct_map, p, raw, h as int),
        SignatureToken::StructInstantiation(h, args) => {
            lemma_handle_ok(input, packages, modules, sources, ids, structs, struct_map, p, raw, h as int);
            assert forall|k: int| 0 <= k < args.len() implies ctx.token_resolvable(p, raw, #[trigger] args@[k]) by {
                assert(decreases_to!(tok => tok->StructInstantiation_1));
                assert(decreases_to!(args => args@));
                assert(decreases_to!(args@ => args@[k]));
                lemma_token_ok(input, packages, modules, sources, ids, structs, struct_map, p, raw, args@[k]);
            }
        },
        _ => {},
    }
}

/// Types that the input resolves, the build's context resolves.
pub proof fn lemma_tokens_ok(
    input: Seq<RawPackage>,
    packages: Seq<Package>,
    modules: Seq<Module>,
    sources: Seq<(usize, usize)>,
    ids: Seq<Seq<char>>,
    structs: Seq<Struct>,
    struct_map: Map<EntityKey, usize>,
    p: int,
    raw: RawModule,
    ts: Seq<SignatureToken>,
)
    requires
        structs_state(input, packages, modules, sources, ids, structs, struct_map),
        0 <= p < input.len(),
        tokens_ok(input, p, raw, ts),
    ensures
        (TypeContext { packages, identifiers: ids, struct_map }).tokens_resolvable(p, raw, ts),
{
    assert forall|k: int| 0 <= k < ts.len() implies (TypeContext { packages, identifiers: ids, struct_map }).token_resolvable(p, raw, #[trigger] ts[k]) by {
        lemma_token_ok(input, packages, modules, sources, ids, structs, struct_map, p, raw, ts[k]);
    }
}


/// What the build has established once functions are loaded as well.
pub open spec fn functions_state(
    input: Seq<RawPackage>,
    packages: Seq<Package>,
    modules: Seq<Module>,
    sources: Seq<(usize, usize)>,
    ids: Seq<Seq<char>>,
    structs: Seq<Struct>,
    struct_map: Map<EntityKey, usize>,
    fmodules: Seq<Module>,
    n_structs: nat,
    functions: Seq<Function>,
    function_map: Map<EntityKey, usize>,
) -> bool {
    &&& structs_state(input, packages, modules, sources, ids, structs, struct_map)
    &&& modules_from(input, packages, fmodules, sources, ids)
    &&& functions_loaded_upto(input, fmodules, sources, ids, n_structs, functions, fmodules.len() as int, 0)
    &&& function_map_consistent(packages, fmodules, functions, function_map)
}

/// An instruction that the input resolves, the build's context resolves.
pub proof fn lemma_bytecode_ok(
    input: Seq<RawPackage>,
    packages: Seq<Package>,
    modules: Seq<Module>,
    sources: Seq<(usize, usize)>,
    ids: Seq<Seq<char>>,
    structs: Seq<Struct>,
    struct_map: Map<EntityKey, usize>,
    fmodules: Seq<Module>,
    n_structs: nat,
    functions: Seq<Function>,
    function_map: Map<EntityKey, usize>,
    p: int,
    raw: RawModule,
    rb: MoveBytecode,
)
    requires
        functions_state(input, packages, modules, sources, ids, structs, struct_map, fmodules, n_structs, functions, function_map),
        0 <= p < input.len(),
        bytecode_ok(input, p, raw, rb),
    ensures
        (ResolutionContext { types: TypeContext { packages, identifiers: ids, struct_map }, function_map }).bytecode_resolvable(p, raw, rb),
{
    let rctx = ResolutionContext { types: TypeContext { packages, identifiers: ids, struct_map }, function_map };
    assert(package_loaded(packages[p], input[p], p));
    match rb {
        MoveBytecode::Call(h) => {
            lemma_function_handle_ok(input, packages, modules, sources, ids, structs, struct_map, fmodules, n_structs, functions, function_map, p, raw, h as int);
        },
        MoveBytecode::CallGeneric(i) => {
            let inst = raw.function_instantiations@[i as int];
            lemma_function_handle_ok(input, packages, modules, sources, ids, structs, struct_map, fmodules, n_structs, functions, function_map, p, raw, inst.handle as int);
            lemma_tokens_ok(input, packages, modules, sources, ids, structs, struct_map, p, raw, raw.signatures@[inst.type_parameters as int]@);
        },
        MoveBytecode::Pack(d) => {
            lemma_handle_ok(input, packages, modules, sources, ids, structs, struct_map, p, raw, raw.struct_defs@[d as int].struct_handle as int);
        },
        MoveBytecode::Unpack(d) => {
            lemma_handle_ok(input, packages, modules, sources, ids, structs, struct_map, p, raw, raw.struct_defs@[d as int].struct_handle as int);
        },
        MoveBytecode::PackGeneric(i) => {
            let inst = raw.struct_def_instantiations@[i as int];
            lemma_handle_ok(input, packages, modules, sources, ids, structs, struct_map, p, raw, raw.struct_defs@[inst.def as int].struct_handle as int);
            lemma_tokens_ok(input, packages, modules, sources, ids, structs, struct_map, p, raw, raw.signatures@[inst.type_parameters as int]@);
        },
        MoveBytecode::UnpackGeneric(i) => {
            let inst = raw.struct_def_instantiations@[i as int];
            lemma_handle_ok(input, packages, modules, sources, ids, structs, struct_map, p, raw, raw.struct_defs@[inst.def as int].struct_handle as int);
            lemma_tokens_ok(input, packages, modules, sources, ids, structs, struct_map, p, raw, raw.signatures@[inst.type_parameters as int]@);
        },
        MoveBytecode::MutBorrowField(f) => {
            lemma_handle_ok(input, packages, modules, sources, ids, structs, struct_map, p, raw, raw.struct_defs@[raw.field_handles@[f as int].owner as int].struct_handle as int);
        },
        MoveBytecode::ImmBorrowField(f) => {
            lemma_handle_ok(input, packages, modules, sources, ids, structs, struct_map, p, raw, raw.struct_defs@[raw.field_handles@[f as int].owner as int].struct_handle as int);
        },
        MoveBytecode::MutBorrowFieldGeneric(i) => {
            let inst = raw.field_instantiations@[i as int];
            lemma_handle_ok(input, packages, modules, sources, ids, structs, struct_map, p, raw, raw.struct_defs@[raw.field_handles@[inst.handle as int].owner as int].struct_handle as int);
            lemma_tokens_ok(input, packages, modules, sources, ids, structs, struct_map, p, raw, raw.signatures@[inst.type_parameters as int]@);
        },
        MoveBytecode::ImmBorrowFieldGeneric(i) => {
            let inst = raw.field_instantiations@[i as int];
            lemma_handle_ok(input, packages, modules, sources, ids, structs, struct_map, p, raw, raw.struct_defs@[raw.field_handles@[inst.handle as int].owner as int].struct_handle as int);
            lemma_tokens_ok(input, packages, modules, sources, ids, structs, struct_map, p, raw, raw.signatures@[inst.type_parameters as int]@);
        },
        MoveBytecode::VecPack(sg, _) => { lemma_token_ok(input, packages, modules, sources, ids, structs, struct_map, p, raw, raw.signatures@[sg as int]@[0]); },
        MoveBytecode::VecLen(sg) => { lemma_token_ok(input, packages, modules, sources, ids, structs, struct_map, p, raw, raw.signatures@[sg as int]@[0]); },
        MoveBytecode::VecImmBorrow(sg) => { lemma_token_ok(input, packages, modules, sources, ids, structs, struct_map, p, raw, raw.signatures@[sg as int]@[0]); },
        MoveBytecode::VecMutBorrow(sg) => { lemma_token_ok(input, packages, modules, sources, ids, structs, struct_map, p, raw, raw.signatures@[sg as int]@[0]); },
        MoveBytecode::VecPushBack(sg) => { lemma_token_ok(input, packages, modules, sources, ids, structs, struct_map, p, raw, raw.signatures@[sg as int]@[0]); },
        MoveBytecode::VecPopBack(sg) => { lemma_token_ok(input, packages, modules, sources, ids, structs, struct_map, p, raw, raw.signatures@[sg as int]@[0]); },
        MoveBytecode::VecUnpack(sg, _) => { lemma_token_ok(input, packages, modules, sources, ids, structs, struct_map, p, raw, raw.signatures@[sg as int]@[0]); },
        MoveBytecode::VecSwap(sg) => { lemma_token_ok(input, packages, modules, sources, ids, structs, struct_map, p, raw, raw.signatures@[sg as int]@[0]); },
        _ => {},
    }
}

/// A function handle that the input resolves, the build's context resolves.
pub proof fn lemma_function_handle_ok(
    input: Seq<RawPackage>,
    packages: Seq<Package>,
    modules: Seq<Module>,
    sources: Seq<(usize, usize)>,
    ids: Seq<Seq<char>>,
    structs: Seq<Struct>,
    struct_map: Map<EntityKey, usize>,
    fmodules: Seq<Module>,
    n_structs: nat,
    functions: Seq<Function>,
    function_map: Map<EntityKey, usize>,
    p: int,
    raw: RawModule,
    h: int,
)
    requires
        functions_state(input, packages, modules, sources, ids, structs, struct_map, fmodules, n_structs, functions, function_map),
        0 <= p < input.len(),
        function_handle_ok(input, p, raw, h),
    ensures
        (ResolutionContext { types: TypeContext { packages, identifiers: ids, struct_map }, function_map }).resolve_function_handle(p, raw, h) is Some,
{
    let rctx = ResolutionContext { types: TypeContext { packages, identifiers: ids, struct_map }, function_map };
    let mh = raw.function_handles@[h].module as int;
    assert(package_loaded(packages[p], input[p], p));
    assert(rctx.function_handle_home(p, raw, h) == raw_function_home(input[p], raw, h));
    lemma_function_found(input, packages, fmodules, sources, ids, n_structs, functions, function_map, raw_function_home(input[p], raw, h), raw.handle_module_name(mh), raw.function_handle_name(h));
}


/// Over a resolvable input, every struct can be given its fields.
pub proof fn lemma_fields_ok(
    input: Seq<RawPackage>,
    packages: Seq<Package>,
    modules: Seq<Module>,
    sources: Seq<(usize, usize)>,
    ids: Seq<Seq<char>>,
    structs: Seq<Struct>,
    struct_map: Map<EntityKey, usize>,
)
    requires
        structs_state(input, packages, modules, sources, ids, structs, struct_map),
        resolvable(input),
    ensures
        forall|s: int| 0 <= s < structs.len() ==> crate::loader::struct_fields_ok(
            TypeContext { packages, identifiers: ids, struct_map },
            input,
            sources,
            #[trigger] structs[s],
        ),
{
    let ctx = TypeContext { packages, identifiers: ids, struct_map };
    assert forall|s: int| 0 <= s < structs.len() implies crate::loader::struct_fields_ok(ctx, input, sources, #[trigger] structs[s]) by {
        let st = structs[s];
        assert(struct_from(input, modules, sources, ids, st, s));
        let m = st.module as int;
        assert(module_from(input, packages, modules[m], m, sources[m], ids));
        let p = sources[m].0 as int;
        let k = sources[m].1 as int;
        let raw = raw_at(input, sources[m]);
        assert(raw == input[p].modules@[k].1);
        assert(module_resolvable(input, p, raw));
        let d = st.def_idx as int;
        assert(raw.struct_defs@[d].field_information is Declared);
        assert forall|j: int| 0 <= j < declared_fields(raw, d).len() implies ctx.token_resolvable(
            st.package as int,
            raw,
            (#[trigger] declared_fields(raw, d)[j]).signature,
        ) by {
            lemma_token_ok(input, packages, modules, sources, ids, structs, struct_map, p, raw, declared_fields(raw, d)[j].signature);
        }
    }
}

/// Over a resolvable input, every constant type resolves.
pub proof fn lemma_constants_ok(
    input: Seq<RawPackage>,
    packages: Seq<Package>,
    modules: Seq<Module>,
    sources: Seq<(usize, usize)>,
    ids: Seq<Seq<char>>,
    structs: Seq<Struct>,
    struct_map: Map<EntityKey, usize>,
)
    requires
        structs_state(input, packages, modules, sources, ids, structs, struct_map),
        resolvable(input),
    ensures
        forall|m: int| 0 <= m < modules.len() ==> crate::loader::constants_ok(
            TypeContext { packages, identifiers: ids, struct_map },
            input,
            sources,
            #[trigger] modules[m],
            m,
        ),
{
    let ctx = TypeContext { packages, identifiers: ids, struct_map };
    assert forall|m: int| 0 <= m < modules.len() implies crate::loader::constants_ok(ctx, input, sources, #[trigger] modules[m], m) by {
        assert(module_from(input, packages, modules[m], m, sources[m], ids));
        let p = sources[m].0 as int;
        let k = sources[m].1 as int;
        let raw = raw_at(input, sources[m]);
        assert(raw == input[p].modules@[k].1);
        assert(module_resolvable(input, p, raw));
        assert forall|c: int| 0 <= c < raw.constant_pool@.len() implies ctx.token_resolvable(
            modules[m].package as int,
            raw,
            (#[trigger] raw.constant_pool@[c]).type_,
        ) by {
            lemma_token_ok(input, packages, modules, sources, ids, structs, struct_map, p, raw, raw.constant_pool@[c].type_);
        }
    }
}

/// Over a resolvable input, every parameter and return type resolves.
pub proof fn lemma_signatures_ok(
    input: Seq<RawPackage>,
    packages: Seq<Package>,
    modules: Seq<Module>,
    sources: Seq<(usize, usize)>,
    ids: Seq<Seq<char>>,
    structs: Seq<Struct>,
    struct_map: Map<EntityKey, usize>,
)
    requires
        structs_state(input, packages, modules, sources, ids, structs, struct_map),
        resolvable(input),
    ensures
        forall|m: int, d: int|
            0 <= m < modules.len() && 0 <= d < raw_at(input, sources[m]).function_defs@.len()
                ==> #[trigger] crate::loader::function_sig_ok(
                TypeContext { packages, identifiers: ids, struct_map },
                input,
                sources,
                modules[m].package as int,
                m,
                d,
            ),
{
    let ctx = TypeContext { packages, identifiers: ids, struct_map };
    assert forall|m: int, d: int|
        0 <= m < modules.len() && 0 <= d < raw_at(input, sources[m]).function_defs@.len()
            implies #[trigger] crate::loader::function_sig_ok(ctx, input, sources, modules[m].package as int, m, d) by {
        assert(module_from(input, packages, modules[m], m, sources[m], ids));
        let p = sources[m].0 as int;
        let k = sources[m].1 as int;
        let raw = raw_at(input, sources[m]);
        assert(raw == input[p].modules@[k].1);
        assert(module_resolvable(input, p, raw));
        let h = def_function_handle(raw, d);
        lemma_tokens_ok(input, packages, modules, sources, ids, structs, struct_map, p, raw, raw.signatures@[h.parameters as int]@);
        lemma_tokens_ok(input, packages, modules, sources, ids, structs, struct_map, p, raw, raw.signatures@[h.return_ as int]@);
    }
}

/// Over a resolvable input, the code of every function resolves.
pub proof fn lemma_code_ok(
    input: Seq<RawPackage>,
    packages: Seq<Package>,
    modules: Seq<Module>,
    sources: Seq<(usize, usize)>,
    ids: Seq<Seq<char>>,
    structs: Seq<Struct>,
    struct_map: Map<EntityKey, usize>,
    fmodules: Seq<Module>,
    n_structs: nat,
    functions: Seq<Function>,
    function_map: Map<EntityKey, usize>,
)
    requires
        functions_state(input, packages, modules, sources, ids, structs, struct_map, fmodules, n_structs, functions, function_map),
        resolvable(input),
    ensures
        forall|f: int| 0 <= f < functions.len() ==> crate::loader::function_code_ok(
            ResolutionContext { types: TypeContext { packages, identifiers: ids, struct_map }, function_map },
            input,
            sources,
            #[trigger] functions[f],
        ),
{
    let rctx = ResolutionContext { types: TypeContext { packages, identifiers: ids, struct_map }, function_map };
    assert forall|f: int| 0 <= f < functions.len() implies crate::loader::function_code_ok(rctx, input, sources, #[trigger] functions[f]) by {
        let fun = functions[f];
        assert(function_from(input, fmodules, sources, ids, n_structs, fun, f));
        let m = fun.module as int;
        assert(module_from(input, packages, fmodules[m], m, sources[m], ids));
        let p = sources[m].0 as int;
        let k = sources[m].1 as int;
        let raw = raw_at(input, sources[m]);
        assert(raw == input[p].modules@[k].1);
        assert(module_resolvable(input, p, raw));
        let d = fun.def_idx as int;
        match raw.function_defs@[d].code {
            None => {},
            Some(cu) => {
                assert(tokens_ok(input, p, raw, raw.signatures@[cu.locals as int]@));
                lemma_tokens_ok(input, packages, modules, sources, ids, structs, struct_map, p, raw, raw.signatures@[cu.locals as int]@);
                assert forall|i: int| 0 <= i < cu.code@.len() implies rctx.bytecode_resolvable(fun.package as int, raw, #[trigger] cu.code@[i]) by {
                    lemma_bytecode_ok(input, packages, modules, sources, ids, structs, struct_map, fmodules, n_structs, functions, function_map, p, raw, cu.code@[i]);
                }
            },
        }
    }
}


/// A struct found in the struct map under a key is one the input defines.
pub proof fn lemma_struct_found_defined(
    input: Seq<RawPackage>,
    packages: Seq<Package>,
    modules: Seq<Module>,
    sources: Seq<(usize, usize)>,
    ids: Seq<Seq<char>>,
    structs: Seq<Struct>,
    struct_map: Map<EntityKey, usize>,
    a: Address,
    module: Seq<char>,
    name: Seq<char>,
)
    requires
        structs_state(input, packages, modules, sources, ids, structs, struct_map),
        find_entity(ids, struct_map, a, module, name) is Some,
    ensures
        struct_defined(input, a, module, name),
{
    let key = entity_key(a, index_in(ids, module), index_in(ids, name));
    assert(ids.contains(module) && ids.contains(name));
    assert(ids[index_in(ids, module)] == module);
    assert(ids[index_in(ids, name)] == name);
    assert(struct_map.contains_key(key));
    let s = struct_map[key] as int;
    let st = structs[s];
    assert(crate::loader::struct_key_of(packages, modules, st) == key);
    assert(struct_from(input, modules, sources, ids, st, s));
    let mi = st.module as int;
    assert(module_from(input, packages, modules[mi], mi, sources[mi], ids));
    let p = sources[mi].0 as int;
    let k = sources[mi].1 as int;
    assert(module_ok(input, p, k));
    assert(package_loaded(packages[p], input[p], p));
    assert(raw_at(input, sources[mi]) == input[p].modules@[k].1);
    assert(modules[mi].name as int == index_in(ids, module));
    assert(st.name as int == index_in(ids, name));
    assert(packages[p].id.hi == a.hi && packages[p].id.lo == a.lo);
    assert(input[p].id == a);
    assert(struct_name_at(input, p, k, st.def_idx as int) == name);
}


/// A function found in the function map under a key is one the input defines.
pub proof fn lemma_function_found_defined(
    input: Seq<RawPackage>,
    packages: Seq<Package>,
    modules: Seq<Module>,
    sources: Seq<(usize, usize)>,
    ids: Seq<Seq<char>>,
    structs: Seq<Struct>,
    struct_map: Map<EntityKey, usize>,
    fmodules: Seq<Module>,
    n_structs: nat,
    functions: Seq<Function>,
    function_map: Map<EntityKey, usize>,
    a: Address,
    module: Seq<char>,
    name: Seq<char>,
)
    requires
        functions_state(input, packages, modules, sources, ids, structs, struct_map, fmodules, n_structs, functions, function_map),
        find_entity(ids, function_map, a, module, name) is Some,
    ensures
        function_defined(input, a, module, name),
{
    let key = entity_key(a, index_in(ids, module), index_in(ids, name));
    assert(ids.contains(module) && ids.contains(name));
    assert(ids[index_in(ids, module)] == module);
    assert(ids[index_in(ids, name)] == name);
    assert(function_map.contains_key(key));
    let f = function_map[key] as int;
    let fun = functions[f];
    assert(crate::loader::function_key_of(packages, fmodules, fun) == key);
    assert(function_from(input, fmodules, sources, ids, n_structs, fun, f));
    let mi = fun.module as int;
    assert(module_from(input, packages, fmodules[mi], mi, sources[mi], ids));
    let p = sources[mi].0 as int;
    let k = sources[mi].1 as int;
    assert(module_ok(input, p, k));
    assert(package_loaded(packages[p], input[p], p));
    assert(raw_at(input, sources[mi]) == input[p].modules@[k].1);
    assert(fmodules[mi].name as int == index_in(ids, module));
    assert(fun.name as int == index_in(ids, name));
    assert(packages[p].id.hi == a.hi && packages[p].id.lo == a.lo);
    assert(input[p].id == a);
    assert(function_name_at(input, p, k, fun.def_idx as int) == name);
}

/// A type the build's context resolves, the input resolves.
pub proof fn lemma_token_defined(
    input: Seq<RawPackage>,
    packages: Seq<Package>,
    modules: Seq<Module>,
    sources: Seq<(usize, usize)>,
    ids: Seq<Seq<char>>,
    structs: Seq<Struct>,
    struct_map: Map<EntityKey, usize>,
    p: int,
    raw: RawModule,
    tok: SignatureToken,
)
    requires
        structs_state(input, packages, modules, sources, ids, structs, struct_map),
        0 <= p < input.len(),
        (TypeContext { packages, identifiers: ids, struct_map }).token_resolvable(p, raw, tok),
    ensures
        token_ok(input, p, raw, tok),
    decreases tok,
{
    match tok {
        SignatureToken::Vector(b) => lemma_token_defined(input, packages, modules, sources, ids, structs, struct_map, p, raw, *b),
        SignatureToken::Reference(b) => lemma_token_defined(input, packages, modules, sources, ids, structs, struct_map, p, raw, *b),
        SignatureToken::MutableReference(b) => lemma_token_defined(input, packages, modules, sources, ids, structs, struct_map, p, raw, *b),
        SignatureToken::Struct(h) => lemma_handle_defined(input, packages, modules, sources, ids, structs, struct_map, p, raw, h as int),
        SignatureToken::StructInstantiation(h, args) => {
            lemma_handle_defined(input, packages, modules, sources, ids, structs, struct_map, p, raw, h as int);
            assert forall|k: int| 0 <= k < args.len() implies token_ok(input, p, raw, #[trigger] args@[k]) by {
                assert(decreases_to!(tok => tok->StructInstantiation_1));
                assert(decreases_to!(args => args@));
                assert(decreases_to!(args@ => args@[k]));
                lemma_token_defined(input, packages, modules, sources, ids, structs, struct_map, p, raw, args@[k]);
            }
        },
        _ => {},
    }
}

/// A struct handle the build's context resolves, the input resolves.
pub proof fn lemma_handle_defined(
    input: Seq<RawPackage>,
    packages: Seq<Package>,
    modules: Seq<Module>,
    sources: Seq<(usize, usize)>,
    ids: Seq<Seq<char>>,
    structs: Seq<Struct>,
    struct_map: Map<EntityKey, usize>,
    p: int,
    raw: RawModule,
    h: int,
)
    requires
        structs_state(input, packages, modules, sources, ids, structs, struct_map),
        0 <= p < input.len(),
        (TypeContext { packages, identifiers: ids, struct_map }).resolve_struct_handle(p, raw, h) is Some,
    ensures
        struct_handle_ok(input, p, raw, h),
{
    let ctx = TypeContext { packages, identifiers: ids, struct_map };
    let mh = raw.struct_handles@[h].module as int;
    assert(package_loaded(packages[p], input[p], p));
    lemma_origin_same(packages[p].type_origin@, input[p].type_origin@, raw.handle_module_name(mh), raw.struct_handle_name(h));
    assert(ctx.struct_handle_home(p, raw, h) == raw_struct_home(input[p], raw, h));
    lemma_struct_found_defined(input, packages, modules, sources, ids, structs, struct_map, raw_struct_home(input[p], raw, h), raw.handle_module_name(mh), raw.struct_handle_name(h));
}

/// Types the build's context resolves, the input resolves.
pub proof fn lemma_tokens_defined(
    input: Seq<RawPackage>,
    packages: Seq<Package>,
    modules: Seq<Module>,
    sources: Seq<(usize, usize)>,
    ids: Seq<Seq<char>>,
    structs: Seq<Struct>,
    struct_map: Map<EntityKey, usize>,
    p: int,
    raw: RawModule,
    ts: Seq<SignatureToken>,
)
    requires
        structs_state(input, packages, modules, sources, ids, structs, struct_map),
        0 <= p < input.len(),
        (TypeContext { packages, identifiers: ids, struct_map }).tokens_resolvable(p, raw, ts),
    ensures
        tokens_ok(input, p, raw, ts),
{
    assert forall|k: int| 0 <= k < ts.len() implies token_ok(input, p, raw, #[trigger] ts[k]) by {
        lemma_token_defined(input, packages, modules, sources, ids, structs, struct_map, p, raw, ts[k]);
    }
}

/// An instruction the build's context resolves, the input resolves.
pub proof fn lemma_bytecode_defined(
    input: Seq<RawPackage>,
    packages: Seq<Package>,
    modules: Seq<Module>,
    sources: Seq<(usize, usize)>,
    ids: Seq<Seq<char>>,
    structs: Seq<Struct>,
    struct_map: Map<EntityKey, usize>,
    fmodules: Seq<Module>,
    n_structs: nat,
    functions: Seq<Function>,
    function_map: Map<EntityKey, usize>,
    p: int,
    raw: RawModule,
    rb: MoveBytecode,
)
    requires
        functions_state(input, packages, modules, sources, ids, structs, struct_map, fmodules, n_structs, functions, function_map),
        0 <= p < input.len(),
        (ResolutionContext { types: TypeContext { packages, identifiers: ids, struct_map }, function_map }).bytecode_resolvable(p, raw, rb),
    ensures
        bytecode_ok(input, p, raw, rb),
{
    let rctx = ResolutionContext { types: TypeContext { packages, identifiers: ids, struct_map }, function_map };
    assert(package_loaded(packages[p], input[p], p));
    let fh = |h: int| {
        let mh = raw.function_handles@[h].module as int;
        (raw_function_home(input[p], raw, h), raw.handle_module_name(mh), raw.function_handle_name(h))
    };
    match rb {
        MoveBytecode::Call(h) => {
            let (a, m, n) = fh(h as int);
            assert(rctx.function_handle_home(p, raw, h as int) == a);
            lemma_function_found_defined(input, packages, modules, sources, ids, structs, struct_map, fmodules, n_structs, functions, function_map, a, m, n);
        },
        MoveBytecode::CallGeneric(i) => {
            let inst = raw.function_instantiations@[i as int];
            let (a, m, n) = fh(inst.handle as int);
            assert(rctx.function_handle_home(p, raw, inst.handle as int) == a);
            lemma_function_found_defined(input, packages, modules, sources, ids, structs, struct_map, fmodules, n_structs, functions, function_map, a, m, n);
            lemma_tokens_defined(input, packages, modules, sources, ids, structs, struct_map, p, raw, raw.signatures@[inst.type_parameters as int]@);
        },
        MoveBytecode::Pack(d) => { lemma_handle_defined(input, packages, modules, sources, ids, structs, struct_map, p, raw, raw.struct_defs@[d as int].struct_handle as int); },
        MoveBytecode::Unpack(d) => { lemma_handle_defined(input, packages, modules, sources, ids, structs, struct_map, p, raw, raw.struct_defs@[d as int].struct_handle as int); },
        MoveBytecode::PackGeneric(i) => {
            let inst = raw.struct_def_instantiations@[i as int];
            lemma_handle_defined(input, packages, modules, sources, ids, structs, struct_map, p, raw, raw.struct_defs@[inst.def as int].struct_handle as int);
            lemma_tokens_defined(input, packages, modules, sources, ids, structs, struct_map, p, raw, raw.signatures@[inst.type_parameters as int]@);
        },
        MoveBytecode::UnpackGeneric(i) => {
            let inst = raw.struct_def_instantiations@[i as int];
            lemma_handle_defined(input, packages, modules, sources, ids, structs, struct_map, p, raw, raw.struct_defs@[inst.def as int].struct_handle as int);
            lemma_tokens_defined(input, packages, modules, sources, ids, structs, struct_map, p, raw, raw.signatures@[inst.type_parameters as int]@);
        },
        MoveBytecode::MutBorrowField(f) => { lemma_handle_defined(input, packages, modules, sources, ids, structs, struct_map, p, raw, raw.struct_defs@[raw.field_handles@[f as int].owner as int].struct_handle as int); },
        MoveBytecode::ImmBorrowField(f) => { lemma_handle_defined(input, packages, modules, sources, ids, structs, struct_map, p, raw, raw.struct_defs@[raw.field_handles@[f as int].owner as int].struct_handle as int); },
        MoveBytecode::MutBorrowFieldGeneric(i) => {
            let inst = raw.field_instantiations@[i as int];
            lemma_handle_defined(input, packages, modules, sources, ids, structs, struct_map, p, raw, raw.struct_defs@[raw.field_handles@[inst.handle as int].owner as int].struct_handle as int);
            lemma_tokens_defined(input, packages, modules, sources, ids, structs, struct_map, p, raw, raw.signatures@[inst.type_parameters as int]@);
        },
        MoveBytecode::ImmBorrowFieldGeneric(i) => {
            let inst = raw.field_instantiations@[i as int];
            lemma_handle_defined(input, packages, modules, sources, ids, structs, struct_map, p, raw, raw.struct_defs@[raw.field_handles@[inst.handle as int].owner as int].struct_handle as int);
            lemma_tokens_defined(input, packages, modules, sources, ids, structs, struct_map, p, raw, raw.signatures@[inst.type_parameters as int]@);
        },
        MoveBytecode::VecPack(sg, _) => { lemma_token_defined(input, packages, modules, sources, ids, structs, struct_map, p, raw, raw.signatures@[sg as int]@[0]); },
        MoveBytecode::VecLen(sg) => { lemma_token_defined(input, packages, modules, sources, ids, structs, struct_map, p, raw, raw.signatures@[sg as int]@[0]); },
        MoveBytecode::VecImmBorrow(sg) => { lemma_token_defined(input, packages, modules, sources, ids, structs, struct_map, p, raw, raw.signatures@[sg as int]@[0]); },
        MoveBytecode::VecMutBorrow(sg) => { lemma_token_defined(input, packages, modules, sources, ids, structs, struct_map, p, raw, raw.signatures@[sg as int]@[0]); },
        MoveBytecode::VecPushBack(sg) => { lemma_token_defined(input, packages, modules, sources, ids, structs, struct_map, p, raw, raw.signatures@[sg as int]@[0]); },
        MoveBytecode::VecPopBack(sg) => { lemma_token_defined(input, packages, modules, sources, ids, structs, struct_map, p, raw, raw.signatures@[sg as int]@[0]); },
        MoveBytecode::VecUnpack(sg, _) => { lemma_token_defined(input, packages, modules, sources, ids, structs, struct_map, p, raw, raw.signatures@[sg as int]@[0]); },
        MoveBytecode::VecSwap(sg) => { lemma_token_defined(input, packages, modules, sources, ids, structs, struct_map, p, raw, raw.signatures@[sg as int]@[0]); },
        _ => {},
    }
}


/// If every stage of the build succeeds on its own terms, the input is
/// resolvable.
pub proof fn lemma_stages_resolvable(
    input: Seq<RawPackage>,
    packages: Seq<Package>,
    modules: Seq<Module>,
    sources: Seq<(usize, usize)>,
    ids: Seq<Seq<char>>,
    structs: Seq<Struct>,
    struct_map: Map<EntityKey, usize>,
    fmodules: Seq<Module>,
    n_structs: nat,
    functions: Seq<Function>,
    function_map: Map<EntityKey, usize>,
)
    requires
        functions_state(input, packages, modules, sources, ids, structs, struct_map, fmodules, n_structs, functions, function_map),
        forall|s: int| 0 <= s < structs.len() ==> crate::loader::struct_fields_ok(
            TypeContext { packages, identifiers: ids, struct_map },
            input,
            sources,
            #[trigger] structs[s],
        ),
        forall|m: int| 0 <= m < modules.len() ==> crate::loader::constants_ok(
            TypeContext { packages, identifiers: ids, struct_map },
            input,
            sources,
            #[trigger] modules[m],
            m,
        ),
        forall|m: int, d: int|
            0 <= m < modules.len() && 0 <= d < raw_at(input, sources[m]).function_defs@.len()
                ==> #[trigger] crate::loader::function_sig_ok(
                TypeContext { packages, identifiers: ids, struct_map },
                input,
                sources,
                modules[m].package as int,
                m,
                d,
            ),
        forall|f: int| 0 <= f < functions.len() ==> crate::loader::function_code_ok(
            ResolutionContext { types: TypeContext { packages, identifiers: ids, struct_map }, function_map },
            input,
            sources,
            #[trigger] functions[f],
        ),
    ensures
        resolvable(input),
{
    let ctx = TypeContext { packages, identifiers: ids, struct_map };
    let rctx = ResolutionContext { types: ctx, function_map };
    assert forall|p: int, k: int| 0 <= p < input.len() && 0 <= k < input[p].modules@.len() implies module_resolvable(
        input,
        p,
        #[trigger] input[p].modules@[k].1,
    ) by {
        let m = packages[p].modules@[k] as int;
        let raw = input[p].modules@[k].1;
        assert(sources[m] == (p as usize, k as usize));
        assert(raw_at(input, sources[m]) == raw);
        assert(module_from(input, packages, modules[m], m, sources[m], ids));
        assert(module_from(input, packages, fmodules[m], m, sources[m], ids));
        assert(modules[m].structs@.len() == raw.struct_defs@.len());
        assert(fmodules[m].functions@.len() == raw.function_defs@.len());
        assert forall|d: int| 0 <= d < raw.struct_defs@.len() implies (#[trigger] raw.struct_defs@[d]).field_information is Declared by {
            let s = modules[m].structs@[d] as int;
            assert(struct_from(input, modules, sources, ids, structs[s], s));
            assert(crate::loader::struct_fields_ok(ctx, input, sources, structs[s]));
        }
        assert forall|d: int, j: int|
            0 <= d < raw.struct_defs@.len() && 0 <= j < declared_fields(raw, d).len() implies token_ok(
                input,
                p,
                raw,
                (#[trigger] declared_fields(raw, d)[j]).signature,
            ) by {
            let s = modules[m].structs@[d] as int;
            assert(struct_from(input, modules, sources, ids, structs[s], s));
            assert(crate::loader::struct_fields_ok(ctx, input, sources, structs[s]));
            lemma_token_defined(input, packages, modules, sources, ids, structs, struct_map, p, raw, declared_fields(raw, d)[j].signature);
        }
        assert forall|c: int| 0 <= c < raw.constant_pool@.len() implies token_ok(input, p, raw, (#[trigger] raw.constant_pool@[c]).type_) by {
            assert(crate::loader::constants_ok(ctx, input, sources, modules[m], m));
            lemma_token_defined(input, packages, modules, sources, ids, structs, struct_map, p, raw, raw.constant_pool@[c].type_);
        }
        assert forall|d: int| 0 <= d < raw.function_defs@.len() implies {
            let h = #[trigger] def_function_handle(raw, d);
            &&& tokens_ok(input, p, raw, raw.signatures@[h.parameters as int]@)
            &&& tokens_ok(input, p, raw, raw.signatures@[h.return_ as int]@)
        } by {
            assert(crate::loader::function_sig_ok(ctx, input, sources, modules[m].package as int, m, d));
            let h = def_function_handle(raw, d);
            lemma_tokens_defined(input, packages, modules, sources, ids, structs, struct_map, p, raw, raw.signatures@[h.parameters as int]@);
            lemma_tokens_defined(input, packages, modules, sources, ids, structs, struct_map, p, raw, raw.signatures@[h.return_ as int]@);
        }
        assert forall|d: int| 0 <= d < raw.function_defs@.len() implies match (#[trigger] raw.function_defs@[d]).code {
            None => true,
            Some(cu) => tokens_ok(input, p, raw, raw.signatures@[cu.locals as int]@) && forall|i: int|
                0 <= i < cu.code@.len() ==> bytecode_ok(input, p, raw, #[trigger] cu.code@[i]),
        } by {
            let f = fmodules[m].functions@[d] as int;
            assert(function_from(input, fmodules, sources, ids, n_structs, functions[f], f));
            assert(crate::loader::function_code_ok(rctx, input, sources, functions[f]));
            match raw.function_defs@[d].code {
                None => {},
                Some(cu) => {
                    lemma_tokens_defined(input, packages, modules, sources, ids, structs, struct_map, p, raw, raw.signatures@[cu.locals as int]@);
                    assert forall|i: int| 0 <= i < cu.code@.len() implies bytecode_ok(input, p, raw, #[trigger] cu.code@[i]) by {
                        lemma_bytecode_defined(input, packages, modules, sources, ids, structs, struct_map, fmodules, n_structs, functions, function_map, p, raw, cu.code@[i]);
                    }
                },
            }
        }
    }
}

} // verus!
