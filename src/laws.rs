//! Properties of interning, resolution and construction, stated over the
//! specifications the functions of this crate meet.
use crate::file_format::{Address, RawModule, RawPackage};
use crate::global_env::GlobalEnv;
use crate::identifiers::{distinct, index_in, interned, lemma_index_in_unique};
use crate::loader::{
    built_from, declared_fields, field_loaded, function_built, struct_built, declared_field_count, functions_before, lemma_raw_of_module, modules_before,
    package_loaded, raw_of_module, structs_before,
};
use crate::move_model::Package;
use crate::resolver::{
    entity_key, linkage_lookup, linked_address, origin_lookup, struct_home,
};
use vstd::prelude::*;

verus! {

/// Interning a name twice yields the same index both times, the second
/// interning leaves the pool as the first left it, and the pool holds the
/// name at that index.
pub proof fn lemma_intern_idempotent(pool: Seq<Seq<char>>, s: Seq<char>)
    requires
        distinct(pool),
    ensures
        ({
            let (p1, i1) = interned(pool, s);
            let (p2, i2) = interned(p1, s);
            &&& p2 == p1
            &&& i2 == i1
            &&& 0 <= i1 < p1.len()
            &&& p1[i1] == s
            &&& distinct(p1)
        }),
{
    if pool.contains(s) {
        let i = index_in(pool, s);
        assert(pool[i] == s);
    } else {
        let p1 = pool.push(s);
        assert forall|i: int, j: int| 0 <= i < p1.len() && 0 <= j < p1.len() && i != j implies p1[i]
            != p1[j] by {
            if i < pool.len() && j < pool.len() {
                assert(p1[i] == pool[i] && p1[j] == pool[j]);
            } else if i < pool.len() {
                assert(p1[i] == pool[i]);
            } else {
                assert(p1[j] == pool[j]);
            }
        }
        lemma_index_in_unique(p1, s, pool.len() as int);
    }
}

/// The struct a handle resolves to in a built environment lives in the
/// package at the address that resolution computed, under the handle's
/// module and struct names.
pub proof fn lemma_resolved_struct_home(env: GlobalEnv, p: int, raw: RawModule, h: int)
    requires
        env.wf(),
        0 <= p < env.packages@.len(),
        raw.wf(),
        0 <= h < raw.struct_handles@.len(),
    ensures
        env.context().types.resolve_struct_handle(p, raw, h) matches Some(s) ==> {
            let st = env.structs@[s as int];
            let mh = raw.struct_handles@[h].module as int;
            &&& 0 <= s < env.structs@.len()
            &&& env.packages@[st.package as int].id == env.context().types.struct_handle_home(p, raw, h)
            &&& env.identifiers@[env.modules@[st.module as int].name as int] == raw.handle_module_name(mh)
            &&& env.identifiers@[st.name as int] == raw.struct_handle_name(h)
        },
{
    let ctx = env.context().types;
    let mh = raw.struct_handles@[h].module as int;
    let m = raw.handle_module_name(mh);
    let n = raw.struct_handle_name(h);
    let a = ctx.struct_handle_home(p, raw, h);
    if let Some(s) = ctx.resolve_struct_handle(p, raw, h) {
        env.identifiers.lemma_distinct();
        assert(env.identifiers@.contains(m) && env.identifiers@.contains(n));
        let im = index_in(env.identifiers@, m);
        let in_ = index_in(env.identifiers@, n);
        assert(0 <= im < env.identifiers@.len() && env.identifiers@[im] == m);
        assert(0 <= in_ < env.identifiers@.len() && env.identifiers@[in_] == n);
        let k = entity_key(a, im, in_);
        assert(env.struct_map@.contains_key(k));
        assert(env.struct_map@[k] == s);
        assert(env.struct_key(s as int) == k);
        let st = env.structs@[s as int];
        assert(env.modules@[st.module as int].name as int == im);
        assert(st.name as int == in_);
        assert(env.packages@[st.package as int].id.hi == a.hi);
        assert(env.packages@[st.package as int].id.lo == a.lo);
    }
}

/// A package whose address is `a` is the only package with that address.
proof fn lemma_package_by_address(env: GlobalEnv, p: int, q: int)
    requires
        env.wf(),
        0 <= p < env.packages@.len(),
        0 <= q < env.packages@.len(),
        env.packages@[p].id == env.packages@[q].id,
    ensures
        p == q,
{
    assert(env.package_map@.contains_key(env.packages@[p].id.key()));
    assert(env.package_map@.contains_key(env.packages@[q].id.key()));
}

/// With an empty linkage table and no type-origin entry for the type, a
/// reference from a package to a type at its own address resolves to a
/// struct of that very package.
pub proof fn lemma_no_upgrade_identity(env: GlobalEnv, p: int, raw: RawModule, h: int)
    requires
        env.wf(),
        0 <= p < env.packages@.len(),
        raw.wf(),
        0 <= h < raw.struct_handles@.len(),
        env.packages@[p].linkage@.len() == 0,
        origin_lookup(
            env.packages@[p].type_origin@,
            raw.handle_module_name(raw.struct_handles@[h].module as int),
            raw.struct_handle_name(h),
        ) is None,
        raw.handle_address(raw.struct_handles@[h].module as int) == env.packages@[p].id,
    ensures
        env.context().types.struct_handle_home(p, raw, h) == env.packages@[p].id,
        env.context().types.resolve_struct_handle(p, raw, h) matches Some(s) ==> env.structs@[s as int].package == p,
{
    lemma_resolved_struct_home(env, p, raw, h);
    if let Some(s) = env.context().types.resolve_struct_handle(p, raw, h) {
        let st = env.structs@[s as int];
        assert(st.package < env.packages@.len());
        lemma_package_by_address(env, st.package as int, p);
    }
}

/// With linkage `old -> new` and no type-origin entry for the type, a
/// reference whose handle carries `old` resolves to a struct of the package
/// at `new`.
pub proof fn lemma_upgrade_precedence(env: GlobalEnv, p: int, raw: RawModule, h: int, old: Address, new: Address)
    requires
        env.wf(),
        0 <= p < env.packages@.len(),
        raw.wf(),
        0 <= h < raw.struct_handles@.len(),
        linkage_lookup(env.packages@[p].linkage@, old) == Some(new),
        origin_lookup(
            env.packages@[p].type_origin@,
            raw.handle_module_name(raw.struct_handles@[h].module as int),
            raw.struct_handle_name(h),
        ) is None,
        raw.handle_address(raw.struct_handles@[h].module as int) == old,
    ensures
        env.context().types.struct_handle_home(p, raw, h) == new,
        env.context().types.resolve_struct_handle(p, raw, h) matches Some(s)
            ==> env.packages@[env.structs@[s as int].package as int].id == new,
{
    lemma_resolved_struct_home(env, p, raw, h);
}

/// With a type-origin entry `module::name -> origin`, resolution starts from
/// `origin` whatever address the handle carries, and ends at its upgrade.
pub proof fn lemma_origin_precedence(
    pkg: Package,
    module: Seq<char>,
    name: Seq<char>,
    origin: Address,
    handle_address: Address,
)
    requires
        origin_lookup(pkg.type_origin@, module, name) == Some(origin),
    ensures
        struct_home(pkg, module, name, handle_address) == linked_address(pkg, origin),
        linkage_lookup(pkg.linkage@, origin) is None ==> struct_home(pkg, module, name, handle_address)
            == origin,
{
}

/// In a built environment, a function loaded from a definition without code
/// has no code; any other has code with exactly as many instructions as the
/// definition.
pub proof fn lemma_native_code_absent(env: GlobalEnv, input: Seq<RawPackage>, p: int, k: int, d: int)
    requires
        env.wf(),
        built_from(env, input),
        0 <= p < input.len(),
        0 <= k < input[p].modules@.len(),
        0 <= d < input[p].modules@[k].1.function_defs@.len(),
    ensures
        ({
            let raw = input[p].modules@[k].1;
            let m = env.packages@[p].modules@[k] as int;
            let fun = env.functions@[env.modules@[m].functions@[d] as int];
            &&& (fun.code is None <==> raw.function_defs@[d].code is None)
            &&& fun.code is Some ==> fun.code->Some_0.code@.len()
                == raw.function_defs@[d].code->Some_0.code@.len()
        }),
{
    let m = env.packages@[p].modules@[k] as int;
    let md = env.modules@[m];
    assert(md.functions@[d] == md.functions@[d]);
}

/// Resolving a function's instructions yields one instruction per raw
/// instruction, in the same order: the one at each position is the
/// resolution of the raw one at that position.
pub proof fn lemma_instruction_round_trip(env: GlobalEnv, input: Seq<RawPackage>, p: int, k: int, d: int, i: int)
    requires
        env.wf(),
        built_from(env, input),
        0 <= p < input.len(),
        0 <= k < input[p].modules@.len(),
        0 <= d < input[p].modules@[k].1.function_defs@.len(),
        input[p].modules@[k].1.function_defs@[d].code is Some,
        0 <= i < input[p].modules@[k].1.function_defs@[d].code->Some_0.code@.len(),
    ensures
        ({
            let raw = input[p].modules@[k].1;
            let m = env.packages@[p].modules@[k] as int;
            let fun = env.functions@[env.modules@[m].functions@[d] as int];
            let raw_code = raw.function_defs@[d].code->Some_0.code@;
            &&& fun.code is Some
            &&& fun.code->Some_0.code@.len() == raw_code.len()
            &&& env.context().bytecode_resolves_to(fun.package as int, raw, raw_code[i], fun.code->Some_0.code@[i])
        }),
{
    let m = env.packages@[p].modules@[k] as int;
    let md = env.modules@[m];
    assert(md.functions@[d] == md.functions@[d]);
}


/// Every global module index belongs to one input position.
proof fn lemma_module_position(input: Seq<RawPackage>, m: int) -> (pk: (int, int))
    requires
        0 <= m < modules_before(input, input.len() as int),
    ensures
        0 <= pk.0 < input.len(),
        0 <= pk.1 < input[pk.0].modules@.len(),
        modules_before(input, pk.0) + pk.1 == m,
    decreases input.len(),
{
    let n = input.len() as int;
    let last = input.drop_last();
    if m < modules_before(input, n - 1) {
        assert forall|q: int| 0 <= q <= last.len() implies #[trigger] modules_before(last, q) == modules_before(input, q) by {
            lemma_modules_before_prefix(input, q);
        }
        let pk = lemma_module_position(last, m);
        assert(last[pk.0] == input[pk.0]);
        pk
    } else {
        (n - 1, m - modules_before(input, n - 1))
    }
}

proof fn lemma_modules_before_prefix(input: Seq<RawPackage>, q: int)
    requires
        0 <= q < input.len(),
    ensures
        modules_before(input.drop_last(), q) == modules_before(input, q),
    decreases q,
{
    if q > 0 {
        lemma_modules_before_prefix(input, q - 1);
        assert(input.drop_last()[q - 1] == input[q - 1]);
    }
}

/// Counting definitions before a later module counts at least as many.
proof fn lemma_before_monotonic(input: Seq<RawPackage>, m1: int, m2: int)
    requires
        0 <= m1 <= m2,
    ensures
        structs_before(input, m1) <= structs_before(input, m2),
        functions_before(input, m1) <= functions_before(input, m2),
        m1 < m2 ==> structs_before(input, m1) + raw_of_module(input, m1).struct_defs@.len()
            <= structs_before(input, m2),
        m1 < m2 ==> functions_before(input, m1) + raw_of_module(input, m1).function_defs@.len()
            <= functions_before(input, m2),
    decreases m2 - m1,
{
    if m1 < m2 {
        lemma_before_monotonic(input, m1 + 1, m2);
    }
}

/// What a built environment holds about the module at global index `m`.
proof fn lemma_module_facts(env: GlobalEnv, input: Seq<RawPackage>, m: int) -> (pk: (int, int))
    requires
        env.wf(),
        built_from(env, input),
        0 <= m < env.modules@.len(),
    ensures
        0 <= pk.0 < input.len(),
        0 <= pk.1 < input[pk.0].modules@.len(),
        env.packages@[pk.0].modules@[pk.1] == m,
        raw_of_module(input, m) == input[pk.0].modules@[pk.1].1,
        env.modules@[m].package == pk.0,
        env.identifiers@[env.modules@[m].name as int] == input[pk.0].modules@[pk.1].0@,
        env.modules@[m].structs@.len() == raw_of_module(input, m).struct_defs@.len(),
        env.modules@[m].functions@.len() == raw_of_module(input, m).function_defs@.len(),
{
    let pk = lemma_module_position(input, m);
    lemma_raw_of_module(input, pk.0, pk.1);
    assert(env.packages@[pk.0].modules@[pk.1] == m);
    pk
}

/// Two environments built from the same input agree index by index: the
/// packages carry the same address, version and linkage and list the same
/// modules; each module comes from the same input position, with the same
/// name and the same struct and function lists; each struct comes from the
/// same definition, with the same package, name, abilities, type parameters
/// and field names; each function from the same definition, with the same
/// package, name, visibility, entry flag and type parameters; and a function
/// has code in one exactly when it has code in the other, of the same
/// length. Names are compared as strings.
pub proof fn lemma_builds_agree(e1: GlobalEnv, e2: GlobalEnv, input: Seq<RawPackage>)
    requires
        e1.wf(),
        e2.wf(),
        built_from(e1, input),
        built_from(e2, input),
    ensures
        e1.packages@.len() == e2.packages@.len(),
        e1.modules@.len() == e2.modules@.len(),
        e1.structs@.len() == e2.structs@.len(),
        e1.functions@.len() == e2.functions@.len(),
        forall|p: int|
            0 <= p < e1.packages@.len() ==> {
                let (a, b) = (#[trigger] e1.packages@[p], e2.packages@[p]);
                a.id == b.id && a.version == b.version && a.linkage@ == b.linkage@ && a.modules@ == b.modules@
            },
        forall|m: int|
            0 <= m < e1.modules@.len() ==> {
                let (a, b) = (#[trigger] e1.modules@[m], e2.modules@[m]);
                &&& a.package == b.package
                &&& e1.identifiers@[a.name as int] == e2.identifiers@[b.name as int]
                &&& a.structs@ == b.structs@
                &&& a.functions@ == b.functions@
            },
        forall|s: int|
            0 <= s < e1.structs@.len() ==> {
                let (a, b) = (#[trigger] e1.structs@[s], e2.structs@[s]);
                &&& a.module == b.module && a.def_idx == b.def_idx && a.package == b.package
                &&& e1.identifiers@[a.name as int] == e2.identifiers@[b.name as int]
                &&& a.abilities == b.abilities && a.type_parameters@ == b.type_parameters@
                &&& a.fields@.len() == b.fields@.len()
                &&& forall|j: int| 0 <= j < a.fields@.len() ==> e1.identifiers@[(#[trigger] a.fields@[j]).name as int]
                    == e2.identifiers@[b.fields@[j].name as int]
            },
        forall|f: int|
            0 <= f < e1.functions@.len() ==> {
                let (a, b) = (#[trigger] e1.functions@[f], e2.functions@[f]);
                &&& a.module == b.module
                &&& a.def_idx == b.def_idx
                &&& a.package == b.package
                &&& e1.identifiers@[a.name as int] == e2.identifiers@[b.name as int]
                &&& a.visibility == b.visibility && a.is_entry == b.is_entry
                &&& a.type_parameters@ == b.type_parameters@
                &&& (a.code is Some <==> b.code is Some)
                &&& a.code is Some ==> a.code->Some_0.code@.len() == b.code->Some_0.code@.len()
            },
{
    assert forall|p: int| 0 <= p < e1.packages@.len() implies {
        let (a, b) = (#[trigger] e1.packages@[p], e2.packages@[p]);
        a.id == b.id && a.version == b.version && a.linkage@ == b.linkage@ && a.modules@ == b.modules@
    } by {
        assert(package_loaded(e1.packages@[p], input[p], p));
        assert(package_loaded(e2.packages@[p], input[p], p));
        assert(e1.packages@[p].modules@ =~= e2.packages@[p].modules@);
    }
    assert forall|m: int| 0 <= m < e1.modules@.len() implies {
        let (a, b) = (#[trigger] e1.modules@[m], e2.modules@[m]);
        &&& a.package == b.package
        &&& e1.identifiers@[a.name as int] == e2.identifiers@[b.name as int]
        &&& a.structs@ == b.structs@
        &&& a.functions@ == b.functions@
    } by {
        let pk1 = lemma_module_facts(e1, input, m);
        let pk2 = lemma_module_facts(e2, input, m);
        crate::loader::lemma_module_position_unique(input, pk1.0, pk1.1, pk2.0, pk2.1);
        assert(e1.modules@[m].structs@ =~= e2.modules@[m].structs@);
        assert(e1.modules@[m].functions@ =~= e2.modules@[m].functions@);
    }
    assert forall|s: int| 0 <= s < e1.structs@.len() implies {
        let (a, b) = (#[trigger] e1.structs@[s], e2.structs@[s]);
        &&& a.module == b.module && a.def_idx == b.def_idx && a.package == b.package
        &&& e1.identifiers@[a.name as int] == e2.identifiers@[b.name as int]
        &&& a.abilities == b.abilities && a.type_parameters@ == b.type_parameters@
        &&& a.fields@.len() == b.fields@.len()
        &&& forall|j: int| 0 <= j < a.fields@.len() ==> e1.identifiers@[(#[trigger] a.fields@[j]).name as int]
            == e2.identifiers@[b.fields@[j].name as int]
    } by {
        let (a, b) = (e1.structs@[s], e2.structs@[s]);
        assert(crate::global_env::struct_valid(a, s, e1.sizes()));
        assert(crate::global_env::struct_valid(b, s, e2.sizes()));
        let m1 = a.module as int;
        let m2 = b.module as int;
        let pk1 = lemma_module_facts(e1, input, m1);
        let pk2 = lemma_module_facts(e2, input, m2);
        assert(e1.modules@[m1].structs@[a.def_idx as int] == s);
        assert(e2.modules@[m2].structs@[b.def_idx as int] == s);
        assert(s == structs_before(input, m1) + a.def_idx);
        assert(s == structs_before(input, m2) + b.def_idx);
        if m1 < m2 {
            lemma_before_monotonic(input, m1, m2);
        } else if m2 < m1 {
            lemma_before_monotonic(input, m2, m1);
        }
        assert(m1 == m2);
        let raw = input[pk1.0].modules@[pk1.1].1;
        crate::loader::lemma_module_position_unique(input, pk1.0, pk1.1, pk2.0, pk2.1);
        assert(e1.structs@[e1.modules@[m1].structs@[a.def_idx as int] as int].fields@.len() == a.fields@.len());
        assert(declared_field_count(raw, a.def_idx as int) == Some(a.fields@.len()));
        assert(declared_field_count(raw, b.def_idx as int) == Some(b.fields@.len()));
        assert(struct_built(e1, pk1.0, m1, raw, a.def_idx as int, s));
        assert(struct_built(e2, pk1.0, m1, raw, a.def_idx as int, s));
        assert forall|j: int| 0 <= j < a.fields@.len() implies e1.identifiers@[(#[trigger] a.fields@[j]).name as int]
            == e2.identifiers@[b.fields@[j].name as int] by {
            assert(field_loaded(e1.context().types, pk1.0, raw, a.fields@[j], declared_fields(raw, a.def_idx as int)[j], e1.structs@.len()));
            assert(field_loaded(e2.context().types, pk1.0, raw, b.fields@[j], declared_fields(raw, a.def_idx as int)[j], e2.structs@.len()));
        }
    }
    assert forall|f: int| 0 <= f < e1.functions@.len() implies {
        let (a, b) = (#[trigger] e1.functions@[f], e2.functions@[f]);
        &&& a.module == b.module
        &&& a.def_idx == b.def_idx
        &&& a.package == b.package
        &&& e1.identifiers@[a.name as int] == e2.identifiers@[b.name as int]
        &&& a.visibility == b.visibility && a.is_entry == b.is_entry
        &&& a.type_parameters@ == b.type_parameters@
        &&& (a.code is Some <==> b.code is Some)
        &&& a.code is Some ==> a.code->Some_0.code@.len() == b.code->Some_0.code@.len()
    } by {
        let (a, b) = (e1.functions@[f], e2.functions@[f]);
        assert(crate::global_env::function_valid(a, f, e1.sizes()));
        assert(crate::global_env::function_valid(b, f, e2.sizes()));
        let m1 = a.module as int;
        let m2 = b.module as int;
        let pk1 = lemma_module_facts(e1, input, m1);
        let pk2 = lemma_module_facts(e2, input, m2);
        assert(e1.modules@[m1].functions@[a.def_idx as int] == f);
        assert(e2.modules@[m2].functions@[b.def_idx as int] == f);
        assert(f == functions_before(input, m1) + a.def_idx);
        assert(f == functions_before(input, m2) + b.def_idx);
        if m1 < m2 {
            lemma_before_monotonic(input, m1, m2);
        } else if m2 < m1 {
            lemma_before_monotonic(input, m2, m1);
        }
        assert(m1 == m2);
        crate::loader::lemma_module_position_unique(input, pk1.0, pk1.1, pk2.0, pk2.1);
        lemma_native_code_absent(e1, input, pk1.0, pk1.1, a.def_idx as int);
        lemma_native_code_absent(e2, input, pk1.0, pk1.1, a.def_idx as int);
        let raw = input[pk1.0].modules@[pk1.1].1;
        assert(e1.modules@[m1].functions@[a.def_idx as int] == f);
        assert(function_built(e1, pk1.0, raw, a.def_idx as int, a));
        assert(function_built(e2, pk1.0, raw, a.def_idx as int, b));
    }
}


/// A field typed by a struct handle that names no struct of the batch makes
/// the batch unresolvable, so that building it fails.
pub proof fn lemma_dangling_field_type_fails(input: Seq<RawPackage>, p: int, k: int, d: int, j: int, h: usize)
    requires
        0 <= p < input.len(),
        0 <= k < input[p].modules@.len(),
        0 <= d < input[p].modules@[k].1.struct_defs@.len(),
        0 <= j < declared_fields(input[p].modules@[k].1, d).len(),
        declared_fields(input[p].modules@[k].1, d)[j].signature == crate::file_format::SignatureToken::Struct(h),
        !crate::resolvable::struct_handle_ok(input, p, input[p].modules@[k].1, h as int),
    ensures
        !crate::resolvable::resolvable(input),
{
    let raw = input[p].modules@[k].1;
    if crate::resolvable::resolvable(input) {
        assert(crate::resolvable::module_resolvable(input, p, raw));
        assert(crate::resolvable::token_ok(input, p, raw, declared_fields(raw, d)[j].signature));
    }
}

} // verus!
