use move_package_analyzer::errors::{PackageAnalyzerError, Unsupported};
use move_package_analyzer::file_format::{
    AbilitySet, Address, CodeUnit, FieldDefinition, FieldHandle, FunctionDefinition,
    FunctionHandle, FunctionInstantiation, LinkageEntry, ModuleHandle, MoveBytecode, RawModule,
    RawPackage, SignatureToken, StructDefInstantiation, StructDefinition, StructFieldInformation,
    StructHandle, TypeOrigin, Visibility,
};
use move_package_analyzer::global_env::GlobalEnv;
use move_package_analyzer::loader::build_environment;
use move_package_analyzer::move_model::{Bytecode, FieldRef, Type};
use move_package_analyzer::stats::{call_locality, find_init, function_summary, CallLocality};
use move_package_analyzer::walkers::{walk_bytecodes, walk_functions, walk_modules, walk_packages, walk_structs};

fn addr(v: u128) -> Address {
    Address::from_u128(v)
}

/// A module at `address` named `name`, with only its own handle and the
/// empty signature at index 0.
fn module(address: Address, name: &str) -> RawModule {
    RawModule {
        self_module_handle_idx: 0,
        module_handles: vec![ModuleHandle { address: 0, name: 0 }],
        struct_handles: vec![],
        function_handles: vec![],
        field_handles: vec![],
        struct_def_instantiations: vec![],
        function_instantiations: vec![],
        field_instantiations: vec![],
        signatures: vec![vec![]],
        identifiers: vec![name.to_string()],
        address_identifiers: vec![address],
        constant_pool: vec![],
        struct_defs: vec![],
        function_defs: vec![],
    }
}

fn ident(m: &mut RawModule, name: &str) -> usize {
    m.identifiers.push(name.to_string());
    m.identifiers.len() - 1
}

fn add_module_handle(m: &mut RawModule, address: Address, name: &str) -> usize {
    m.address_identifiers.push(address);
    let a = m.address_identifiers.len() - 1;
    let n = ident(m, name);
    m.module_handles.push(ModuleHandle { address: a, name: n });
    m.module_handles.len() - 1
}

fn add_struct_handle(m: &mut RawModule, module: usize, name: &str) -> usize {
    let n = ident(m, name);
    m.struct_handles.push(StructHandle {
        module,
        name: n,
        abilities: AbilitySet::empty(),
        type_parameters: vec![],
    });
    m.struct_handles.len() - 1
}

/// Defines struct `name` in `m` with the given fields; returns its definition index.
fn define_struct(m: &mut RawModule, name: &str, fields: Vec<(&str, SignatureToken)>) -> usize {
    let h = add_struct_handle(m, 0, name);
    let fields = fields
        .into_iter()
        .map(|(f, t)| {
            let n = ident(m, f);
            FieldDefinition { name: n, signature: t }
        })
        .collect();
    m.struct_defs.push(StructDefinition {
        struct_handle: h,
        field_information: StructFieldInformation::Declared(fields),
    });
    m.struct_defs.len() - 1
}

fn add_signature(m: &mut RawModule, tokens: Vec<SignatureToken>) -> usize {
    m.signatures.push(tokens);
    m.signatures.len() - 1
}

fn add_function_handle(m: &mut RawModule, module: usize, name: &str, params: usize, type_parameters: usize) -> usize {
    let n = ident(m, name);
    m.function_handles.push(FunctionHandle {
        module,
        name: n,
        parameters: params,
        return_: 0,
        type_parameters: vec![AbilitySet::empty(); type_parameters],
    });
    m.function_handles.len() - 1
}

/// Defines a public function of `m` with the given handle and code.
fn define_function(m: &mut RawModule, handle: usize, code: Option<Vec<MoveBytecode>>) -> usize {
    m.function_defs.push(FunctionDefinition {
        function: handle,
        visibility: Visibility::Public,
        is_entry: false,
        code: code.map(|code| CodeUnit { locals: 0, code }),
    });
    m.function_defs.len() - 1
}

fn package(id: Address, modules: Vec<(&str, RawModule)>) -> RawPackage {
    RawPackage {
        id,
        version: 1,
        modules: modules.into_iter().map(|(n, m)| (n.to_string(), m)).collect(),
        type_origin: vec![],
        linkage: vec![],
    }
}

fn struct_named(env: &GlobalEnv, package: Address, module: &str, name: &str) -> usize {
    env.struct_index(package, &module.to_string(), &name.to_string())
        .expect("struct is loaded")
}

fn code_of<'a>(env: &'a GlobalEnv, name: &str) -> &'a Vec<Bytecode> {
    let f = env
        .functions
        .iter()
        .find(|f| env.function_name(f) == name)
        .expect("function is loaded");
    &f.code.as_ref().expect("function has code").code
}

#[test]
fn single_package_with_one_struct_and_one_function() {
    let mut m = module(addr(0x1), "m");
    define_struct(&mut m, "S", vec![]);
    let f = add_function_handle(&mut m, 0, "f", 0, 0);
    define_function(&mut m, f, Some(vec![MoveBytecode::Ret]));
    let env = build_environment(vec![package(addr(0x1), vec![("m", m)])]).unwrap();
    assert_eq!(env.packages.len(), 1);
    assert_eq!(env.modules.len(), 1);
    assert_eq!(env.structs.len(), 1);
    assert_eq!(env.structs[0].fields.len(), 0);
    assert_eq!(env.functions.len(), 1);
    assert_eq!(env.functions[0].code.as_ref().unwrap().code, vec![Bytecode::Ret]);
    assert_eq!(env.module_name_from_idx(0), "m");
    assert_eq!(env.struct_name_from_idx(0), "S");
    assert_eq!(env.function_name_from_idx(0), "f");
    assert_eq!(env.packages[0].modules, vec![0]);
    assert_eq!(env.modules[0].structs, vec![0]);
    assert_eq!(env.modules[0].functions, vec![0]);
}

/// Package A at 0xA defines `m::S`; its upgrade at 0xA1 does too. Package B
/// links 0xA to 0xA1 and its function `g` takes and constructs an `S` whose
/// handle names 0xA.
fn upgrade_batch() -> Vec<RawPackage> {
    let mut a = module(addr(0xA), "m");
    define_struct(&mut a, "S", vec![("x", SignatureToken::U64)]);
    let mut a1 = module(addr(0xA), "m");
    define_struct(&mut a1, "S", vec![("x", SignatureToken::U64)]);
    let mut b = module(addr(0xB), "m");
    let ma = add_module_handle(&mut b, addr(0xA), "m");
    let s = add_struct_handle(&mut b, ma, "S");
    // a definition of B's module that names A's struct through its handle
    b.struct_defs.push(StructDefinition {
        struct_handle: s,
        field_information: StructFieldInformation::Declared(vec![]),
    });
    let params = add_signature(&mut b, vec![SignatureToken::Struct(s)]);
    let g = add_function_handle(&mut b, 0, "g", params, 0);
    define_function(&mut b, g, Some(vec![MoveBytecode::Pack(0), MoveBytecode::Pop, MoveBytecode::Ret]));
    let mut pb = package(addr(0xB), vec![("m", b)]);
    pb.linkage.push(LinkageEntry { original: addr(0xA), upgraded: addr(0xA1) });
    let mut pa1 = package(addr(0xA1), vec![("m", a1)]);
    pa1.version = 2;
    pa1.type_origin.push(TypeOrigin {
        module_name: "m".to_string(),
        struct_name: "S".to_string(),
        package: addr(0xA1),
    });
    vec![package(addr(0xA), vec![("m", a)]), pa1, pb]
}

#[test]
fn upgraded_struct_resolves_to_linked_package() {
    let env = build_environment(upgrade_batch()).unwrap();
    let s_a = struct_named(&env, addr(0xA), "m", "S");
    let s_a1 = struct_named(&env, addr(0xA1), "m", "S");
    assert_ne!(s_a, s_a1);
    assert_eq!(env.structs[s_a1].package, 1);
    assert_eq!(code_of(&env, "g")[0], Bytecode::Pack(s_a1));
    let g = env.functions.iter().find(|f| env.function_name(f) == "g").unwrap();
    assert_eq!(g.parameters, vec![Type::Struct(s_a1)]);
}

#[test]
fn type_origin_overrides_handle_address() {
    // B's handle names 0xB2 (an intermediate version) but its origin table
    // says `m::S` was first defined at 0xA.
    let mut a = module(addr(0xA), "m");
    define_struct(&mut a, "S", vec![]);
    let mut b = module(addr(0xB), "b");
    let ma = add_module_handle(&mut b, addr(0xB2), "m");
    let s = add_struct_handle(&mut b, ma, "S");
    let params = add_signature(&mut b, vec![SignatureToken::Struct(s)]);
    let f = add_function_handle(&mut b, 0, "f", params, 0);
    define_function(&mut b, f, Some(vec![MoveBytecode::Ret]));
    let mut pb = package(addr(0xB), vec![("b", b)]);
    pb.type_origin.push(TypeOrigin {
        module_name: "m".to_string(),
        struct_name: "S".to_string(),
        package: addr(0xA),
    });
    let env = build_environment(vec![package(addr(0xA), vec![("m", a)]), pb]).unwrap();
    let s_a = struct_named(&env, addr(0xA), "m", "S");
    let f = env.functions.iter().find(|f| env.function_name(f) == "f").unwrap();
    assert_eq!(f.parameters, vec![Type::Struct(s_a)]);
}

#[test]
fn generic_call_carries_resolved_type_arguments() {
    let mut m = module(addr(0x1), "m");
    let id = add_function_handle(&mut m, 0, "id", 0, 1);
    define_function(&mut m, id, Some(vec![MoveBytecode::Ret]));
    let args = add_signature(&mut m, vec![SignatureToken::Vector(Box::new(SignatureToken::U64))]);
    m.function_instantiations.push(FunctionInstantiation { handle: id, type_parameters: args });
    let caller = add_function_handle(&mut m, 0, "caller", 0, 0);
    define_function(&mut m, caller, Some(vec![MoveBytecode::CallGeneric(0), MoveBytecode::Ret]));
    let env = build_environment(vec![package(addr(0x1), vec![("m", m)])]).unwrap();
    let id_idx = env
        .function_index(addr(0x1), &"m".to_string(), &"id".to_string())
        .unwrap();
    assert_eq!(
        code_of(&env, "caller")[0],
        Bytecode::CallGeneric(id_idx, vec![Type::Vector(Box::new(Type::U64))])
    );
}

#[test]
fn dangling_struct_reference_fails_the_build() {
    let mut m = module(addr(0x1), "m");
    let other = add_module_handle(&mut m, addr(0x9), "gone");
    let s = add_struct_handle(&mut m, other, "Missing");
    define_struct(&mut m, "Holder", vec![("h", SignatureToken::Struct(s))]);
    let r = build_environment(vec![package(addr(0x1), vec![("m", m)])]);
    match r {
        Err(PackageAnalyzerError::UnresolvedSymbol(key)) => {
            assert_eq!(key.address, addr(0x9));
            assert_eq!(key.module, "gone");
            assert_eq!(key.name, "Missing");
            assert_eq!(
                key.to_canonical_string(),
                "0x0000000000000000000000000000000000000000000000000000000000000009::gone::Missing"
            );
        }
        other => panic!("expected an unresolved symbol, got {:?}", other),
    }
}

#[test]
fn versions_keep_independent_structs() {
    let mut v1 = module(addr(0x1), "m");
    define_struct(&mut v1, "T", vec![("x", SignatureToken::Bool)]);
    let mut v2 = module(addr(0x1), "m");
    define_struct(&mut v2, "T", vec![("x", SignatureToken::Bool)]);
    let mut p2 = package(addr(0x2), vec![("m", v2)]);
    p2.version = 2;
    let env = build_environment(vec![package(addr(0x1), vec![("m", v1)]), p2]).unwrap();
    assert_eq!(env.structs.len(), 2);
    let t1 = struct_named(&env, addr(0x1), "m", "T");
    let t2 = struct_named(&env, addr(0x2), "m", "T");
    assert_ne!(t1, t2);
    assert_eq!(env.structs[t1].package, 0);
    assert_eq!(env.structs[t2].package, 1);
}

#[test]
fn native_function_has_no_code_and_others_keep_their_length() {
    let mut m = module(addr(0x1), "m");
    let n = add_function_handle(&mut m, 0, "native_fn", 0, 0);
    define_function(&mut m, n, None);
    let f = add_function_handle(&mut m, 0, "f", 0, 0);
    define_function(
        &mut m,
        f,
        Some(vec![MoveBytecode::LdU64(7), MoveBytecode::Pop, MoveBytecode::Branch(3), MoveBytecode::Ret]),
    );
    let env = build_environment(vec![package(addr(0x1), vec![("m", m)])]).unwrap();
    assert!(env.functions[0].code.is_none());
    assert_eq!(
        code_of(&env, "f"),
        &vec![Bytecode::LdU64(7), Bytecode::Pop, Bytecode::Branch(3), Bytecode::Ret]
    );
}

#[test]
fn field_borrows_and_vector_operations_resolve() {
    let mut m = module(addr(0x1), "m");
    define_struct(&mut m, "P", vec![("a", SignatureToken::U8), ("b", SignatureToken::Address)]);
    m.field_handles.push(FieldHandle { owner: 0, field: 1 });
    let elem = add_signature(&mut m, vec![SignatureToken::Struct(0)]);
    let f = add_function_handle(&mut m, 0, "f", 0, 0);
    define_function(
        &mut m,
        f,
        Some(vec![
            MoveBytecode::ImmBorrowField(0),
            MoveBytecode::MutBorrowField(0),
            MoveBytecode::VecPack(elem, 2),
            MoveBytecode::VecLen(elem),
            MoveBytecode::Ret,
        ]),
    );
    let env = build_environment(vec![package(addr(0x1), vec![("m", m)])]).unwrap();
    let p = struct_named(&env, addr(0x1), "m", "P");
    let r = FieldRef { struct_idx: p, field_idx: 1 };
    assert_eq!(
        code_of(&env, "f"),
        &vec![
            Bytecode::ImmBorrowField(r),
            Bytecode::MutBorrowField(r),
            Bytecode::VecPack(Type::Struct(p), 2),
            Bytecode::VecLen(Type::Struct(p)),
            Bytecode::Ret,
        ]
    );
    assert_eq!(env.field_name(&env.structs[p].fields[1]), "b");
    assert_eq!(env.structs[p].fields[1].type_, Type::Address);
}

#[test]
fn generic_struct_instantiation_resolves() {
    let mut m = module(addr(0x1), "m");
    define_struct(&mut m, "Box", vec![("v", SignatureToken::TypeParameter(0))]);
    let args = add_signature(&mut m, vec![SignatureToken::U8]);
    m.struct_def_instantiations.push(StructDefInstantiation { def: 0, type_parameters: args });
    define_struct(
        &mut m,
        "Holder",
        vec![("b", SignatureToken::StructInstantiation(0, vec![SignatureToken::U128]))],
    );
    let f = add_function_handle(&mut m, 0, "f", 0, 0);
    define_function(&mut m, f, Some(vec![MoveBytecode::PackGeneric(0), MoveBytecode::Ret]));
    let env = build_environment(vec![package(addr(0x1), vec![("m", m)])]).unwrap();
    let bx = struct_named(&env, addr(0x1), "m", "Box");
    let holder = struct_named(&env, addr(0x1), "m", "Holder");
    assert_eq!(env.structs[bx].fields[0].type_, Type::TypeParameter(0));
    assert_eq!(
        env.structs[holder].fields[0].type_,
        Type::StructInstantiation(bx, vec![Type::U128])
    );
    assert_eq!(code_of(&env, "f")[0], Bytecode::PackGeneric(bx, vec![Type::U8]));
}

#[test]
fn cross_module_calls_resolve_within_the_package() {
    let mut a = module(addr(0x1), "a");
    let h = add_function_handle(&mut a, 0, "helper", 0, 0);
    define_function(&mut a, h, Some(vec![MoveBytecode::Ret]));
    let mut b = module(addr(0x1), "b");
    let ma = add_module_handle(&mut b, addr(0x1), "a");
    let callee = add_function_handle(&mut b, ma, "helper", 0, 0);
    let f = add_function_handle(&mut b, 0, "f", 0, 0);
    define_function(&mut b, f, Some(vec![MoveBytecode::Call(callee), MoveBytecode::Ret]));
    let env = build_environment(vec![package(addr(0x1), vec![("a", a), ("b", b)])]).unwrap();
    let helper = env
        .function_index(addr(0x1), &"a".to_string(), &"helper".to_string())
        .unwrap();
    assert_eq!(code_of(&env, "f")[0], Bytecode::Call(helper));
    assert_eq!(env.modules[1].dependencies, vec![0]);
    assert!(env.modules[0].dependencies.is_empty());
    let f = env.functions.iter().find(|f| env.function_name(f) == "f").unwrap();
    assert_eq!(call_locality(&env, f, &code_of(&env, "f")[0]), Some(CallLocality::Package));
    assert_eq!(call_locality(&env, f, &Bytecode::Ret), None);
}

#[test]
fn summary_counts_functions_by_kind() {
    let mut m = module(addr(0x1), "m");
    let a = add_function_handle(&mut m, 0, "init", 0, 0);
    define_function(&mut m, a, Some(vec![MoveBytecode::Ret]));
    let b = add_function_handle(&mut m, 0, "native_fn", 0, 0);
    define_function(&mut m, b, None);
    m.function_defs[1].visibility = Visibility::Friend;
    let c = add_function_handle(&mut m, 0, "run", 0, 0);
    define_function(&mut m, c, Some(vec![MoveBytecode::Call(a), MoveBytecode::Ret]));
    m.function_defs[2].visibility = Visibility::Private;
    m.function_defs[2].is_entry = true;
    let env = build_environment(vec![package(addr(0x1), vec![("m", m)])]).unwrap();
    let s = function_summary(&env);
    assert_eq!((s.total, s.public, s.friend, s.private, s.native), (3, 1, 1, 1, 1));
    assert_eq!((s.entry, s.public_entry, s.friend_entry, s.private_entry), (1, 0, 0, 1));
    assert_eq!(find_init(&env, &env.modules[0]), Some(0));
    let run = &env.functions[2];
    assert_eq!(call_locality(&env, run, &code_of(&env, "run")[0]), Some(CallLocality::Module));
    // a call inside one module is no dependency
    assert!(env.modules[0].dependencies.is_empty());
}

#[test]
fn module_without_init_has_none() {
    let mut m = module(addr(0x1), "m");
    let a = add_function_handle(&mut m, 0, "initialize", 0, 0);
    define_function(&mut m, a, Some(vec![MoveBytecode::Ret]));
    let env = build_environment(vec![package(addr(0x1), vec![("m", m)])]).unwrap();
    assert_eq!(find_init(&env, &env.modules[0]), None);
}

#[test]
fn out_of_bounds_index_is_malformed_input() {
    let mut m = module(addr(0x1), "m");
    let f = add_function_handle(&mut m, 0, "f", 0, 0);
    define_function(&mut m, f, Some(vec![MoveBytecode::Call(42)]));
    match build_environment(vec![package(addr(0x1), vec![("m", m)])]) {
        Err(PackageAnalyzerError::MalformedInput(loc)) => {
            assert_eq!(loc.package, addr(0x1));
            assert_eq!(loc.module, "m");
        }
        other => panic!("expected malformed input, got {:?}", other),
    }
}

#[test]
fn stored_name_mismatch_is_malformed_input() {
    let m = module(addr(0x1), "m");
    let r = build_environment(vec![package(addr(0x1), vec![("other", m)])]);
    assert!(matches!(r, Err(PackageAnalyzerError::MalformedInput(_))));
}

#[test]
fn native_struct_is_unsupported() {
    let mut m = module(addr(0x1), "m");
    let h = add_struct_handle(&mut m, 0, "N");
    m.struct_defs.push(StructDefinition { struct_handle: h, field_information: StructFieldInformation::Native });
    let r = build_environment(vec![package(addr(0x1), vec![("m", m)])]);
    assert!(matches!(
        r,
        Err(PackageAnalyzerError::UnsupportedConstruct(Unsupported::NativeStruct, _))
    ));
}

#[test]
fn signer_type_is_unsupported() {
    let mut m = module(addr(0x1), "m");
    let params = add_signature(&mut m, vec![SignatureToken::Reference(Box::new(SignatureToken::Signer))]);
    let f = add_function_handle(&mut m, 0, "f", params, 0);
    define_function(&mut m, f, Some(vec![MoveBytecode::Ret]));
    let r = build_environment(vec![package(addr(0x1), vec![("m", m)])]);
    assert!(matches!(
        r,
        Err(PackageAnalyzerError::UnsupportedConstruct(Unsupported::SignerType, _))
    ));
}

#[test]
fn global_storage_instruction_is_unsupported() {
    let mut m = module(addr(0x1), "m");
    define_struct(&mut m, "R", vec![]);
    let f = add_function_handle(&mut m, 0, "f", 0, 0);
    define_function(&mut m, f, Some(vec![MoveBytecode::Exists(0), MoveBytecode::Ret]));
    let r = build_environment(vec![package(addr(0x1), vec![("m", m)])]);
    assert!(matches!(
        r,
        Err(PackageAnalyzerError::UnsupportedConstruct(Unsupported::GlobalStorageInstruction, _))
    ));
}

#[test]
fn duplicate_package_is_an_invariant_violation() {
    let r = build_environment(vec![
        package(addr(0x1), vec![("m", module(addr(0x1), "m"))]),
        package(addr(0x1), vec![("n", module(addr(0x1), "n"))]),
    ]);
    assert!(matches!(r, Err(PackageAnalyzerError::InvariantViolation(_))));
}

#[test]
fn duplicate_struct_name_is_an_invariant_violation() {
    let mut m = module(addr(0x1), "m");
    define_struct(&mut m, "S", vec![]);
    define_struct(&mut m, "S", vec![]);
    let r = build_environment(vec![package(addr(0x1), vec![("m", m)])]);
    match r {
        Err(PackageAnalyzerError::InvariantViolation(key)) => {
            assert_eq!(key.address, addr(0x1));
            assert_eq!(key.module, "m");
            assert_eq!(key.name, "S");
        }
        other => panic!("expected an invariant violation, got {:?}", other),
    }
}

#[test]
fn empty_batch_builds_an_empty_environment() {
    let env = build_environment(vec![]).unwrap();
    assert!(env.packages.is_empty() && env.modules.is_empty());
    assert!(env.structs.is_empty() && env.functions.is_empty());
}

#[test]
fn walkers_visit_in_pool_order() {
    let env = build_environment(upgrade_batch()).unwrap();
    let mut ids = vec![];
    walk_packages(&env, |_, p| ids.push(p.id));
    assert_eq!(ids, vec![addr(0xA), addr(0xA1), addr(0xB)]);
    let mut modules = vec![];
    walk_modules(&env, |_, m| modules.push(m.self_idx));
    assert_eq!(modules, vec![0, 1, 2]);
    let mut structs = vec![];
    walk_structs(&env, |_, s| structs.push(s.self_idx));
    assert_eq!(structs, vec![0, 1, 2]);
    let mut functions = vec![];
    walk_functions(&env, |e, f| functions.push(e.function_name(f)));
    assert_eq!(functions, vec!["g".to_string()]);
    let mut count = 0;
    walk_bytecodes(&env, |_, _, _| count += 1);
    assert_eq!(count, 3);
}

#[test]
fn package_counts_sum_over_modules() {
    let mut a = module(addr(0x1), "a");
    define_struct(&mut a, "S", vec![]);
    define_struct(&mut a, "T", vec![]);
    let f = add_function_handle(&mut a, 0, "f", 0, 0);
    define_function(&mut a, f, None);
    let mut b = module(addr(0x1), "b");
    define_struct(&mut b, "U", vec![]);
    let env = build_environment(vec![package(addr(0x1), vec![("a", a), ("b", b)])]).unwrap();
    let p = &env.packages[0];
    assert_eq!(p.struct_count(&env), 3);
    assert_eq!(p.function_count(&env), 1);
    let names: Vec<String> = env.modules_in_package(p).iter().map(|m| env.module_name(m)).collect();
    assert_eq!(names, vec!["a".to_string(), "b".to_string()]);
    assert_eq!(env.package_index(addr(0x1)), Some(0));
    assert_eq!(env.package_index(addr(0x2)), None);
}

#[test]
fn constants_keep_their_pool_positions() {
    let mut m = module(addr(0x1), "m");
    m.constant_pool.push(move_package_analyzer::file_format::RawConstant {
        type_: SignatureToken::U64,
        data: vec![1, 0, 0, 0, 0, 0, 0, 0],
    });
    m.constant_pool.push(move_package_analyzer::file_format::RawConstant {
        type_: SignatureToken::Vector(Box::new(SignatureToken::U8)),
        data: vec![0],
    });
    let env = build_environment(vec![package(addr(0x1), vec![("m", m)])]).unwrap();
    let c = &env.modules[0].constants;
    assert_eq!(c.len(), 2);
    assert_eq!(c[0].constant, 0);
    assert_eq!(c[0].type_, Type::U64);
    assert_eq!(c[1].constant, 1);
    assert_eq!(c[1].type_, Type::Vector(Box::new(Type::U8)));
}

#[test]
fn two_builds_of_one_input_agree() {
    let e1 = build_environment(upgrade_batch()).unwrap();
    let e2 = build_environment(upgrade_batch()).unwrap();
    assert_eq!(format!("{:?}", e1), format!("{:?}", e2));
}

#[test]
fn reference_inside_a_package_without_upgrades_stays_there() {
    let mut m = module(addr(0x5), "m");
    define_struct(&mut m, "Inner", vec![]);
    define_struct(&mut m, "Outer", vec![("i", SignatureToken::Struct(0))]);
    let mut other = module(addr(0x6), "m");
    define_struct(&mut other, "Inner", vec![]);
    let env = build_environment(vec![
        package(addr(0x6), vec![("m", other)]),
        package(addr(0x5), vec![("m", m)]),
    ])
    .unwrap();
    let inner = struct_named(&env, addr(0x5), "m", "Inner");
    let outer = struct_named(&env, addr(0x5), "m", "Outer");
    assert_eq!(env.structs[outer].fields[0].type_, Type::Struct(inner));
    assert_eq!(env.structs[inner].package, 1);
}

#[test]
fn types_have_a_total_order() {
    let mut ts = vec![
        Type::Vector(Box::new(Type::U8)),
        Type::Bool,
        Type::Struct(2),
        Type::Struct(1),
    ];
    ts.sort();
    assert_eq!(
        ts,
        vec![Type::Bool, Type::Vector(Box::new(Type::U8)), Type::Struct(1), Type::Struct(2)]
    );
}
