//! Upgrade-aware symbol resolution: from a module-local handle to the global
//! index of the struct or function it means.
use crate::errors::{Location, PackageAnalyzerError, SymbolKey, Unsupported};
use crate::file_format::{Address, LinkageEntry, MoveBytecode, RawModule, SignatureToken, TypeOrigin};
use crate::identifiers::{index_in, lemma_index_in_unique, IdentifierMap};
use crate::move_model::{
    bytecode_valid, Bytecode, FieldRef, FunctionIndex, Package, StructIndex, Type, type_valid,
    types_valid,
};
use std::collections::BTreeMap;
use vstd::prelude::*;

verus! {

/// A canonical key `<address>::<module>::<name>`, with both names as
/// identifier indices.
pub type EntityKey = (u128, u128, usize, usize);

/// A canonical module key `<address>::<module>`.
pub type ModuleKey = (u128, u128, usize);

pub open spec fn entity_key(a: Address, module: int, name: int) -> EntityKey {
    (a.hi, a.lo, module as usize, name as usize)
}

/// The address a type-origin table gives for `module::name`: that of its first
/// entry for it.
pub open spec fn origin_lookup(table: Seq<TypeOrigin>, module: Seq<char>, name: Seq<char>) -> Option<
    Address,
>
    decreases table.len(),
{
    if table.len() == 0 {
        None
    } else if table[0].module_name@ == module && table[0].struct_name@ == name {
        Some(table[0].package)
    } else {
        origin_lookup(table.drop_first(), module, name)
    }
}

/// The upgraded address a linkage table gives for `a`: that of its first entry
/// for it.
pub open spec fn linkage_lookup(table: Seq<LinkageEntry>, a: Address) -> Option<Address>
    decreases table.len(),
{
    if table.len() == 0 {
        None
    } else if table[0].original == a {
        Some(table[0].upgraded)
    } else {
        linkage_lookup(table.drop_first(), a)
    }
}

/// `a`, replaced by its upgrade where the linkage table has one.
pub open spec fn linked_address(pkg: Package, a: Address) -> Address {
    match linkage_lookup(pkg.linkage@, a) {
        Some(u) => u,
        None => a,
    }
}

/// The address of the package that holds the struct `module::name`, referred
/// to from `pkg` through a handle that carries `handle_address`: the origin
/// table's address if it has one (else the handle's), then its upgrade.
pub open spec fn struct_home(
    pkg: Package,
    module: Seq<char>,
    name: Seq<char>,
    handle_address: Address,
) -> Address {
    let start = match origin_lookup(pkg.type_origin@, module, name) {
        Some(o) => o,
        None => handle_address,
    };
    linked_address(pkg, start)
}

/// The address of the package that holds a function called from a module of
/// `pkg` whose own address is `self_address`: a call inside the package stays
/// in `pkg`; any other goes to the upgrade of the handle's address.
pub open spec fn function_home(pkg: Package, self_address: Address, handle_address: Address) -> Address {
    if handle_address == self_address {
        pkg.id
    } else {
        linked_address(pkg, handle_address)
    }
}

/// The value `map` holds under the canonical key of `a::module::name`, where
/// both names are interned in `ids`.
pub open spec fn find_entity(
    ids: Seq<Seq<char>>,
    map: Map<EntityKey, usize>,
    a: Address,
    module: Seq<char>,
    name: Seq<char>,
) -> Option<usize> {
    if ids.contains(module) && ids.contains(name) {
        let k = entity_key(a, index_in(ids, module), index_in(ids, name));
        if map.contains_key(k) {
            Some(map[k])
        } else {
            None
        }
    } else {
        None
    }
}

/// Whether `e` reports the canonical key `a::module::name` as unresolved.
pub open spec fn is_unresolved(
    e: PackageAnalyzerError,
    a: Address,
    module: Seq<char>,
    name: Seq<char>,
) -> bool {
    match e {
        PackageAnalyzerError::UnresolvedSymbol(k) => k.address == a && k.module@ == module
            && k.name@ == name,
        _ => false,
    }
}

impl RawModule {
    /// The name of the module that module handle `mh` refers to.
    pub open spec fn handle_module_name(&self, mh: int) -> Seq<char> {
        self.identifiers@[self.module_handles@[mh].name as int]@
    }

    /// The address of the module that module handle `mh` refers to.
    pub open spec fn handle_address(&self, mh: int) -> Address {
        self.address_identifiers@[self.module_handles@[mh].address as int]
    }

    /// The module's own name.
    pub open spec fn self_name(&self) -> Seq<char> {
        self.handle_module_name(self.self_module_handle_idx as int)
    }

    /// The module's own address.
    pub open spec fn self_address(&self) -> Address {
        self.handle_address(self.self_module_handle_idx as int)
    }

    /// The name of struct handle `h`.
    pub open spec fn struct_handle_name(&self, h: int) -> Seq<char> {
        self.identifiers@[self.struct_handles@[h].name as int]@
    }

    /// The name of function handle `h`.
    pub open spec fn function_handle_name(&self, h: int) -> Seq<char> {
        self.identifiers@[self.function_handles@[h].name as int]@
    }
}

/// What type resolution reads: the packages, the interned names, and the
/// canonical map of structs.
pub ghost struct TypeContext {
    pub packages: Seq<Package>,
    pub identifiers: Seq<Seq<char>>,
    pub struct_map: Map<EntityKey, StructIndex>,
}

/// What instruction resolution reads: that of types, and the canonical map of
/// functions.
pub ghost struct ResolutionContext {
    pub types: TypeContext,
    pub function_map: Map<EntityKey, FunctionIndex>,
}

impl ResolutionContext {
    /// The address that function handle `h` of `raw` resolves to.
    pub open spec fn function_handle_home(self, pkg: int, raw: RawModule, h: int) -> Address {
        let mh = raw.function_handles@[h].module as int;
        function_home(self.types.packages[pkg], raw.self_address(), raw.handle_address(mh))
    }

    /// The global function that function handle `h` of `raw` means.
    pub open spec fn resolve_function_handle(self, pkg: int, raw: RawModule, h: int) -> Option<
        FunctionIndex,
    > {
        let mh = raw.function_handles@[h].module as int;
        find_entity(
            self.types.identifiers,
            self.function_map,
            self.function_handle_home(pkg, raw, h),
            raw.handle_module_name(mh),
            raw.function_handle_name(h),
        )
    }
}

impl ResolutionContext {
    /// The struct that struct definition `d` of `raw` means.
    pub open spec fn resolve_struct_def(self, pkg: int, raw: RawModule, d: int) -> Option<StructIndex> {
        self.types.resolve_struct_handle(pkg, raw, raw.struct_defs@[d].struct_handle as int)
    }

    /// Whether signature `sig` of `raw` resolves.
    pub open spec fn sig_resolvable(self, pkg: int, raw: RawModule, sig: int) -> bool {
        self.types.tokens_resolvable(pkg, raw, raw.signatures@[sig]@)
    }

    /// Whether `ts` is the resolution of signature `sig` of `raw`.
    pub open spec fn sig_resolves_to(self, pkg: int, raw: RawModule, sig: int, ts: Seq<Type>) -> bool {
        self.types.tokens_resolve_to(pkg, raw, raw.signatures@[sig]@, ts)
    }

    /// Whether the single type of signature `sig` of `raw` resolves.
    pub open spec fn elem_resolvable(self, pkg: int, raw: RawModule, sig: int) -> bool {
        self.types.token_resolvable(pkg, raw, raw.signatures@[sig]@[0])
    }

    /// Whether `t` is the resolution of the single type of signature `sig`.
    pub open spec fn elem_resolves_to(self, pkg: int, raw: RawModule, sig: int, t: Type) -> bool {
        self.types.token_resolves_to(pkg, raw, raw.signatures@[sig]@[0], t)
    }

    /// Whether `e` reports that function handle `h` of `raw` names no
    /// function: the handle does not resolve and `e` carries its key.
    pub open spec fn function_error(self, pkg: int, raw: RawModule, h: int, e: PackageAnalyzerError) -> bool {
        let mh = raw.function_handles@[h].module as int;
        &&& self.resolve_function_handle(pkg, raw, h) is None
        &&& is_unresolved(
            e,
            self.function_handle_home(pkg, raw, h),
            raw.handle_module_name(mh),
            raw.function_handle_name(h),
        )
    }

    /// Whether `e` reports that struct definition `d` of `raw` names no struct.
    pub open spec fn def_error(self, pkg: int, raw: RawModule, d: int, e: PackageAnalyzerError) -> bool {
        self.types.handle_error(pkg, raw, raw.struct_defs@[d].struct_handle as int, e)
    }

    /// Whether `e` is an error that resolving signature `sig` of `raw` reports.
    pub open spec fn sig_error(self, pkg: int, raw: RawModule, sig: int, e: PackageAnalyzerError) -> bool {
        self.types.tokens_error(pkg, raw, raw.signatures@[sig]@, e)
    }

    /// Whether `e` is an error that resolving `rb` reports: the key of a
    /// function or struct it names that does not resolve, an error of one of
    /// its types, or a global-storage instruction as unsupported.
    pub open spec fn bytecode_error(self, pkg: int, raw: RawModule, rb: MoveBytecode, e: PackageAnalyzerError) -> bool {
        match rb {
            MoveBytecode::Call(h) => self.function_error(pkg, raw, h as int, e),
            MoveBytecode::CallGeneric(i) => {
                let inst = raw.function_instantiations@[i as int];
                self.function_error(pkg, raw, inst.handle as int, e) || self.sig_error(pkg, raw, inst.type_parameters as int, e)
            },
            MoveBytecode::Pack(d) => self.def_error(pkg, raw, d as int, e),
            MoveBytecode::Unpack(d) => self.def_error(pkg, raw, d as int, e),
            MoveBytecode::PackGeneric(i) => {
                let inst = raw.struct_def_instantiations@[i as int];
                self.def_error(pkg, raw, inst.def as int, e) || self.sig_error(pkg, raw, inst.type_parameters as int, e)
            },
            MoveBytecode::UnpackGeneric(i) => {
                let inst = raw.struct_def_instantiations@[i as int];
                self.def_error(pkg, raw, inst.def as int, e) || self.sig_error(pkg, raw, inst.type_parameters as int, e)
            },
            MoveBytecode::MutBorrowField(f) => self.def_error(pkg, raw, raw.field_handles@[f as int].owner as int, e),
            MoveBytecode::ImmBorrowField(f) => self.def_error(pkg, raw, raw.field_handles@[f as int].owner as int, e),
            MoveBytecode::MutBorrowFieldGeneric(i) => {
                let inst = raw.field_instantiations@[i as int];
                self.def_error(pkg, raw, raw.field_handles@[inst.handle as int].owner as int, e)
                    || self.sig_error(pkg, raw, inst.type_parameters as int, e)
            },
            MoveBytecode::ImmBorrowFieldGeneric(i) => {
                let inst = raw.field_instantiations@[i as int];
                self.def_error(pkg, raw, raw.field_handles@[inst.handle as int].owner as int, e)
                    || self.sig_error(pkg, raw, inst.type_parameters as int, e)
            },
            MoveBytecode::VecPack(s, _) => self.types.token_error(pkg, raw, raw.signatures@[s as int]@[0], e),
            MoveBytecode::VecUnpack(s, _) => self.types.token_error(pkg, raw, raw.signatures@[s as int]@[0], e),
            MoveBytecode::VecLen(s) => self.types.token_error(pkg, raw, raw.signatures@[s as int]@[0], e),
            MoveBytecode::VecImmBorrow(s) => self.types.token_error(pkg, raw, raw.signatures@[s as int]@[0], e),
            MoveBytecode::VecMutBorrow(s) => self.types.token_error(pkg, raw, raw.signatures@[s as int]@[0], e),
            MoveBytecode::VecPushBack(s) => self.types.token_error(pkg, raw, raw.signatures@[s as int]@[0], e),
            MoveBytecode::VecPopBack(s) => self.types.token_error(pkg, raw, raw.signatures@[s as int]@[0], e),
            MoveBytecode::VecSwap(s) => self.types.token_error(pkg, raw, raw.signatures@[s as int]@[0], e),
            MoveBytecode::MutBorrowGlobal(_) => e is UnsupportedConstruct && e->UnsupportedConstruct_0
                == Unsupported::GlobalStorageInstruction,
            MoveBytecode::ImmBorrowGlobal(_) => e is UnsupportedConstruct && e->UnsupportedConstruct_0
                == Unsupported::GlobalStorageInstruction,
            MoveBytecode::Exists(_) => e is UnsupportedConstruct && e->UnsupportedConstruct_0
                == Unsupported::GlobalStorageInstruction,
            MoveBytecode::MoveFrom(_) => e is UnsupportedConstruct && e->UnsupportedConstruct_0
                == Unsupported::GlobalStorageInstruction,
            MoveBytecode::MoveTo(_) => e is UnsupportedConstruct && e->UnsupportedConstruct_0
                == Unsupported::GlobalStorageInstruction,
            MoveBytecode::MutBorrowGlobalGeneric(_) => e is UnsupportedConstruct && e->UnsupportedConstruct_0
                == Unsupported::GlobalStorageInstruction,
            MoveBytecode::ImmBorrowGlobalGeneric(_) => e is UnsupportedConstruct && e->UnsupportedConstruct_0
                == Unsupported::GlobalStorageInstruction,
            MoveBytecode::ExistsGeneric(_) => e is UnsupportedConstruct && e->UnsupportedConstruct_0
                == Unsupported::GlobalStorageInstruction,
            MoveBytecode::MoveFromGeneric(_) => e is UnsupportedConstruct && e->UnsupportedConstruct_0
                == Unsupported::GlobalStorageInstruction,
            MoveBytecode::MoveToGeneric(_) => e is UnsupportedConstruct && e->UnsupportedConstruct_0
                == Unsupported::GlobalStorageInstruction,
            _ => false,
        }
    }

    /// Whether the instruction can be resolved: every function and struct
    /// it refers to resolves, and it is not a global-storage instruction.
    pub open spec fn bytecode_resolvable(self, pkg: int, raw: RawModule, rb: MoveBytecode) -> bool {
        match rb {
            MoveBytecode::Call(h) => self.resolve_function_handle(pkg, raw, h as int) is Some,
            MoveBytecode::CallGeneric(i) => {
                let inst = raw.function_instantiations@[i as int];
                self.resolve_function_handle(pkg, raw, inst.handle as int) is Some
                    && self.sig_resolvable(pkg, raw, inst.type_parameters as int)
            },
            MoveBytecode::Pack(d) => self.resolve_struct_def(pkg, raw, d as int) is Some,
            MoveBytecode::Unpack(d) => self.resolve_struct_def(pkg, raw, d as int) is Some,
            MoveBytecode::PackGeneric(i) => {
                let inst = raw.struct_def_instantiations@[i as int];
                self.resolve_struct_def(pkg, raw, inst.def as int) is Some && self.sig_resolvable(
                    pkg,
                    raw,
                    inst.type_parameters as int,
                )
            },
            MoveBytecode::UnpackGeneric(i) => {
                let inst = raw.struct_def_instantiations@[i as int];
                self.resolve_struct_def(pkg, raw, inst.def as int) is Some && self.sig_resolvable(
                    pkg,
                    raw,
                    inst.type_parameters as int,
                )
            },
            MoveBytecode::MutBorrowField(f) => self.resolve_struct_def(
                pkg,
                raw,
                raw.field_handles@[f as int].owner as int,
            ) is Some,
            MoveBytecode::ImmBorrowField(f) => self.resolve_struct_def(
                pkg,
                raw,
                raw.field_handles@[f as int].owner as int,
            ) is Some,
            MoveBytecode::MutBorrowFieldGeneric(i) => {
                let inst = raw.field_instantiations@[i as int];
                self.resolve_struct_def(
                    pkg,
                    raw,
                    raw.field_handles@[inst.handle as int].owner as int,
                ) is Some && self.sig_resolvable(pkg, raw, inst.type_parameters as int)
            },
            MoveBytecode::ImmBorrowFieldGeneric(i) => {
                let inst = raw.field_instantiations@[i as int];
                self.resolve_struct_def(
                    pkg,
                    raw,
                    raw.field_handles@[inst.handle as int].owner as int,
                ) is Some && self.sig_resolvable(pkg, raw, inst.type_parameters as int)
            },
            MoveBytecode::VecPack(s, _) => self.elem_resolvable(pkg, raw, s as int),
            MoveBytecode::VecLen(s) => self.elem_resolvable(pkg, raw, s as int),
            MoveBytecode::VecImmBorrow(s) => self.elem_resolvable(pkg, raw, s as int),
            MoveBytecode::VecMutBorrow(s) => self.elem_resolvable(pkg, raw, s as int),
            MoveBytecode::VecPushBack(s) => self.elem_resolvable(pkg, raw, s as int),
            MoveBytecode::VecPopBack(s) => self.elem_resolvable(pkg, raw, s as int),
            MoveBytecode::VecUnpack(s, _) => self.elem_resolvable(pkg, raw, s as int),
            MoveBytecode::VecSwap(s) => self.elem_resolvable(pkg, raw, s as int),
            MoveBytecode::MutBorrowGlobal(_) => false,
            MoveBytecode::ImmBorrowGlobal(_) => false,
            MoveBytecode::Exists(_) => false,
            MoveBytecode::MoveFrom(_) => false,
            MoveBytecode::MoveTo(_) => false,
            MoveBytecode::MutBorrowGlobalGeneric(_) => false,
            MoveBytecode::ImmBorrowGlobalGeneric(_) => false,
            MoveBytecode::ExistsGeneric(_) => false,
            MoveBytecode::MoveFromGeneric(_) => false,
            MoveBytecode::MoveToGeneric(_) => false,
            _ => true,
        }
    }

    /// Whether `b` is the resolution of `rb`: operands without a symbol are
    /// copied, handles become global indices, signatures become types.
    pub open spec fn bytecode_resolves_to(
        self,
        pkg: int,
        raw: RawModule,
        rb: MoveBytecode,
        b: Bytecode,
    ) -> bool {
        match rb {
            MoveBytecode::Nop => b == Bytecode::Nop,
            MoveBytecode::Pop => b == Bytecode::Pop,
            MoveBytecode::Ret => b == Bytecode::Ret,
            MoveBytecode::BrTrue(o) => b == Bytecode::BrTrue(o),
            MoveBytecode::BrFalse(o) => b == Bytecode::BrFalse(o),
            MoveBytecode::Branch(o) => b == Bytecode::Branch(o),
            MoveBytecode::LdConst(c) => b == Bytecode::LdConst(c),
            MoveBytecode::LdTrue => b == Bytecode::LdTrue,
            MoveBytecode::LdFalse => b == Bytecode::LdFalse,
            MoveBytecode::LdU8(v) => b == Bytecode::LdU8(v),
            MoveBytecode::LdU16(v) => b == Bytecode::LdU16(v),
            MoveBytecode::LdU32(v) => b == Bytecode::LdU32(v),
            MoveBytecode::LdU64(v) => b == Bytecode::LdU64(v),
            MoveBytecode::LdU128(v) => b == Bytecode::LdU128(v),
            MoveBytecode::LdU256(v) => b == Bytecode::LdU256(v),
            MoveBytecode::CastU8 => b == Bytecode::CastU8,
            MoveBytecode::CastU16 => b == Bytecode::CastU16,
            MoveBytecode::CastU32 => b == Bytecode::CastU32,
            MoveBytecode::CastU64 => b == Bytecode::CastU64,
            MoveBytecode::CastU128 => b == Bytecode::CastU128,
            MoveBytecode::CastU256 => b == Bytecode::CastU256,
            MoveBytecode::Add => b == Bytecode::Add,
            MoveBytecode::Sub => b == Bytecode::Sub,
            MoveBytecode::Mul => b == Bytecode::Mul,
            MoveBytecode::Mod => b == Bytecode::Mod,
            MoveBytecode::Div => b == Bytecode::Div,
            MoveBytecode::BitOr => b == Bytecode::BitOr,
            MoveBytecode::BitAnd => b == Bytecode::BitAnd,
            MoveBytecode::Xor => b == Bytecode::Xor,
            MoveBytecode::Or => b == Bytecode::Or,
            MoveBytecode::And => b == Bytecode::And,
            MoveBytecode::Not => b == Bytecode::Not,
            MoveBytecode::Eq => b == Bytecode::Eq,
            MoveBytecode::Neq => b == Bytecode::Neq,
            MoveBytecode::Lt => b == Bytecode::Lt,
            MoveBytecode::Gt => b == Bytecode::Gt,
            MoveBytecode::Le => b == Bytecode::Le,
            MoveBytecode::Ge => b == Bytecode::Ge,
            MoveBytecode::Shl => b == Bytecode::Shl,
            MoveBytecode::Shr => b == Bytecode::Shr,
            MoveBytecode::Abort => b == Bytecode::Abort,
            MoveBytecode::CopyLoc(l) => b == Bytecode::CopyLoc(l),
            MoveBytecode::MoveLoc(l) => b == Bytecode::MoveLoc(l),
            MoveBytecode::StLoc(l) => b == Bytecode::StLoc(l),
            MoveBytecode::MutBorrowLoc(l) => b == Bytecode::MutBorrowLoc(l),
            MoveBytecode::ImmBorrowLoc(l) => b == Bytecode::ImmBorrowLoc(l),
            MoveBytecode::ReadRef => b == Bytecode::ReadRef,
            MoveBytecode::WriteRef => b == Bytecode::WriteRef,
            MoveBytecode::FreezeRef => b == Bytecode::FreezeRef,
            MoveBytecode::Call(h) => b is Call && self.resolve_function_handle(pkg, raw, h as int)
                == Some(b->Call_0),
            MoveBytecode::CallGeneric(i) => {
                let inst = raw.function_instantiations@[i as int];
                &&& b is CallGeneric
                &&& self.resolve_function_handle(pkg, raw, inst.handle as int) == Some(
                    b->CallGeneric_0,
                )
                &&& self.sig_resolves_to(pkg, raw, inst.type_parameters as int, b->CallGeneric_1@)
            },
            MoveBytecode::Pack(d) => b is Pack && self.resolve_struct_def(pkg, raw, d as int)
                == Some(b->Pack_0),
            MoveBytecode::Unpack(d) => b is Unpack && self.resolve_struct_def(pkg, raw, d as int)
                == Some(b->Unpack_0),
            MoveBytecode::PackGeneric(i) => {
                let inst = raw.struct_def_instantiations@[i as int];
                &&& b is PackGeneric
                &&& self.resolve_struct_def(pkg, raw, inst.def as int) == Some(b->PackGeneric_0)
                &&& self.sig_resolves_to(pkg, raw, inst.type_parameters as int, b->PackGeneric_1@)
            },
            MoveBytecode::UnpackGeneric(i) => {
                let inst = raw.struct_def_instantiations@[i as int];
                &&& b is UnpackGeneric
                &&& self.resolve_struct_def(pkg, raw, inst.def as int) == Some(b->UnpackGeneric_0)
                &&& self.sig_resolves_to(
                    pkg,
                    raw,
                    inst.type_parameters as int,
                    b->UnpackGeneric_1@,
                )
            },
            MoveBytecode::MutBorrowField(f) => {
                let fh = raw.field_handles@[f as int];
                &&& b is MutBorrowField
                &&& self.resolve_struct_def(pkg, raw, fh.owner as int) == Some(
                    b->MutBorrowField_0.struct_idx,
                )
                &&& b->MutBorrowField_0.field_idx == fh.field
            },
            MoveBytecode::ImmBorrowField(f) => {
                let fh = raw.field_handles@[f as int];
                &&& b is ImmBorrowField
                &&& self.resolve_struct_def(pkg, raw, fh.owner as int) == Some(
                    b->ImmBorrowField_0.struct_idx,
                )
                &&& b->ImmBorrowField_0.field_idx == fh.field
            },
            MoveBytecode::MutBorrowFieldGeneric(i) => {
                let inst = raw.field_instantiations@[i as int];
                let fh = raw.field_handles@[inst.handle as int];
                &&& b is MutBorrowFieldGeneric
                &&& self.resolve_struct_def(pkg, raw, fh.owner as int) == Some(
                    b->MutBorrowFieldGeneric_0.struct_idx,
                )
                &&& b->MutBorrowFieldGeneric_0.field_idx == fh.field
                &&& self.sig_resolves_to(
                    pkg,
                    raw,
                    inst.type_parameters as int,
                    b->MutBorrowFieldGeneric_1@,
                )
            },
            MoveBytecode::ImmBorrowFieldGeneric(i) => {
                let inst = raw.field_instantiations@[i as int];
                let fh = raw.field_handles@[inst.handle as int];
                &&& b is ImmBorrowFieldGeneric
                &&& self.resolve_struct_def(pkg, raw, fh.owner as int) == Some(
                    b->ImmBorrowFieldGeneric_0.struct_idx,
                )
                &&& b->ImmBorrowFieldGeneric_0.field_idx == fh.field
                &&& self.sig_resolves_to(
                    pkg,
                    raw,
                    inst.type_parameters as int,
                    b->ImmBorrowFieldGeneric_1@,
                )
            },
            MoveBytecode::VecPack(s, n) => b is VecPack && b->VecPack_1 == n
                && self.elem_resolves_to(pkg, raw, s as int, b->VecPack_0),
            MoveBytecode::VecLen(s) => b is VecLen && self.elem_resolves_to(
                pkg,
                raw,
                s as int,
                b->VecLen_0,
            ),
            MoveBytecode::VecImmBorrow(s) => b is VecImmBorrow && self.elem_resolves_to(
                pkg,
                raw,
                s as int,
                b->VecImmBorrow_0,
            ),
            MoveBytecode::VecMutBorrow(s) => b is VecMutBorrow && self.elem_resolves_to(
                pkg,
                raw,
                s as int,
                b->VecMutBorrow_0,
            ),
            MoveBytecode::VecPushBack(s) => b is VecPushBack && self.elem_resolves_to(
                pkg,
                raw,
                s as int,
                b->VecPushBack_0,
            ),
            MoveBytecode::VecPopBack(s) => b is VecPopBack && self.elem_resolves_to(
                pkg,
                raw,
                s as int,
                b->VecPopBack_0,
            ),
            MoveBytecode::VecUnpack(s, n) => b is VecUnpack && b->VecUnpack_1 == n
                && self.elem_resolves_to(pkg, raw, s as int, b->VecUnpack_0),
            MoveBytecode::VecSwap(s) => b is VecSwap && self.elem_resolves_to(
                pkg,
                raw,
                s as int,
                b->VecSwap_0,
            ),
            _ => false,
        }
    }
}

impl TypeContext {
    /// The address that struct handle `h` of `raw`, a module of package `pkg`,
    /// resolves to.
    pub open spec fn struct_handle_home(self, pkg: int, raw: RawModule, h: int) -> Address {
        let mh = raw.struct_handles@[h].module as int;
        struct_home(
            self.packages[pkg],
            raw.handle_module_name(mh),
            raw.struct_handle_name(h),
            raw.handle_address(mh),
        )
    }

    /// The global struct that struct handle `h` of `raw` means.
    pub open spec fn resolve_struct_handle(self, pkg: int, raw: RawModule, h: int) -> Option<
        StructIndex,
    > {
        let mh = raw.struct_handles@[h].module as int;
        find_entity(
            self.identifiers,
            self.struct_map,
            self.struct_handle_home(pkg, raw, h),
            raw.handle_module_name(mh),
            raw.struct_handle_name(h),
        )
    }

    /// Whether every struct in `tok` resolves and no `signer` occurs in it.
    pub open spec fn token_resolvable(self, pkg: int, raw: RawModule, tok: SignatureToken) -> bool
        decreases tok,
    {
        match tok {
            SignatureToken::Signer => false,
            SignatureToken::Vector(b) => self.token_resolvable(pkg, raw, *b),
            SignatureToken::Reference(b) => self.token_resolvable(pkg, raw, *b),
            SignatureToken::MutableReference(b) => self.token_resolvable(pkg, raw, *b),
            SignatureToken::Struct(h) => self.resolve_struct_handle(pkg, raw, h as int) is Some,
            SignatureToken::StructInstantiation(h, args) => self.resolve_struct_handle(
                pkg,
                raw,
                h as int,
            ) is Some && forall|k: int|
                0 <= k < args.len() ==> self.token_resolvable(pkg, raw, #[trigger] args@[k]),
            _ => true,
        }
    }

    /// Whether `t` is the resolution of `tok`: the same shape, with every
    /// struct handle replaced by the global struct it means.
    pub open spec fn token_resolves_to(
        self,
        pkg: int,
        raw: RawModule,
        tok: SignatureToken,
        t: Type,
    ) -> bool
        decreases tok,
    {
        match tok {
            SignatureToken::Bool => t == Type::Bool,
            SignatureToken::U8 => t == Type::U8,
            SignatureToken::U16 => t == Type::U16,
            SignatureToken::U32 => t == Type::U32,
            SignatureToken::U64 => t == Type::U64,
            SignatureToken::U128 => t == Type::U128,
            SignatureToken::U256 => t == Type::U256,
            SignatureToken::Address => t == Type::Address,
            SignatureToken::Signer => false,
            SignatureToken::Vector(b) => t is Vector && self.token_resolves_to(
                pkg,
                raw,
                *b,
                *t->Vector_0,
            ),
            SignatureToken::Reference(b) => t is Reference && self.token_resolves_to(
                pkg,
                raw,
                *b,
                *t->Reference_0,
            ),
            SignatureToken::MutableReference(b) => t is MutableReference && self.token_resolves_to(
                pkg,
                raw,
                *b,
                *t->MutableReference_0,
            ),
            SignatureToken::Struct(h) => self.resolve_struct_handle(pkg, raw, h as int) == Some(
                t->Struct_0,
            ) && t is Struct,
            SignatureToken::StructInstantiation(h, args) => {
                &&& t is StructInstantiation
                &&& self.resolve_struct_handle(pkg, raw, h as int) == Some(
                    t->StructInstantiation_0,
                )
                &&& t->StructInstantiation_1@.len() == args@.len()
                &&& forall|k: int|
                    0 <= k < args.len() ==> self.token_resolves_to(
                        pkg,
                        raw,
                        #[trigger] args@[k],
                        t->StructInstantiation_1@[k],
                    )
            },
            SignatureToken::TypeParameter(p) => t == Type::TypeParameter(p),
        }
    }

    /// Whether `e` reports that struct handle `h` of `raw` names no struct:
    /// the handle does not resolve and `e` carries its canonical key.
    pub open spec fn handle_error(self, pkg: int, raw: RawModule, h: int, e: PackageAnalyzerError) -> bool {
        let mh = raw.struct_handles@[h].module as int;
        &&& self.resolve_struct_handle(pkg, raw, h) is None
        &&& is_unresolved(
            e,
            self.struct_handle_home(pkg, raw, h),
            raw.handle_module_name(mh),
            raw.struct_handle_name(h),
        )
    }

    /// Whether `e` is an error that resolving `tok` reports: the key of an
    /// unresolved struct handle in it, or `signer` as unsupported.
    pub open spec fn token_error(
        self,
        pkg: int,
        raw: RawModule,
        tok: SignatureToken,
        e: PackageAnalyzerError,
    ) -> bool
        decreases tok,
    {
        match tok {
            SignatureToken::Signer => e is UnsupportedConstruct && e->UnsupportedConstruct_0
                == Unsupported::SignerType,
            SignatureToken::Vector(b) => self.token_error(pkg, raw, *b, e),
            SignatureToken::Reference(b) => self.token_error(pkg, raw, *b, e),
            SignatureToken::MutableReference(b) => self.token_error(pkg, raw, *b, e),
            SignatureToken::Struct(h) => self.handle_error(pkg, raw, h as int, e),
            SignatureToken::StructInstantiation(h, args) => self.handle_error(pkg, raw, h as int, e)
                || exists|k: int| 0 <= k < args.len() && self.token_error(pkg, raw, #[trigger] args@[k], e),
            _ => false,
        }
    }

    /// Whether `e` is an error that resolving some token of `ts` reports.
    pub open spec fn tokens_error(self, pkg: int, raw: RawModule, ts: Seq<SignatureToken>, e: PackageAnalyzerError) -> bool {
        exists|k: int| 0 <= k < ts.len() && self.token_error(pkg, raw, #[trigger] ts[k], e)
    }

    pub open spec fn tokens_resolvable(self, pkg: int, raw: RawModule, ts: Seq<SignatureToken>) -> bool {
        forall|k: int| 0 <= k < ts.len() ==> self.token_resolvable(pkg, raw, #[trigger] ts[k])
    }

    pub open spec fn tokens_resolve_to(
        self,
        pkg: int,
        raw: RawModule,
        ts: Seq<SignatureToken>,
        types: Seq<Type>,
    ) -> bool {
        &&& types.len() == ts.len()
        &&& forall|k: int|
            0 <= k < ts.len() ==> self.token_resolves_to(pkg, raw, #[trigger] ts[k], types[k])
    }
}

/// Every value of `map` is below `n`.
pub open spec fn values_below(map: Map<EntityKey, usize>, n: nat) -> bool {
    forall|k: EntityKey| #[trigger] map.contains_key(k) ==> (map[k] as nat) < n
}

/// The first address a type-origin table gives for `module::name`.
pub fn lookup_origin(table: &Vec<TypeOrigin>, module: &String, name: &String) -> (r: Option<
    Address,
>)
    ensures
        r == origin_lookup(table@, module@, name@),
{
    let mut i: usize = 0;
    assert(table@.subrange(0, table@.len() as int) =~= table@);
    while i < table.len()
        invariant
            i <= table@.len(),
            origin_lookup(table@, module@, name@) == origin_lookup(
                table@.subrange(i as int, table@.len() as int),
                module@,
                name@,
            ),
        decreases table@.len() - i,
    {
        assert(table@.subrange(i as int, table@.len() as int).drop_first() =~= table@.subrange(
            i + 1,
            table@.len() as int,
        ));
        if table[i].module_name == *module && table[i].struct_name == *name {
            return Some(table[i].package);
        }
        i += 1;
    }
    None
}

/// The first upgrade a linkage table gives for `a`.
pub fn lookup_linkage(table: &Vec<LinkageEntry>, a: Address) -> (r: Option<Address>)
    ensures
        r == linkage_lookup(table@, a),
{
    let mut i: usize = 0;
    assert(table@.subrange(0, table@.len() as int) =~= table@);
    while i < table.len()
        invariant
            i <= table@.len(),
            linkage_lookup(table@, a) == linkage_lookup(
                table@.subrange(i as int, table@.len() as int),
                a,
            ),
        decreases table@.len() - i,
    {
        assert(table@.subrange(i as int, table@.len() as int).drop_first() =~= table@.subrange(
            i + 1,
            table@.len() as int,
        ));
        if table[i].original == a {
            return Some(table[i].upgraded);
        }
        i += 1;
    }
    None
}

/// `a`, replaced by its upgrade where the package's linkage table has one.
pub fn link_address(pkg: &Package, a: Address) -> (r: Address)
    ensures
        r == linked_address(*pkg, a),
{
    match lookup_linkage(&pkg.linkage, a) {
        Some(u) => u,
        None => a,
    }
}

/// Finds the value of `a::module::name` in a canonical map.
pub fn find_in_map(
    ids: &IdentifierMap,
    map: &BTreeMap<EntityKey, usize>,
    a: Address,
    module: &String,
    name: &String,
) -> (r: Option<usize>)
    requires
        ids.wf(),
    ensures
        r == find_entity(ids@, map@, a, module@, name@),
{
    proof {
        ids.lemma_distinct();
    }
    match ids.lookup(module) {
        None => None,
        Some(mi) => match ids.lookup(name) {
            None => None,
            Some(ni) => {
                proof {
                    lemma_index_in_unique(ids@, module@, mi as int);
                    lemma_index_in_unique(ids@, name@, ni as int);
                }
                match map.get(&(a.hi, a.lo, mi, ni)) {
                    Some(v) => Some(*v),
                    None => None,
                }
            },
        },
    }
}

/// The error for an unresolved `a::module::name`.
pub fn unresolved(a: Address, module: &String, name: &String) -> (e: PackageAnalyzerError)
    ensures
        is_unresolved(e, a, module@, name@),
{
    PackageAnalyzerError::UnresolvedSymbol(
        SymbolKey { address: a, module: module.clone(), name: name.clone() },
    )
}

/// Builds types out of a module's signatures, once every struct has its
/// global index.
pub struct TypeBuilder {
    pub packages: Vec<Package>,
    pub struct_map: BTreeMap<EntityKey, StructIndex>,
    pub struct_count: usize,
}

impl TypeBuilder {
    /// Every struct index of the map is within the struct pool.
    pub open spec fn wf(&self) -> bool {
        values_below(self.struct_map@, self.struct_count as nat)
    }

    pub open spec fn context(&self, ids: Seq<Seq<char>>) -> TypeContext {
        TypeContext { packages: self.packages@, identifiers: ids, struct_map: self.struct_map@ }
    }

    /// Where a module of package `pkg` is, for error reports.
    pub fn location(&self, pkg: usize, raw: &RawModule) -> (r: Location)
        requires
            pkg < self.packages@.len(),
            raw.wf(),
        ensures
            r.package == self.packages@[pkg as int].id,
            r.module@ == raw.self_name(),
    {
        let mh = &raw.module_handles[raw.self_module_handle_idx];
        Location { package: self.packages[pkg].id, module: raw.identifiers[mh.name].clone() }
    }

    /// The global struct that struct handle `h` of `raw`, a module of package
    /// `pkg`, means; or the canonical key that names no struct.
    pub fn get_struct_idx(&self, ids: &IdentifierMap, pkg: usize, raw: &RawModule, h: usize) -> (r:
        Result<StructIndex, PackageAnalyzerError>)
        requires
            ids.wf(),
            raw.wf(),
            pkg < self.packages@.len(),
            h < raw.struct_handles@.len(),
        ensures
            ({
                let ctx = self.context(ids@);
                let mh = raw.struct_handles@[h as int].module as int;
                match ctx.resolve_struct_handle(pkg as int, *raw, h as int) {
                    Some(i) => r == Ok::<StructIndex, PackageAnalyzerError>(i),
                    None => r is Err && is_unresolved(
                        r->Err_0,
                        ctx.struct_handle_home(pkg as int, *raw, h as int),
                        raw.handle_module_name(mh),
                        raw.struct_handle_name(h as int),
                    ),
                }
            }),
    {
        let handle = &raw.struct_handles[h];
        let mh = &raw.module_handles[handle.module];
        let module_name = &raw.identifiers[mh.name];
        let struct_name = &raw.identifiers[handle.name];
        let handle_address = raw.address_identifiers[mh.address];
        let package = &self.packages[pkg];
        let start = match lookup_origin(&package.type_origin, module_name, struct_name) {
            None => handle_address,
            Some(origin) => origin,
        };
        let home = link_address(package, start);
        match find_in_map(ids, &self.struct_map, home, module_name, struct_name) {
            Some(i) => Ok(i),
            None => Err(unresolved(home, module_name, struct_name)),
        }
    }
}


impl TypeBuilder {
    /// Resolves a type as written in `raw`, a module of package `pkg`.
    pub fn make_type(&self, ids: &IdentifierMap, pkg: usize, raw: &RawModule, tok: &SignatureToken) -> (r:
        Result<Type, PackageAnalyzerError>)
        requires
            ids.wf(),
            raw.wf(),
            self.wf(),
            pkg < self.packages@.len(),
            crate::file_format::token_wf(*tok, raw.struct_handles@.len()),
        ensures
            r is Ok <==> self.context(ids@).token_resolvable(pkg as int, *raw, *tok),
            r is Ok ==> self.context(ids@).token_resolves_to(pkg as int, *raw, *tok, r->Ok_0),
            r is Ok ==> type_valid(r->Ok_0, self.struct_count as nat),
            r is Err ==> r->Err_0 is UnresolvedSymbol || r->Err_0 is UnsupportedConstruct,
            r is Err ==> self.context(ids@).token_error(pkg as int, *raw, *tok, r->Err_0),
        decreases tok,
    {
        match tok {
            SignatureToken::Bool => Ok(Type::Bool),
            SignatureToken::U8 => Ok(Type::U8),
            SignatureToken::U16 => Ok(Type::U16),
            SignatureToken::U32 => Ok(Type::U32),
            SignatureToken::U64 => Ok(Type::U64),
            SignatureToken::U128 => Ok(Type::U128),
            SignatureToken::U256 => Ok(Type::U256),
            SignatureToken::Address => Ok(Type::Address),
            SignatureToken::Signer => Err(
                PackageAnalyzerError::UnsupportedConstruct(
                    Unsupported::SignerType,
                    self.location(pkg, raw),
                ),
            ),
            SignatureToken::Vector(inner) => {
                let t = self.make_type(ids, pkg, raw, inner)?;
                Ok(Type::Vector(Box::new(t)))
            },
            SignatureToken::Reference(inner) => {
                let t = self.make_type(ids, pkg, raw, inner)?;
                Ok(Type::Reference(Box::new(t)))
            },
            SignatureToken::MutableReference(inner) => {
                let t = self.make_type(ids, pkg, raw, inner)?;
                Ok(Type::MutableReference(Box::new(t)))
            },
            SignatureToken::Struct(h) => {
                let idx = self.get_struct_idx(ids, pkg, raw, *h)?;
                Ok(Type::Struct(idx))
            },
            SignatureToken::StructInstantiation(h, args) => {
                let idx = self.get_struct_idx(ids, pkg, raw, *h)?;
                let ghost ctx = self.context(ids@);
                let mut type_arguments: Vec<Type> = Vec::new();
                let mut k: usize = 0;
                while k < args.len()
                    invariant
                        ids.wf(),
                        raw.wf(),
                        self.wf(),
                        pkg < self.packages@.len(),
                        ctx == self.context(ids@),
                        *tok == SignatureToken::StructInstantiation(*h, *args),
                        crate::file_format::token_wf(*tok, raw.struct_handles@.len()),
                        k <= args@.len(),
                        type_arguments@.len() == k,
                        forall|j: int|
                            0 <= j < k ==> ctx.token_resolvable(pkg as int, *raw, #[trigger] args@[j]),
                        forall|j: int|
                            0 <= j < k ==> ctx.token_resolves_to(
                                pkg as int,
                                *raw,
                                #[trigger] args@[j],
                                type_arguments@[j],
                            ),
                        types_valid(type_arguments@, self.struct_count as nat),
                    decreases args@.len() - k,
                {
                    proof {
                        assert(decreases_to!(*tok => (*tok)->StructInstantiation_1));
                        assert(decreases_to!(*args => args@));
                        assert(decreases_to!(args@ => args@[k as int]));
                        assert(crate::file_format::token_wf(args@[k as int], raw.struct_handles@.len()));
                    }
                    let t = self.make_type(ids, pkg, raw, &args[k]);
                    match t {
                        Ok(t) => {
                            type_arguments.push(t);
                        },
                        Err(e) => {
                            proof {
                                assert(ctx.token_error(pkg as int, *raw, args@[k as int], e));
                            }
                            return Err(e);
                        },
                    }
                    k += 1;
                }
                let r = Type::StructInstantiation(idx, type_arguments);
                proof {
                    assert(r->StructInstantiation_1@ == type_arguments@);
                    assert forall|j: int| 0 <= j < type_arguments@.len() implies type_valid(
                        #[trigger] type_arguments@[j],
                        self.struct_count as nat,
                    ) by {}
                }
                Ok(r)
            },
            SignatureToken::TypeParameter(p) => Ok(Type::TypeParameter(*p)),
        }
    }

    /// Resolves a list of types as written in `raw`.
    pub fn make_types(&self, ids: &IdentifierMap, pkg: usize, raw: &RawModule, ts: &Vec<SignatureToken>) -> (r:
        Result<Vec<Type>, PackageAnalyzerError>)
        requires
            ids.wf(),
            raw.wf(),
            self.wf(),
            pkg < self.packages@.len(),
            crate::file_format::tokens_wf(ts@, raw.struct_handles@.len()),
        ensures
            r is Ok <==> self.context(ids@).tokens_resolvable(pkg as int, *raw, ts@),
            r is Ok ==> self.context(ids@).tokens_resolve_to(pkg as int, *raw, ts@, r->Ok_0@),
            r is Ok ==> types_valid(r->Ok_0@, self.struct_count as nat),
            r is Err ==> r->Err_0 is UnresolvedSymbol || r->Err_0 is UnsupportedConstruct,
            r is Err ==> self.context(ids@).tokens_error(pkg as int, *raw, ts@, r->Err_0),
    {
        let ghost ctx = self.context(ids@);
        let mut types: Vec<Type> = Vec::new();
        let mut k: usize = 0;
        while k < ts.len()
            invariant
                ids.wf(),
                raw.wf(),
                self.wf(),
                pkg < self.packages@.len(),
                ctx == self.context(ids@),
                crate::file_format::tokens_wf(ts@, raw.struct_handles@.len()),
                k <= ts@.len(),
                types@.len() == k,
                forall|j: int| 0 <= j < k ==> ctx.token_resolvable(pkg as int, *raw, #[trigger] ts@[j]),
                forall|j: int|
                    0 <= j < k ==> ctx.token_resolves_to(pkg as int, *raw, #[trigger] ts@[j], types@[j]),
                types_valid(types@, self.struct_count as nat),
            decreases ts@.len() - k,
        {
            match self.make_type(ids, pkg, raw, &ts[k]) {
                Ok(t) => {
                    types.push(t);
                },
                Err(e) => {
                    proof {
                        assert(ctx.token_error(pkg as int, *raw, ts@[k as int], e));
                    }
                    return Err(e);
                },
            }
            k += 1;
        }
        Ok(types)
    }
}


impl TypeBuilder {
    pub open spec fn resolution(
        &self,
        ids: Seq<Seq<char>>,
        function_map: Map<EntityKey, FunctionIndex>,
    ) -> ResolutionContext {
        ResolutionContext { types: self.context(ids), function_map }
    }

    /// The global function that function handle `h` of `raw` means; or the
    /// canonical key that names no function.
    pub fn get_function_idx(
        &self,
        ids: &IdentifierMap,
        function_map: &BTreeMap<EntityKey, FunctionIndex>,
        pkg: usize,
        raw: &RawModule,
        h: usize,
    ) -> (r: Result<FunctionIndex, PackageAnalyzerError>)
        requires
            ids.wf(),
            raw.wf(),
            pkg < self.packages@.len(),
            h < raw.function_handles@.len(),
        ensures
            ({
                let ctx = self.resolution(ids@, function_map@);
                let mh = raw.function_handles@[h as int].module as int;
                match ctx.resolve_function_handle(pkg as int, *raw, h as int) {
                    Some(i) => r == Ok::<FunctionIndex, PackageAnalyzerError>(i),
                    None => r is Err && is_unresolved(
                        r->Err_0,
                        ctx.function_handle_home(pkg as int, *raw, h as int),
                        raw.handle_module_name(mh),
                        raw.function_handle_name(h as int),
                    ),
                }
            }),
    {
        let handle = &raw.function_handles[h];
        let mh = &raw.module_handles[handle.module];
        let module_name = &raw.identifiers[mh.name];
        let function_name = &raw.identifiers[handle.name];
        let handle_address = raw.address_identifiers[mh.address];
        let self_handle = &raw.module_handles[raw.self_module_handle_idx];
        let self_address = raw.address_identifiers[self_handle.address];
        let package = &self.packages[pkg];
        // A call inside the package is never relocated: it means the sibling
        // module of this very version.
        let home = if handle_address == self_address {
            package.id
        } else {
            link_address(package, handle_address)
        };
        match find_in_map(ids, function_map, home, module_name, function_name) {
            Some(i) => Ok(i),
            None => Err(unresolved(home, module_name, function_name)),
        }
    }

    /// The global struct that struct definition `d` of `raw` means.
    pub fn get_struct_def_idx(&self, ids: &IdentifierMap, pkg: usize, raw: &RawModule, d: usize) -> (r:
        Result<StructIndex, PackageAnalyzerError>)
        requires
            ids.wf(),
            raw.wf(),
            self.wf(),
            pkg < self.packages@.len(),
            d < raw.struct_defs@.len(),
        ensures
            forall|fm: Map<EntityKey, FunctionIndex>|
                #![trigger self.resolution(ids@, fm)]
                match self.resolution(ids@, fm).resolve_struct_def(pkg as int, *raw, d as int) {
                    Some(i) => r == Ok::<StructIndex, PackageAnalyzerError>(i),
                    None => r is Err,
                },
            r is Ok ==> r->Ok_0 < self.struct_count,
            r is Err ==> r->Err_0 is UnresolvedSymbol || r->Err_0 is UnsupportedConstruct,
            r is Err ==> self.context(ids@).handle_error(
                pkg as int,
                *raw,
                raw.struct_defs@[d as int].struct_handle as int,
                r->Err_0,
            ),
    {
        let h = raw.struct_defs[d].struct_handle;
        proof {
            assert(raw.struct_def_wf(raw.struct_defs@[d as int]));
        }
        let r = self.get_struct_idx(ids, pkg, raw, h);
        proof {
            if r is Ok {
                let ctx = self.context(ids@);
                let mh = raw.struct_handles@[h as int].module as int;
                let home = ctx.struct_handle_home(pkg as int, *raw, h as int);
                let k = entity_key(
                    home,
                    index_in(ids@, raw.handle_module_name(mh)),
                    index_in(ids@, raw.struct_handle_name(h as int)),
                );
                assert(self.struct_map@.contains_key(k));
            }
        }
        r
    }

    /// The types of signature `sig` of `raw`.
    fn sig_types(&self, ids: &IdentifierMap, pkg: usize, raw: &RawModule, sig: usize) -> (r: Result<
        Vec<Type>,
        PackageAnalyzerError,
    >)
        requires
            ids.wf(),
            raw.wf(),
            self.wf(),
            pkg < self.packages@.len(),
            sig < raw.signatures@.len(),
        ensures
            forall|fm: Map<EntityKey, FunctionIndex>|
                #![trigger self.resolution(ids@, fm)]
                {
                    let ctx = self.resolution(ids@, fm);
                    &&& (r is Ok <==> ctx.sig_resolvable(pkg as int, *raw, sig as int))
                    &&& (r is Ok ==> ctx.sig_resolves_to(pkg as int, *raw, sig as int, r->Ok_0@))
                },
            r is Ok ==> types_valid(r->Ok_0@, self.struct_count as nat),
            r is Err ==> r->Err_0 is UnresolvedSymbol || r->Err_0 is UnsupportedConstruct,
            r is Err ==> self.context(ids@).tokens_error(pkg as int, *raw, raw.signatures@[sig as int]@, r->Err_0),
    {
        proof {
            assert(crate::file_format::tokens_wf(raw.signatures@[sig as int]@, raw.struct_handles@.len()));
        }
        self.make_types(ids, pkg, raw, &raw.signatures[sig])
    }

    /// The element type of a vector instruction, from signature `sig` of `raw`.
    fn elem_type(&self, ids: &IdentifierMap, pkg: usize, raw: &RawModule, sig: usize) -> (r: Result<
        Type,
        PackageAnalyzerError,
    >)
        requires
            ids.wf(),
            raw.wf(),
            self.wf(),
            pkg < self.packages@.len(),
            raw.single_type_sig(sig),
        ensures
            forall|fm: Map<EntityKey, FunctionIndex>|
                #![trigger self.resolution(ids@, fm)]
                {
                    let ctx = self.resolution(ids@, fm);
                    &&& (r is Ok <==> ctx.elem_resolvable(pkg as int, *raw, sig as int))
                    &&& (r is Ok ==> ctx.elem_resolves_to(pkg as int, *raw, sig as int, r->Ok_0))
                },
            r is Ok ==> type_valid(r->Ok_0, self.struct_count as nat),
            r is Err ==> r->Err_0 is UnresolvedSymbol || r->Err_0 is UnsupportedConstruct,
            r is Err ==> self.context(ids@).token_error(pkg as int, *raw, raw.signatures@[sig as int]@[0], r->Err_0),
    {
        proof {
            assert(crate::file_format::tokens_wf(raw.signatures@[sig as int]@, raw.struct_handles@.len()));
            assert(crate::file_format::token_wf(raw.signatures@[sig as int]@[0], raw.struct_handles@.len()));
        }
        self.make_type(ids, pkg, raw, &raw.signatures[sig][0])
    }
}


/// The error for an instruction on global storage.
fn unsupported_global(location: Location) -> (e: PackageAnalyzerError)
    ensures
        e is UnsupportedConstruct,
        e->UnsupportedConstruct_0 == Unsupported::GlobalStorageInstruction,
{
    PackageAnalyzerError::UnsupportedConstruct(Unsupported::GlobalStorageInstruction, location)
}

impl TypeBuilder {
    /// Resolves one instruction of `raw`, a module of package `pkg`.
    pub fn resolve_bytecode(
        &self,
        ids: &IdentifierMap,
        function_map: &BTreeMap<EntityKey, FunctionIndex>,
        function_count: usize,
        pkg: usize,
        raw: &RawModule,
        rb: &MoveBytecode,
    ) -> (r: Result<Bytecode, PackageAnalyzerError>)
        requires
            ids.wf(),
            raw.wf(),
            self.wf(),
            values_below(function_map@, function_count as nat),
            pkg < self.packages@.len(),
            raw.bytecode_wf(*rb),
        ensures
            r is Ok <==> self.resolution(ids@, function_map@).bytecode_resolvable(pkg as int, *raw, *rb),
            r is Ok ==> self.resolution(ids@, function_map@).bytecode_resolves_to(
                pkg as int,
                *raw,
                *rb,
                r->Ok_0,
            ),
            r is Ok ==> bytecode_valid(r->Ok_0, self.struct_count as nat, function_count as nat),
            r is Err ==> r->Err_0 is UnresolvedSymbol || r->Err_0 is UnsupportedConstruct,
            r is Err ==> self.resolution(ids@, function_map@).bytecode_error(pkg as int, *raw, *rb, r->Err_0),
    {
        let ghost ctx = self.resolution(ids@, function_map@);
        match rb {
            MoveBytecode::Nop => Ok(Bytecode::Nop),
            MoveBytecode::Pop => Ok(Bytecode::Pop),
            MoveBytecode::Ret => Ok(Bytecode::Ret),
            MoveBytecode::LdTrue => Ok(Bytecode::LdTrue),
            MoveBytecode::LdFalse => Ok(Bytecode::LdFalse),
            MoveBytecode::CastU8 => Ok(Bytecode::CastU8),
            MoveBytecode::CastU16 => Ok(Bytecode::CastU16),
            MoveBytecode::CastU32 => Ok(Bytecode::CastU32),
            MoveBytecode::CastU64 => Ok(Bytecode::CastU64),
            MoveBytecode::CastU128 => Ok(Bytecode::CastU128),
            MoveBytecode::CastU256 => Ok(Bytecode::CastU256),
            MoveBytecode::Add => Ok(Bytecode::Add),
            MoveBytecode::Sub => Ok(Bytecode::Sub),
            MoveBytecode::Mul => Ok(Bytecode::Mul),
            MoveBytecode::Mod => Ok(Bytecode::Mod),
            MoveBytecode::Div => Ok(Bytecode::Div),
            MoveBytecode::BitOr => Ok(Bytecode::BitOr),
            MoveBytecode::BitAnd => Ok(Bytecode::BitAnd),
            MoveBytecode::Xor => Ok(Bytecode::Xor),
            MoveBytecode::Or => Ok(Bytecode::Or),
            MoveBytecode::And => Ok(Bytecode::And),
            MoveBytecode::Not => Ok(Bytecode::Not),
            MoveBytecode::Eq => Ok(Bytecode::Eq),
            MoveBytecode::Neq => Ok(Bytecode::Neq),
            MoveBytecode::Lt => Ok(Bytecode::Lt),
            MoveBytecode::Gt => Ok(Bytecode::Gt),
            MoveBytecode::Le => Ok(Bytecode::Le),
            MoveBytecode::Ge => Ok(Bytecode::Ge),
            MoveBytecode::Shl => Ok(Bytecode::Shl),
            MoveBytecode::Shr => Ok(Bytecode::Shr),
            MoveBytecode::Abort => Ok(Bytecode::Abort),
            MoveBytecode::ReadRef => Ok(Bytecode::ReadRef),
            MoveBytecode::WriteRef => Ok(Bytecode::WriteRef),
            MoveBytecode::FreezeRef => Ok(Bytecode::FreezeRef),
            MoveBytecode::BrTrue(v) => Ok(Bytecode::BrTrue(*v)),
            MoveBytecode::BrFalse(v) => Ok(Bytecode::BrFalse(*v)),
            MoveBytecode::Branch(v) => Ok(Bytecode::Branch(*v)),
            MoveBytecode::LdConst(v) => Ok(Bytecode::LdConst(*v)),
            MoveBytecode::LdU8(v) => Ok(Bytecode::LdU8(*v)),
            MoveBytecode::LdU16(v) => Ok(Bytecode::LdU16(*v)),
            MoveBytecode::LdU32(v) => Ok(Bytecode::LdU32(*v)),
            MoveBytecode::LdU64(v) => Ok(Bytecode::LdU64(*v)),
            MoveBytecode::LdU128(v) => Ok(Bytecode::LdU128(*v)),
            MoveBytecode::LdU256(v) => Ok(Bytecode::LdU256(*v)),
            MoveBytecode::CopyLoc(v) => Ok(Bytecode::CopyLoc(*v)),
            MoveBytecode::MoveLoc(v) => Ok(Bytecode::MoveLoc(*v)),
            MoveBytecode::StLoc(v) => Ok(Bytecode::StLoc(*v)),
            MoveBytecode::MutBorrowLoc(v) => Ok(Bytecode::MutBorrowLoc(*v)),
            MoveBytecode::ImmBorrowLoc(v) => Ok(Bytecode::ImmBorrowLoc(*v)),
            MoveBytecode::Call(h) => {
                let f = self.get_function_idx(ids, function_map, pkg, raw, *h)?;
                proof {
                    lemma_found_below(ids@, function_map@, function_count as nat, ctx.function_handle_home(pkg as int, *raw, *h as int), raw.handle_module_name(raw.function_handles@[*h as int].module as int), raw.function_handle_name(*h as int));
                }
                Ok(Bytecode::Call(f))
            },
            MoveBytecode::CallGeneric(i) => {
                let inst = &raw.function_instantiations[*i];
                let f = self.get_function_idx(ids, function_map, pkg, raw, inst.handle)?;
                proof {
                    lemma_found_below(ids@, function_map@, function_count as nat, ctx.function_handle_home(pkg as int, *raw, inst.handle as int), raw.handle_module_name(raw.function_handles@[inst.handle as int].module as int), raw.function_handle_name(inst.handle as int));
                }
                let ts = self.sig_types(ids, pkg, raw, inst.type_parameters)?;
                Ok(Bytecode::CallGeneric(f, ts))
            },
            MoveBytecode::Pack(d) => {
                let s = self.get_struct_def_idx(ids, pkg, raw, *d)?;
                Ok(Bytecode::Pack(s))
            },
            MoveBytecode::Unpack(d) => {
                let s = self.get_struct_def_idx(ids, pkg, raw, *d)?;
                Ok(Bytecode::Unpack(s))
            },
            MoveBytecode::PackGeneric(i) => {
                let inst = &raw.struct_def_instantiations[*i];
                let s = self.get_struct_def_idx(ids, pkg, raw, inst.def)?;
                let ts = self.sig_types(ids, pkg, raw, inst.type_parameters)?;
                Ok(Bytecode::PackGeneric(s, ts))
            },
            MoveBytecode::UnpackGeneric(i) => {
                let inst = &raw.struct_def_instantiations[*i];
                let s = self.get_struct_def_idx(ids, pkg, raw, inst.def)?;
                let ts = self.sig_types(ids, pkg, raw, inst.type_parameters)?;
                Ok(Bytecode::UnpackGeneric(s, ts))
            },
            MoveBytecode::MutBorrowField(f) => {
                let fh = &raw.field_handles[*f];
                let s = self.get_struct_def_idx(ids, pkg, raw, fh.owner)?;
                Ok(Bytecode::MutBorrowField(FieldRef { struct_idx: s, field_idx: fh.field }))
            },
            MoveBytecode::ImmBorrowField(f) => {
                let fh = &raw.field_handles[*f];
                let s = self.get_struct_def_idx(ids, pkg, raw, fh.owner)?;
                Ok(Bytecode::ImmBorrowField(FieldRef { struct_idx: s, field_idx: fh.field }))
            },
            MoveBytecode::MutBorrowFieldGeneric(i) => {
                let inst = &raw.field_instantiations[*i];
                let fh = &raw.field_handles[inst.handle];
                let s = self.get_struct_def_idx(ids, pkg, raw, fh.owner)?;
                let ts = self.sig_types(ids, pkg, raw, inst.type_parameters)?;
                Ok(
                    Bytecode::MutBorrowFieldGeneric(
                        FieldRef { struct_idx: s, field_idx: fh.field },
                        ts,
                    ),
                )
            },
            MoveBytecode::ImmBorrowFieldGeneric(i) => {
                let inst = &raw.field_instantiations[*i];
                let fh = &raw.field_handles[inst.handle];
                let s = self.get_struct_def_idx(ids, pkg, raw, fh.owner)?;
                let ts = self.sig_types(ids, pkg, raw, inst.type_parameters)?;
                Ok(
                    Bytecode::ImmBorrowFieldGeneric(
                        FieldRef { struct_idx: s, field_idx: fh.field },
                        ts,
                    ),
                )
            },
            MoveBytecode::VecPack(sig, n) => {
                let t = self.elem_type(ids, pkg, raw, *sig)?;
                Ok(Bytecode::VecPack(t, *n))
            },
            MoveBytecode::VecUnpack(sig, n) => {
                let t = self.elem_type(ids, pkg, raw, *sig)?;
                Ok(Bytecode::VecUnpack(t, *n))
            },
            MoveBytecode::VecLen(sig) => {
                let t = self.elem_type(ids, pkg, raw, *sig)?;
                Ok(Bytecode::VecLen(t))
            },
            MoveBytecode::VecImmBorrow(sig) => {
                let t = self.elem_type(ids, pkg, raw, *sig)?;
                Ok(Bytecode::VecImmBorrow(t))
            },
            MoveBytecode::VecMutBorrow(sig) => {
                let t = self.elem_type(ids, pkg, raw, *sig)?;
                Ok(Bytecode::VecMutBorrow(t))
            },
            MoveBytecode::VecPushBack(sig) => {
                let t = self.elem_type(ids, pkg, raw, *sig)?;
                Ok(Bytecode::VecPushBack(t))
            },
            MoveBytecode::VecPopBack(sig) => {
                let t = self.elem_type(ids, pkg, raw, *sig)?;
                Ok(Bytecode::VecPopBack(t))
            },
            MoveBytecode::VecSwap(sig) => {
                let t = self.elem_type(ids, pkg, raw, *sig)?;
                Ok(Bytecode::VecSwap(t))
            },
            MoveBytecode::MutBorrowGlobal(_) => Err(unsupported_global(self.location(pkg, raw))),
            MoveBytecode::ImmBorrowGlobal(_) => Err(unsupported_global(self.location(pkg, raw))),
            MoveBytecode::Exists(_) => Err(unsupported_global(self.location(pkg, raw))),
            MoveBytecode::MoveFrom(_) => Err(unsupported_global(self.location(pkg, raw))),
            MoveBytecode::MoveTo(_) => Err(unsupported_global(self.location(pkg, raw))),
            MoveBytecode::MutBorrowGlobalGeneric(_) => Err(unsupported_global(self.location(pkg, raw))),
            MoveBytecode::ImmBorrowGlobalGeneric(_) => Err(unsupported_global(self.location(pkg, raw))),
            MoveBytecode::ExistsGeneric(_) => Err(unsupported_global(self.location(pkg, raw))),
            MoveBytecode::MoveFromGeneric(_) => Err(unsupported_global(self.location(pkg, raw))),
            MoveBytecode::MoveToGeneric(_) => Err(unsupported_global(self.location(pkg, raw))),
        }
    }
}

/// A value found in a canonical map lies below any bound of the map's values.
pub proof fn lemma_found_below(
    ids: Seq<Seq<char>>,
    map: Map<EntityKey, usize>,
    n: nat,
    a: Address,
    module: Seq<char>,
    name: Seq<char>,
)
    requires
        values_below(map, n),
    ensures
        find_entity(ids, map, a, module, name) matches Some(v) ==> (v as nat) < n,
{
    if ids.contains(module) && ids.contains(name) {
        let k = entity_key(a, index_in(ids, module), index_in(ids, name));
        if map.contains_key(k) {
            assert((map[k] as nat) < n);
        }
    }
}

} // verus!
