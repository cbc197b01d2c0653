//! The entities of the environment. Every cross reference is a global index
//! into one of the environment's pools.
use crate::file_format::{
    AbilitySet, Address, LinkageEntry, StructTypeParameter, TypeOrigin, U256, Visibility,
};
use crate::identifiers::IdentifierIndex;
use vstd::prelude::*;

verus! {

pub type PackageIndex = usize;

pub type ModuleIndex = usize;

pub type StructIndex = usize;

pub type FunctionIndex = usize;

/// A package version, with the tables that resolution reads.
#[derive(Debug)]
pub struct Package {
    pub self_idx: PackageIndex,
    /// The address of this version.
    pub id: Address,
    pub version: u64,
    pub type_origin: Vec<TypeOrigin>,
    pub linkage: Vec<LinkageEntry>,
    /// The modules of this package, as indices in the module pool.
    pub modules: Vec<ModuleIndex>,
}

/// A module as named in the binary format: an address and a name.
#[derive(Debug, Clone, PartialEq, Eq)]
pub struct ModuleId {
    pub address: Address,
    pub name: String,
}

#[derive(Debug)]
pub struct Module {
    pub self_idx: ModuleIndex,
    pub package: PackageIndex,
    pub name: IdentifierIndex,
    pub module_id: ModuleId,
    /// The other modules that functions of this module call, in order of first call.
    pub dependencies: Vec<ModuleIndex>,
    pub structs: Vec<StructIndex>,
    pub functions: Vec<FunctionIndex>,
    pub constants: Vec<Constant>,
}

#[derive(Debug)]
pub struct Struct {
    pub self_idx: StructIndex,
    pub package: PackageIndex,
    pub module: ModuleIndex,
    pub name: IdentifierIndex,
    /// Position of the definition in its module.
    pub def_idx: usize,
    pub abilities: AbilitySet,
    pub type_parameters: Vec<StructTypeParameter>,
    pub fields: Vec<Field>,
}

#[derive(Debug)]
pub struct Constant {
    pub type_: Type,
    /// Position of the raw value in the module's constant pool.
    pub constant: usize,
}

#[derive(Debug)]
pub struct Field {
    pub name: IdentifierIndex,
    pub type_: Type,
}

/// A field of a struct: the struct's global index and the field's position.
#[derive(Debug, Clone, Copy, PartialEq, Eq, Structural, PartialOrd, Ord)]
pub struct FieldRef {
    pub struct_idx: StructIndex,
    pub field_idx: u16,
}

/// A resolved type.
#[derive(Debug, PartialEq, Eq, PartialOrd, Ord, Hash)]
pub enum Type {
    Bool,
    U8,
    U16,
    U32,
    U64,
    U128,
    U256,
    Address,
    Vector(Box<Type>),
    Struct(StructIndex),
    StructInstantiation(StructIndex, Vec<Type>),
    Reference(Box<Type>),
    MutableReference(Box<Type>),
    TypeParameter(u16),
}

#[derive(Debug)]
pub struct Function {
    pub self_idx: FunctionIndex,
    pub package: PackageIndex,
    pub module: ModuleIndex,
    pub name: IdentifierIndex,
    /// Position of the definition in its module.
    pub def_idx: usize,
    pub type_parameters: Vec<AbilitySet>,
    pub parameters: Vec<Type>,
    pub returns: Vec<Type>,
    pub visibility: Visibility,
    pub is_entry: bool,
    /// `None` for a native function.
    pub code: Option<Code>,
}

#[derive(Debug)]
pub struct Code {
    pub locals: Vec<Type>,
    pub code: Vec<Bytecode>,
}

/// A resolved instruction: calls, struct operations and field borrows carry
/// global indices, vector operations their element type.
#[derive(Debug, PartialEq, Eq, PartialOrd, Ord)]
pub enum Bytecode {
    Nop,
    Pop,
    Ret,
    BrTrue(u16),
    BrFalse(u16),
    Branch(u16),
    LdConst(u16),
    LdTrue,
    LdFalse,
    LdU8(u8),
    LdU16(u16),
    LdU32(u32),
    LdU64(u64),
    LdU128(u128),
    LdU256(U256),
    CastU8,
    CastU16,
    CastU32,
    CastU64,
    CastU128,
    CastU256,
    Add,
    Sub,
    Mul,
    Mod,
    Div,
    BitOr,
    BitAnd,
    Xor,
    Or,
    And,
    Not,
    Eq,
    Neq,
    Lt,
    Gt,
    Le,
    Ge,
    Shl,
    Shr,
    Abort,
    CopyLoc(u8),
    MoveLoc(u8),
    StLoc(u8),
    Call(FunctionIndex),
    CallGeneric(FunctionIndex, Vec<Type>),
    Pack(StructIndex),
    PackGeneric(StructIndex, Vec<Type>),
    Unpack(StructIndex),
    UnpackGeneric(StructIndex, Vec<Type>),
    MutBorrowLoc(u8),
    ImmBorrowLoc(u8),
    MutBorrowField(FieldRef),
    MutBorrowFieldGeneric(FieldRef, Vec<Type>),
    ImmBorrowField(FieldRef),
    ImmBorrowFieldGeneric(FieldRef, Vec<Type>),
    ReadRef,
    WriteRef,
    FreezeRef,
    VecPack(Type, u64),
    VecLen(Type),
    VecImmBorrow(Type),
    VecMutBorrow(Type),
    VecPushBack(Type),
    VecPopBack(Type),
    VecUnpack(Type, u64),
    VecSwap(Type),
}

/// Every struct index in `t` is below `n_structs`.
pub open spec fn type_valid(t: Type, n_structs: nat) -> bool
    decreases t,
{
    match t {
        Type::Vector(b) => type_valid(*b, n_structs),
        Type::Reference(b) => type_valid(*b, n_structs),
        Type::MutableReference(b) => type_valid(*b, n_structs),
        Type::Struct(i) => i < n_structs,
        Type::StructInstantiation(i, args) => i < n_structs && forall|k: int|
            0 <= k < args.len() ==> type_valid(#[trigger] args@[k], n_structs),
        _ => true,
    }
}

pub open spec fn types_valid(ts: Seq<Type>, n_structs: nat) -> bool {
    forall|k: int| 0 <= k < ts.len() ==> type_valid(#[trigger] ts[k], n_structs)
}

/// Every struct and function index in `b` is within its pool.
pub open spec fn bytecode_valid(b: Bytecode, n_structs: nat, n_functions: nat) -> bool {
    match b {
        Bytecode::Call(f) => f < n_functions,
        Bytecode::CallGeneric(f, ts) => f < n_functions && types_valid(ts@, n_structs),
        Bytecode::Pack(s) => s < n_structs,
        Bytecode::Unpack(s) => s < n_structs,
        Bytecode::PackGeneric(s, ts) => s < n_structs && types_valid(ts@, n_structs),
        Bytecode::UnpackGeneric(s, ts) => s < n_structs && types_valid(ts@, n_structs),
        Bytecode::MutBorrowField(f) => f.struct_idx < n_structs,
        Bytecode::ImmBorrowField(f) => f.struct_idx < n_structs,
        Bytecode::MutBorrowFieldGeneric(f, ts) => f.struct_idx < n_structs && types_valid(
            ts@,
            n_structs,
        ),
        Bytecode::ImmBorrowFieldGeneric(f, ts) => f.struct_idx < n_structs && types_valid(
            ts@,
            n_structs,
        ),
        Bytecode::VecPack(t, _) => type_valid(t, n_structs),
        Bytecode::VecLen(t) => type_valid(t, n_structs),
        Bytecode::VecImmBorrow(t) => type_valid(t, n_structs),
        Bytecode::VecMutBorrow(t) => type_valid(t, n_structs),
        Bytecode::VecPushBack(t) => type_valid(t, n_structs),
        Bytecode::VecPopBack(t) => type_valid(t, n_structs),
        Bytecode::VecUnpack(t, _) => type_valid(t, n_structs),
        Bytecode::VecSwap(t) => type_valid(t, n_structs),
        _ => true,
    }
}

} // verus!
