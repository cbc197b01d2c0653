//! The input of a build: packages and the tables of their binary modules, as
//! plain values. Table indices are positions in the module's own tables.
use vstd::prelude::*;

verus! {

/// A 32-byte account or package address, as two 128-bit halves.
#[derive(Debug, Clone, Copy, PartialEq, Eq, Structural, PartialOrd, Ord, Hash)]
pub struct Address {
    pub hi: u128,
    pub lo: u128,
}

impl Address {
    /// The address whose upper half is zero and whose lower half is `lo`.
    pub fn from_u128(lo: u128) -> (r: Address)
        ensures
            r.hi == 0,
            r.lo == lo,
    {
        Address { hi: 0, lo }
    }

    pub open spec fn key(self) -> (u128, u128) {
        (self.hi, self.lo)
    }

    pub fn to_key(&self) -> (r: (u128, u128))
        ensures
            r == self.key(),
    {
        (self.hi, self.lo)
    }
}

/// An unsigned 256-bit constant, as two 128-bit halves.
#[derive(Debug, Clone, Copy, PartialEq, Eq, Structural, PartialOrd, Ord, Hash)]
pub struct U256 {
    pub hi: u128,
    pub lo: u128,
}

/// The abilities of a type: what values of it may do.
#[derive(Debug, Clone, Copy, PartialEq, Eq, Structural, PartialOrd, Ord, Hash)]
pub struct AbilitySet {
    pub copy: bool,
    pub drop: bool,
    pub store: bool,
    pub key: bool,
}

impl AbilitySet {
    /// The set with no ability.
    pub fn empty() -> (r: AbilitySet)
        ensures
            !r.copy && !r.drop && !r.store && !r.key,
    {
        AbilitySet { copy: false, drop: false, store: false, key: false }
    }

    pub fn is_empty(&self) -> (r: bool)
        ensures
            r == (!self.copy && !self.drop && !self.store && !self.key),
    {
        !self.copy && !self.drop && !self.store && !self.key
    }
}

/// A type parameter of a struct: its constraints and whether it is phantom.
#[derive(Debug, Clone, Copy, PartialEq, Eq, Structural)]
pub struct StructTypeParameter {
    pub constraints: AbilitySet,
    pub is_phantom: bool,
}

/// Who may call a function.
#[derive(Debug, Clone, Copy, PartialEq, Eq, Structural, PartialOrd, Ord, Hash)]
pub enum Visibility {
    Private,
    Public,
    Friend,
}

/// A type as written in a module, with struct references by struct-handle index.
#[derive(Debug, PartialEq, Eq)]
pub enum SignatureToken {
    Bool,
    U8,
    U16,
    U32,
    U64,
    U128,
    U256,
    Address,
    Signer,
    Vector(Box<SignatureToken>),
    Struct(usize),
    StructInstantiation(usize, Vec<SignatureToken>),
    Reference(Box<SignatureToken>),
    MutableReference(Box<SignatureToken>),
    TypeParameter(u16),
}

/// A module as the binary format refers to it: an address and a name.
#[derive(Debug, Clone, Copy, PartialEq, Eq, Structural)]
pub struct ModuleHandle {
    /// Index into `address_identifiers`.
    pub address: usize,
    /// Index into `identifiers`.
    pub name: usize,
}

/// A struct used by a module, defined in it or in another one.
#[derive(Debug, Clone)]
pub struct StructHandle {
    /// Index into `module_handles`.
    pub module: usize,
    /// Index into `identifiers`.
    pub name: usize,
    pub abilities: AbilitySet,
    pub type_parameters: Vec<StructTypeParameter>,
}

/// A function used by a module, defined in it or in another one.
#[derive(Debug, Clone)]
pub struct FunctionHandle {
    /// Index into `module_handles`.
    pub module: usize,
    /// Index into `identifiers`.
    pub name: usize,
    /// Index into `signatures`.
    pub parameters: usize,
    /// Index into `signatures`.
    pub return_: usize,
    pub type_parameters: Vec<AbilitySet>,
}

/// A field of a struct defined in the module, by position.
#[derive(Debug, Clone, Copy, PartialEq, Eq, Structural)]
pub struct FieldHandle {
    /// Index into `struct_defs`.
    pub owner: usize,
    pub field: u16,
}

/// A generic struct defined in the module, with type arguments.
#[derive(Debug, Clone, Copy, PartialEq, Eq, Structural)]
pub struct StructDefInstantiation {
    /// Index into `struct_defs`.
    pub def: usize,
    /// Index into `signatures`.
    pub type_parameters: usize,
}

/// A generic function, with type arguments.
#[derive(Debug, Clone, Copy, PartialEq, Eq, Structural)]
pub struct FunctionInstantiation {
    /// Index into `function_handles`.
    pub handle: usize,
    /// Index into `signatures`.
    pub type_parameters: usize,
}

/// A field of a generic struct, with type arguments.
#[derive(Debug, Clone, Copy, PartialEq, Eq, Structural)]
pub struct FieldInstantiation {
    /// Index into `field_handles`.
    pub handle: usize,
    /// Index into `signatures`.
    pub type_parameters: usize,
}

/// A declared field: its name and type.
#[derive(Debug)]
pub struct FieldDefinition {
    /// Index into `identifiers`.
    pub name: usize,
    pub signature: SignatureToken,
}

/// The fields of a struct definition, or none for a native struct.
#[derive(Debug)]
pub enum StructFieldInformation {
    Native,
    Declared(Vec<FieldDefinition>),
}

/// A struct defined in the module.
#[derive(Debug)]
pub struct StructDefinition {
    /// Index into `struct_handles`.
    pub struct_handle: usize,
    pub field_information: StructFieldInformation,
}

/// The body of a function: its locals and its instructions.
#[derive(Debug, Clone)]
pub struct CodeUnit {
    /// Index into `signatures`.
    pub locals: usize,
    pub code: Vec<MoveBytecode>,
}

/// A function defined in the module; `code` is `None` for a native function.
#[derive(Debug, Clone)]
pub struct FunctionDefinition {
    /// Index into `function_handles`.
    pub function: usize,
    pub visibility: Visibility,
    pub is_entry: bool,
    pub code: Option<CodeUnit>,
}

/// A constant of the module's pool: its type and its serialised value.
#[derive(Debug)]
pub struct RawConstant {
    pub type_: SignatureToken,
    pub data: Vec<u8>,
}

/// One instruction as the binary format holds it, with module-local operands.
#[derive(Debug, Clone, PartialEq, Eq)]
pub enum MoveBytecode {
    Nop,
    Pop,
    Ret,
    BrTrue(u16),
    BrFalse(u16),
    Branch(u16),
    LdConst(u16),
    LdTrue,
    LdFalse,
    LdU8(u8),
    LdU16(u16),
    LdU32(u32),
    LdU64(u64),
    LdU128(u128),
    LdU256(U256),
    CastU8,
    CastU16,
    CastU32,
    CastU64,
    CastU128,
    CastU256,
    Add,
    Sub,
    Mul,
    Mod,
    Div,
    BitOr,
    BitAnd,
    Xor,
    Or,
    And,
    Not,
    Eq,
    Neq,
    Lt,
    Gt,
    Le,
    Ge,
    Shl,
    Shr,
    Abort,
    CopyLoc(u8),
    MoveLoc(u8),
    StLoc(u8),
    /// Index into `function_handles`.
    Call(usize),
    /// Index into `function_instantiations`.
    CallGeneric(usize),
    /// Index into `struct_defs`.
    Pack(usize),
    /// Index into `struct_def_instantiations`.
    PackGeneric(usize),
    /// Index into `struct_defs`.
    Unpack(usize),
    /// Index into `struct_def_instantiations`.
    UnpackGeneric(usize),
    MutBorrowLoc(u8),
    ImmBorrowLoc(u8),
    /// Index into `field_handles`.
    MutBorrowField(usize),
    /// Index into `field_instantiations`.
    MutBorrowFieldGeneric(usize),
    /// Index into `field_handles`.
    ImmBorrowField(usize),
    /// Index into `field_instantiations`.
    ImmBorrowFieldGeneric(usize),
    ReadRef,
    WriteRef,
    FreezeRef,
    /// Index into `signatures`, and an element count.
    VecPack(usize, u64),
    VecLen(usize),
    VecImmBorrow(usize),
    VecMutBorrow(usize),
    VecPushBack(usize),
    VecPopBack(usize),
    VecUnpack(usize, u64),
    VecSwap(usize),
    /// Global storage, by index into `struct_defs`.
    MutBorrowGlobal(usize),
    ImmBorrowGlobal(usize),
    Exists(usize),
    MoveFrom(usize),
    MoveTo(usize),
    /// Global storage, by index into `struct_def_instantiations`.
    MutBorrowGlobalGeneric(usize),
    ImmBorrowGlobalGeneric(usize),
    ExistsGeneric(usize),
    MoveFromGeneric(usize),
    MoveToGeneric(usize),
}

/// The tables of one binary module.
#[derive(Debug)]
pub struct RawModule {
    /// Index into `module_handles` of the module itself.
    pub self_module_handle_idx: usize,
    pub module_handles: Vec<ModuleHandle>,
    pub struct_handles: Vec<StructHandle>,
    pub function_handles: Vec<FunctionHandle>,
    pub field_handles: Vec<FieldHandle>,
    pub struct_def_instantiations: Vec<StructDefInstantiation>,
    pub function_instantiations: Vec<FunctionInstantiation>,
    pub field_instantiations: Vec<FieldInstantiation>,
    pub signatures: Vec<Vec<SignatureToken>>,
    pub identifiers: Vec<String>,
    pub address_identifiers: Vec<Address>,
    pub constant_pool: Vec<RawConstant>,
    pub struct_defs: Vec<StructDefinition>,
    pub function_defs: Vec<FunctionDefinition>,
}

/// An entry of a type-origin table: the package where `module::name` was
/// first defined.
#[derive(Debug, Clone)]
pub struct TypeOrigin {
    pub module_name: String,
    pub struct_name: String,
    pub package: Address,
}

/// An entry of a linkage table: the dependency first published at `original`
/// is linked against its upgrade at `upgraded`.
#[derive(Debug, Clone, Copy, PartialEq, Eq, Structural)]
pub struct LinkageEntry {
    pub original: Address,
    pub upgraded: Address,
}

/// A package version as it enters a build.
#[derive(Debug)]
pub struct RawPackage {
    pub id: Address,
    pub version: u64,
    /// Modules under the name the package stores them by.
    pub modules: Vec<(String, RawModule)>,
    pub type_origin: Vec<TypeOrigin>,
    pub linkage: Vec<LinkageEntry>,
}

} // verus!

verus! {

/// Every struct-handle index in `t` is below `n_struct_handles`.
pub open spec fn token_wf(t: SignatureToken, n_struct_handles: nat) -> bool
    decreases t,
{
    match t {
        SignatureToken::Vector(b) => token_wf(*b, n_struct_handles),
        SignatureToken::Reference(b) => token_wf(*b, n_struct_handles),
        SignatureToken::MutableReference(b) => token_wf(*b, n_struct_handles),
        SignatureToken::Struct(i) => i < n_struct_handles,
        SignatureToken::StructInstantiation(i, args) => i < n_struct_handles && forall|k: int|
            0 <= k < args.len() ==> token_wf(#[trigger] args@[k], n_struct_handles),
        _ => true,
    }
}

/// Checks `token_wf`.
pub fn check_token(t: &SignatureToken, n_struct_handles: usize) -> (r: bool)
    ensures
        r == token_wf(*t, n_struct_handles as nat),
    decreases t,
{
    match t {
        SignatureToken::Vector(b) => check_token(b, n_struct_handles),
        SignatureToken::Reference(b) => check_token(b, n_struct_handles),
        SignatureToken::MutableReference(b) => check_token(b, n_struct_handles),
        SignatureToken::Struct(i) => *i < n_struct_handles,
        SignatureToken::StructInstantiation(i, args) => {
            if *i >= n_struct_handles {
                return false;
            }
            let mut k: usize = 0;
            while k < args.len()
                invariant
                    *t == SignatureToken::StructInstantiation(*i, *args),
                    k <= args@.len(),
                    forall|j: int| 0 <= j < k ==> token_wf(#[trigger] args@[j], n_struct_handles as nat),
                decreases args@.len() - k,
            {
                proof {
                    assert(decreases_to!(*t => (*t)->StructInstantiation_1));
                    assert(decreases_to!(*args => args@));
                    assert(decreases_to!(args@ => args@[k as int]));
                }
                if !check_token(&args[k], n_struct_handles) {
                    assert(!token_wf(args@[k as int], n_struct_handles as nat));
                    return false;
                }
                k += 1;
            }
            true
        },
        _ => true,
    }
}

/// Every token of the list is well formed.
pub open spec fn tokens_wf(ts: Seq<SignatureToken>, n_struct_handles: nat) -> bool {
    forall|k: int| 0 <= k < ts.len() ==> token_wf(#[trigger] ts[k], n_struct_handles)
}

fn check_tokens(ts: &Vec<SignatureToken>, n_struct_handles: usize) -> (r: bool)
    ensures
        r == tokens_wf(ts@, n_struct_handles as nat),
{
    let mut k: usize = 0;
    while k < ts.len()
        invariant
            k <= ts@.len(),
            forall|j: int| 0 <= j < k ==> token_wf(#[trigger] ts@[j], n_struct_handles as nat),
        decreases ts@.len() - k,
    {
        if !check_token(&ts[k], n_struct_handles) {
            return false;
        }
        k += 1;
    }
    true
}

impl RawModule {
    /// A signature index that names a list of exactly one type.
    pub open spec fn single_type_sig(&self, i: usize) -> bool {
        i < self.signatures@.len() && self.signatures@[i as int]@.len() == 1
    }

    /// Every table index that the instruction holds is within its table.
    pub open spec fn bytecode_wf(&self, b: MoveBytecode) -> bool {
        match b {
            MoveBytecode::Call(i) => i < self.function_handles@.len(),
            MoveBytecode::CallGeneric(i) => i < self.function_instantiations@.len(),
            MoveBytecode::Pack(i) => i < self.struct_defs@.len(),
            MoveBytecode::Unpack(i) => i < self.struct_defs@.len(),
            MoveBytecode::PackGeneric(i) => i < self.struct_def_instantiations@.len(),
            MoveBytecode::UnpackGeneric(i) => i < self.struct_def_instantiations@.len(),
            MoveBytecode::MutBorrowField(i) => i < self.field_handles@.len(),
            MoveBytecode::ImmBorrowField(i) => i < self.field_handles@.len(),
            MoveBytecode::MutBorrowFieldGeneric(i) => i < self.field_instantiations@.len(),
            MoveBytecode::ImmBorrowFieldGeneric(i) => i < self.field_instantiations@.len(),
            MoveBytecode::VecPack(i, _) => self.single_type_sig(i),
            MoveBytecode::VecLen(i) => self.single_type_sig(i),
            MoveBytecode::VecImmBorrow(i) => self.single_type_sig(i),
            MoveBytecode::VecMutBorrow(i) => self.single_type_sig(i),
            MoveBytecode::VecPushBack(i) => self.single_type_sig(i),
            MoveBytecode::VecPopBack(i) => self.single_type_sig(i),
            MoveBytecode::VecUnpack(i, _) => self.single_type_sig(i),
            MoveBytecode::VecSwap(i) => self.single_type_sig(i),
            _ => true,
        }
    }

    pub open spec fn handles_wf(&self) -> bool {
        let n_ids = self.identifiers@.len();
        let n_sigs = self.signatures@.len();
        &&& self.self_module_handle_idx < self.module_handles@.len()
        &&& forall|k: int|
            0 <= k < self.module_handles@.len() ==> {
                let h = #[trigger] self.module_handles@[k];
                h.address < self.address_identifiers@.len() && h.name < n_ids
            }
        &&& forall|k: int|
            0 <= k < self.struct_handles@.len() ==> {
                let h = #[trigger] self.struct_handles@[k];
                h.module < self.module_handles@.len() && h.name < n_ids
            }
        &&& forall|k: int|
            0 <= k < self.function_handles@.len() ==> {
                let h = #[trigger] self.function_handles@[k];
                h.module < self.module_handles@.len() && h.name < n_ids && h.parameters < n_sigs
                    && h.return_ < n_sigs
            }
        &&& forall|k: int|
            0 <= k < self.field_handles@.len() ==> (#[trigger] self.field_handles@[k]).owner
                < self.struct_defs@.len()
        &&& forall|k: int|
            0 <= k < self.struct_def_instantiations@.len() ==> {
                let h = #[trigger] self.struct_def_instantiations@[k];
                h.def < self.struct_defs@.len() && h.type_parameters < n_sigs
            }
        &&& forall|k: int|
            0 <= k < self.function_instantiations@.len() ==> {
                let h = #[trigger] self.function_instantiations@[k];
                h.handle < self.function_handles@.len() && h.type_parameters < n_sigs
            }
        &&& forall|k: int|
            0 <= k < self.field_instantiations@.len() ==> {
                let h = #[trigger] self.field_instantiations@[k];
                h.handle < self.field_handles@.len() && h.type_parameters < n_sigs
            }
    }

    pub open spec fn struct_def_wf(&self, d: StructDefinition) -> bool {
        &&& d.struct_handle < self.struct_handles@.len()
        &&& match d.field_information {
            StructFieldInformation::Native => true,
            StructFieldInformation::Declared(fields) => forall|j: int|
                0 <= j < fields@.len() ==> {
                    let f = #[trigger] fields@[j];
                    f.name < self.identifiers@.len() && token_wf(
                        f.signature,
                        self.struct_handles@.len(),
                    )
                },
        }
    }

    pub open spec fn function_def_wf(&self, d: FunctionDefinition) -> bool {
        &&& d.function < self.function_handles@.len()
        &&& match d.code {
            None => true,
            Some(c) => c.locals < self.signatures@.len() && forall|j: int|
                0 <= j < c.code@.len() ==> self.bytecode_wf(#[trigger] c.code@[j]),
        }
    }

    /// Every table index of the module is within its table.
    pub open spec fn wf(&self) -> bool {
        let n_sh = self.struct_handles@.len();
        &&& self.handles_wf()
        &&& forall|k: int|
            0 <= k < self.signatures@.len() ==> tokens_wf(#[trigger] self.signatures@[k]@, n_sh)
        &&& forall|k: int|
            0 <= k < self.constant_pool@.len() ==> token_wf(
                (#[trigger] self.constant_pool@[k]).type_,
                n_sh,
            )
        &&& forall|k: int|
            0 <= k < self.struct_defs@.len() ==> self.struct_def_wf(#[trigger] self.struct_defs@[k])
        &&& forall|k: int|
            0 <= k < self.function_defs@.len() ==> self.function_def_wf(
                #[trigger] self.function_defs@[k],
            )
    }

    fn check_bytecode(&self, b: &MoveBytecode) -> (r: bool)
        ensures
            r == self.bytecode_wf(*b),
    {
        let single = |i: usize| -> (r: bool)
            ensures
                r == self.single_type_sig(i),
            { i < self.signatures.len() && self.signatures[i].len() == 1 };
        match b {
            MoveBytecode::Call(i) => *i < self.function_handles.len(),
            MoveBytecode::CallGeneric(i) => *i < self.function_instantiations.len(),
            MoveBytecode::Pack(i) => *i < self.struct_defs.len(),
            MoveBytecode::Unpack(i) => *i < self.struct_defs.len(),
            MoveBytecode::PackGeneric(i) => *i < self.struct_def_instantiations.len(),
            MoveBytecode::UnpackGeneric(i) => *i < self.struct_def_instantiations.len(),
            MoveBytecode::MutBorrowField(i) => *i < self.field_handles.len(),
            MoveBytecode::ImmBorrowField(i) => *i < self.field_handles.len(),
            MoveBytecode::MutBorrowFieldGeneric(i) => *i < self.field_instantiations.len(),
            MoveBytecode::ImmBorrowFieldGeneric(i) => *i < self.field_instantiations.len(),
            MoveBytecode::VecPack(i, _) => single(*i),
            MoveBytecode::VecLen(i) => single(*i),
            MoveBytecode::VecImmBorrow(i) => single(*i),
            MoveBytecode::VecMutBorrow(i) => single(*i),
            MoveBytecode::VecPushBack(i) => single(*i),
            MoveBytecode::VecPopBack(i) => single(*i),
            MoveBytecode::VecUnpack(i, _) => single(*i),
            MoveBytecode::VecSwap(i) => single(*i),
            _ => true,
        }
    }

    fn check_handles(&self) -> (r: bool)
        ensures
            r == self.handles_wf(),
    {
        let n_ids = self.identifiers.len();
        let n_sigs = self.signatures.len();
        if self.self_module_handle_idx >= self.module_handles.len() {
            return false;
        }
        let mut k: usize = 0;
        while k < self.module_handles.len()
            invariant
                n_ids == self.identifiers@.len(),
                k <= self.module_handles@.len(),
                forall|j: int|
                    0 <= j < k ==> {
                        let h = #[trigger] self.module_handles@[j];
                        h.address < self.address_identifiers@.len() && h.name < n_ids
                    },
            decreases self.module_handles@.len() - k,
        {
            let h = &self.module_handles[k];
            if h.address >= self.address_identifiers.len() || h.name >= n_ids {
                return false;
            }
            k += 1;
        }
        let mut k: usize = 0;
        while k < self.struct_handles.len()
            invariant
                n_ids == self.identifiers@.len(),
                k <= self.struct_handles@.len(),
                forall|j: int|
                    0 <= j < k ==> {
                        let h = #[trigger] self.struct_handles@[j];
                        h.module < self.module_handles@.len() && h.name < n_ids
                    },
            decreases self.struct_handles@.len() - k,
        {
            let h = &self.struct_handles[k];
            if h.module >= self.module_handles.len() || h.name >= n_ids {
                return false;
            }
            k += 1;
        }
        let mut k: usize = 0;
        while k < self.function_handles.len()
            invariant
                n_ids == self.identifiers@.len(),
                n_sigs == self.signatures@.len(),
                k <= self.function_handles@.len(),
                forall|j: int|
                    0 <= j < k ==> {
                        let h = #[trigger] self.function_handles@[j];
                        h.module < self.module_handles@.len() && h.name < n_ids && h.parameters
                            < n_sigs && h.return_ < n_sigs
                    },
            decreases self.function_handles@.len() - k,
        {
            let h = &self.function_handles[k];
            if h.module >= self.module_handles.len() || h.name >= n_ids || h.parameters >= n_sigs
                || h.return_ >= n_sigs {
                return false;
            }
            k += 1;
        }
        let mut k: usize = 0;
        while k < self.field_handles.len()
            invariant
                k <= self.field_handles@.len(),
                forall|j: int|
                    0 <= j < k ==> (#[trigger] self.field_handles@[j]).owner
                        < self.struct_defs@.len(),
            decreases self.field_handles@.len() - k,
        {
            if self.field_handles[k].owner >= self.struct_defs.len() {
                return false;
            }
            k += 1;
        }
        let mut k: usize = 0;
        while k < self.struct_def_instantiations.len()
            invariant
                n_sigs == self.signatures@.len(),
                k <= self.struct_def_instantiations@.len(),
                forall|j: int|
                    0 <= j < k ==> {
                        let h = #[trigger] self.struct_def_instantiations@[j];
                        h.def < self.struct_defs@.len() && h.type_parameters < n_sigs
                    },
            decreases self.struct_def_instantiations@.len() - k,
        {
            let h = &self.struct_def_instantiations[k];
            if h.def >= self.struct_defs.len() || h.type_parameters >= n_sigs {
                return false;
            }
            k += 1;
        }
        let mut k: usize = 0;
        while k < self.function_instantiations.len()
            invariant
                n_sigs == self.signatures@.len(),
                k <= self.function_instantiations@.len(),
                forall|j: int|
                    0 <= j < k ==> {
                        let h = #[trigger] self.function_instantiations@[j];
                        h.handle < self.function_handles@.len() && h.type_parameters < n_sigs
                    },
            decreases self.function_instantiations@.len() - k,
        {
            let h = &self.function_instantiations[k];
            if h.handle >= self.function_handles.len() || h.type_parameters >= n_sigs {
                return false;
            }
            k += 1;
        }
        let mut k: usize = 0;
        while k < self.field_instantiations.len()
            invariant
                n_sigs == self.signatures@.len(),
                k <= self.field_instantiations@.len(),
                forall|j: int|
                    0 <= j < k ==> {
                        let h = #[trigger] self.field_instantiations@[j];
                        h.handle < self.field_handles@.len() && h.type_parameters < n_sigs
                    },
            decreases self.field_instantiations@.len() - k,
        {
            let h = &self.field_instantiations[k];
            if h.handle >= self.field_handles.len() || h.type_parameters >= n_sigs {
                return false;
            }
            k += 1;
        }
        true
    }

    fn check_struct_def(&self, d: &StructDefinition) -> (r: bool)
        ensures
            r == self.struct_def_wf(*d),
    {
        if d.struct_handle >= self.struct_handles.len() {
            return false;
        }
        match &d.field_information {
            StructFieldInformation::Native => true,
            StructFieldInformation::Declared(fields) => {
                let mut j: usize = 0;
                while j < fields.len()
                    invariant
                        d.struct_handle < self.struct_handles@.len(),
                        d.field_information == StructFieldInformation::Declared(*fields),
                        j <= fields@.len(),
                        forall|i: int|
                            0 <= i < j ==> {
                                let f = #[trigger] fields@[i];
                                f.name < self.identifiers@.len() && token_wf(
                                    f.signature,
                                    self.struct_handles@.len(),
                                )
                            },
                    decreases fields@.len() - j,
                {
                    let f = &fields[j];
                    if f.name >= self.identifiers.len() || !check_token(
                        &f.signature,
                        self.struct_handles.len(),
                    ) {
                        return false;
                    }
                    j += 1;
                }
                true
            },
        }
    }

    fn check_function_def(&self, d: &FunctionDefinition) -> (r: bool)
        ensures
            r == self.function_def_wf(*d),
    {
        if d.function >= self.function_handles.len() {
            return false;
        }
        match &d.code {
            None => true,
            Some(c) => {
                if c.locals >= self.signatures.len() {
                    return false;
                }
                let mut j: usize = 0;
                while j < c.code.len()
                    invariant
                        d.function < self.function_handles@.len(),
                        c.locals < self.signatures@.len(),
                        d.code == Some(*c),
                        j <= c.code@.len(),
                        forall|i: int| 0 <= i < j ==> self.bytecode_wf(#[trigger] c.code@[i]),
                    decreases c.code@.len() - j,
                {
                    if !self.check_bytecode(&c.code[j]) {
                        return false;
                    }
                    j += 1;
                }
                true
            },
        }
    }

    /// Checks that every table index of the module is within its table.
    pub fn is_well_formed(&self) -> (r: bool)
        ensures
            r == self.wf(),
    {
        if !self.check_handles() {
            return false;
        }
        let n_sh = self.struct_handles.len();
        let mut k: usize = 0;
        while k < self.signatures.len()
            invariant
                n_sh == self.struct_handles@.len(),
                k <= self.signatures@.len(),
                forall|j: int| 0 <= j < k ==> tokens_wf(#[trigger] self.signatures@[j]@, n_sh as nat),
            decreases self.signatures@.len() - k,
        {
            if !check_tokens(&self.signatures[k], n_sh) {
                return false;
            }
            k += 1;
        }
        let mut k: usize = 0;
        while k < self.constant_pool.len()
            invariant
                n_sh == self.struct_handles@.len(),
                k <= self.constant_pool@.len(),
                forall|j: int|
                    0 <= j < k ==> token_wf((#[trigger] self.constant_pool@[j]).type_, n_sh as nat),
            decreases self.constant_pool@.len() - k,
        {
            if !check_token(&self.constant_pool[k].type_, n_sh) {
                return false;
            }
            k += 1;
        }
        let mut k: usize = 0;
        while k < self.struct_defs.len()
            invariant
                k <= self.struct_defs@.len(),
                forall|j: int| 0 <= j < k ==> self.struct_def_wf(#[trigger] self.struct_defs@[j]),
            decreases self.struct_defs@.len() - k,
        {
            if !self.check_struct_def(&self.struct_defs[k]) {
                return false;
            }
            k += 1;
        }
        let mut k: usize = 0;
        while k < self.function_defs.len()
            invariant
                k <= self.function_defs@.len(),
                forall|j: int|
                    0 <= j < k ==> self.function_def_wf(#[trigger] self.function_defs@[j]),
            decreases self.function_defs@.len() - k,
        {
            if !self.check_function_def(&self.function_defs[k]) {
                return false;
            }
            k += 1;
        }
        true
    }
}

} // verus!
