//! Which execution layer serves a given execution version.
use vstd::prelude::*;

verus! {

/// The execution version of the reworked virtual machine.
pub const VM_REWORK: u64 = 0xffff_ffff_ffff_ffff;

/// The execution layers that provide a bytecode verifier.
#[derive(Debug, Clone, Copy, PartialEq, Eq, Structural)]
pub enum ExecutionLayer {
    V0,
    Latest,
    VmRework,
}

/// Whether some execution layer serves `execution_version`.
pub open spec fn supported_version(execution_version: u64) -> bool {
    execution_version == 0 || execution_version == 1 || execution_version == VM_REWORK
}

/// The layer whose unmetered verifier checks code of `execution_version`.
pub fn unmetered_verifier(execution_version: u64) -> (r: ExecutionLayer)
    requires
        supported_version(execution_version),
    ensures
        execution_version == 0 ==> r == ExecutionLayer::V0,
        execution_version == 1 ==> r == ExecutionLayer::Latest,
        execution_version == VM_REWORK ==> r == ExecutionLayer::VmRework,
{
    if execution_version == 0 {
        ExecutionLayer::V0
    } else if execution_version == 1 {
        ExecutionLayer::Latest
    } else {
        ExecutionLayer::VmRework
    }
}

} // verus!
