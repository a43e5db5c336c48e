//! The failures that marshalling, the driver's fixups and decoding report.

use vstd::prelude::*;
use cairo_vm::vm::errors::memory_errors::MemoryError;
use crate::felt::Felt;
use crate::memory::Relocatable;

verus! {

/// The engine's memory error. Verified code receives it from the engine and
/// hands it on unchanged.
#[verifier::external_type_specification]
#[verifier::external_body]
pub struct ExMemoryError(MemoryError);

/// A failed computation on addresses.
#[derive(Clone, Copy, Debug, PartialEq, Eq)]
pub enum MathError {
    /// The offset of an address, moved forward, left the machine word.
    RelocatableAddUsizeOffsetExceeded(Relocatable, usize),
    /// The distance between addresses of two segments was asked for.
    RelocatableSubDiffIndex(Relocatable, Relocatable),
    /// The distance from a later address to an earlier one was asked for.
    RelocatableSubUsizeNegOffset(Relocatable, usize),
}

/// Why a run was refused or failed.
#[derive(Debug, PartialEq)]
pub enum Error {
    /// The engine could not read or write its memory.
    Memory(MemoryError),
    /// A computation on addresses failed.
    Math(MathError),
    /// The program itself panicked; the payload is its panic data.
    RunPanic(Vec<Felt>),
    /// The program has no function whose name ends as the main function's
    /// does.
    MissingMain,
    /// The function declares no return type.
    NoRetTypesInSignature,
    /// No size is known for the type with this id.
    NoTypeSizeForId(u64),
    /// The type with this id carries no name.
    TypeIdNoDebugName(u64),
    /// The program's registry knows nothing of the type with this id.
    NoInfoForType(u64),
    /// The values left by the run do not have the shape of a result.
    FailedToExtractReturnValues,
    /// The arguments fill another number of cells than the parameters take.
    ArgumentsSizeMismatch { expected: i16, actual: i16 },
    /// An array argument would lie across the end of a parameter.
    ArgumentUnaligned { param_index: usize, arg_index: usize },
}

} // verus!
