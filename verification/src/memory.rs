//! Addresses and words of the engine's memory, and the few operations of the
//! engine that the driver and the decoder use.

use vstd::prelude::*;
use cairo_vm::vm::vm_core::VirtualMachine;
use cairo_vm::vm::errors::memory_errors::MemoryError;
use cairo_vm::Felt252;
use cairo_vm::types::relocatable as engine;
use crate::error::MathError;
use crate::felt::{felt_values, Felt};

verus! {

/// The execution engine. Verified code carries it to the wrappers below and
/// speaks of it through `vm_memory`, `vm_ap` and `vm_pc`.
#[verifier::external_type_specification]
#[verifier::external_body]
pub struct ExVirtualMachine(VirtualMachine);

/// An address in the engine's memory: a segment and an offset into it.
#[derive(Clone, Copy, Debug, PartialEq, Eq, Hash, Structural)]
pub struct Relocatable {
    pub segment_index: isize,
    pub offset: usize,
}

/// A word of the engine's memory: an address or a scalar.
#[derive(Clone, Copy, Debug, PartialEq, Eq, Hash)]
pub enum MaybeRelocatable {
    RelocatableValue(Relocatable),
    Int(Felt),
}

/// What a word holds.
pub enum Word {
    Address(Relocatable),
    Scalar(nat),
}

impl View for MaybeRelocatable {
    type V = Word;

    open spec fn view(&self) -> Word {
        match *self {
            MaybeRelocatable::RelocatableValue(a) => Word::Address(a),
            MaybeRelocatable::Int(f) => Word::Scalar(f@),
        }
    }
}

/// What a sequence of words holds.
pub open spec fn words(s: Seq<MaybeRelocatable>) -> Seq<Word> {
    s.map_values(|w: MaybeRelocatable| w@)
}

/// The address `i` cells after `addr`.
pub open spec fn cell_at(addr: Relocatable, i: int) -> Relocatable {
    Relocatable { segment_index: addr.segment_index, offset: (addr.offset + i) as usize }
}

/// Whether the `n` cells from `addr` on all exist and hold a word.
pub open spec fn holds_words(mem: Map<Relocatable, Word>, addr: Relocatable, n: nat) -> bool {
    forall|i: int|
        0 <= i < n ==> addr.offset + i <= usize::MAX && mem.contains_key(
            #[trigger] cell_at(addr, i),
        )
}

/// Whether the `n` cells from `addr` on all exist and hold a scalar.
pub open spec fn holds_scalars(mem: Map<Relocatable, Word>, addr: Relocatable, n: nat) -> bool {
    forall|i: int|
        0 <= i < n ==> addr.offset + i <= usize::MAX && mem.contains_key(
            #[trigger] cell_at(addr, i),
        )
            && mem[cell_at(addr, i)] is Scalar
}

/// The scalars in the `n` cells from `addr` on.
pub open spec fn scalars_at(mem: Map<Relocatable, Word>, addr: Relocatable, n: nat) -> Seq<nat> {
    Seq::new(n, |i: int| mem[cell_at(addr, i)]->Scalar_0)
}

/// The words in the `n` cells from `addr` on.
pub open spec fn words_at(mem: Map<Relocatable, Word>, addr: Relocatable, n: nat) -> Seq<Word> {
    Seq::new(n, |i: int| mem[cell_at(addr, i)])
}

impl Relocatable {
    /// The address `n` cells further on, unless its offset leaves the machine
    /// word.
    pub fn add_usize(self, n: usize) -> (r: Result<Relocatable, MathError>)
        ensures
            self.offset + n <= usize::MAX ==> r == Ok::<Relocatable, MathError>(
                cell_at(self, n as int),
            ),
            self.offset + n > usize::MAX ==> r == Err::<Relocatable, MathError>(
                MathError::RelocatableAddUsizeOffsetExceeded(self, n),
            ),
    {
        if n <= usize::MAX - self.offset {
            Ok(Relocatable { segment_index: self.segment_index, offset: self.offset + n })
        } else {
            Err(MathError::RelocatableAddUsizeOffsetExceeded(self, n))
        }
    }

    /// The number of cells from `other` up to `self`, where both lie in one
    /// segment and `other` is not the later one.
    pub fn sub(self, other: Relocatable) -> (r: Result<usize, MathError>)
        ensures
            self.segment_index != other.segment_index ==> r == Err::<usize, MathError>(
                MathError::RelocatableSubDiffIndex(self, other),
            ),
            self.segment_index == other.segment_index && self.offset < other.offset ==> r == Err::<
                usize,
                MathError,
            >(MathError::RelocatableSubUsizeNegOffset(self, other.offset)),
            self.segment_index == other.segment_index && self.offset >= other.offset ==> r == Ok::<
                usize,
                MathError,
            >((self.offset - other.offset) as usize),
    {
        if self.segment_index != other.segment_index {
            Err(MathError::RelocatableSubDiffIndex(self, other))
        } else if self.offset < other.offset {
            Err(MathError::RelocatableSubUsizeNegOffset(self, other.offset))
        } else {
            Ok(self.offset - other.offset)
        }
    }
}

/// What the engine's memory holds: for every cell of which a read gives a
/// word, that word. A cell of which a read gives nothing, such as one that
/// was never written, is no key of the map.
pub uninterp spec fn vm_memory(vm: VirtualMachine) -> Map<Relocatable, Word>;

/// The engine's allocation pointer.
pub uninterp spec fn vm_ap(vm: VirtualMachine) -> Relocatable;

/// The engine's program counter.
pub uninterp spec fn vm_pc(vm: VirtualMachine) -> Relocatable;

/// Reads `size` scalars from `addr` on with `VirtualMachine::get_integer_range`.
/// The engine reads cell after cell and fails at the first one that lies
/// beyond the machine word, was never written or holds an address.
#[verifier::external_body]
pub(crate) fn read_integers(vm: &VirtualMachine, addr: Relocatable, size: usize) -> (r: Result<
    Vec<Felt>,
    MemoryError,
>)
    ensures
        r matches Ok(v) ==> holds_scalars(vm_memory(*vm), addr, size as nat) && felt_values(v@)
            == scalars_at(vm_memory(*vm), addr, size as nat),
        r is Err ==> !holds_scalars(vm_memory(*vm), addr, size as nat),
{
    let start = engine::Relocatable::from((addr.segment_index, addr.offset));
    match vm.get_integer_range(start, size) {
        Ok(values) => Ok(values.into_iter().map(|c| Felt { bytes: c.to_bytes_be() }).collect()),
        Err(e) => Err(e),
    }
}

/// The largest number of return values asked of the engine at once.
pub const MAX_RETURN_VALUES: usize = 0x7fff;

/// Reads the `n` words below the allocation pointer with
/// `VirtualMachine::get_return_values`. The engine fails where the pointer's
/// offset is below `n` or one of the cells was never written.
#[verifier::external_body]
pub(crate) fn read_return_values(vm: &VirtualMachine, n: usize) -> (r: Result<
    Vec<MaybeRelocatable>,
    MemoryError,
>)
    requires
        n <= MAX_RETURN_VALUES,
    ensures
        r matches Ok(v) ==> returns_readable(*vm, n as nat) && words(v@) == words_at(
            vm_memory(*vm),
            cell_at(vm_ap(*vm), -(n as int)),
            n as nat,
        ),
        r is Err ==> !returns_readable(*vm, n as nat),
{
    match vm.get_return_values(n) {
        Ok(values) => Ok(values.into_iter().map(|w| match w {
            engine::MaybeRelocatable::RelocatableValue(a) => MaybeRelocatable::RelocatableValue(
                Relocatable { segment_index: a.segment_index, offset: a.offset },
            ),
            engine::MaybeRelocatable::Int(f) => {
                MaybeRelocatable::Int(Felt { bytes: f.to_bytes_be() })
            },
        }).collect()),
        Err(e) => Err(e),
    }
}

/// Whether the `n` cells below the allocation pointer exist and hold a word.
pub open spec fn returns_readable(vm: VirtualMachine, n: nat) -> bool {
    vm_ap(vm).offset >= n && holds_words(vm_memory(vm), cell_at(vm_ap(vm), -(n as int)), n)
}

/// Adds a segment to the engine's memory with
/// `VirtualMachine::add_memory_segment` and returns its first address. The new
/// segment is empty, and no cell that was written changes.
#[verifier::external_body]
pub(crate) fn add_segment(vm: &mut VirtualMachine) -> (base: Relocatable)
    ensures
        base.offset == 0,
        base.segment_index >= 0,
        forall|a: Relocatable|
            a.segment_index == base.segment_index ==> !vm_memory(*old(vm)).contains_key(a),
        vm_memory(*final(vm)) == vm_memory(*old(vm)),
        vm_ap(*final(vm)) == vm_ap(*old(vm)),
        vm_pc(*final(vm)) == vm_pc(*old(vm)),
{
    let base = vm.add_memory_segment();
    Relocatable { segment_index: base.segment_index, offset: base.offset }
}

/// Whether a word is an address in a temporary segment.
pub open spec fn is_temporary(w: Word) -> bool {
    w matches Word::Address(a) && a.segment_index < 0
}

/// Writes a word into a cell with `VirtualMachine::insert_value`. Where the
/// engine accepts the write, a read of the cell gives the word and every
/// other cell reads as before. (An address in a temporary segment may be
/// read back relocated, so none is taken.)
#[verifier::external_body]
pub(crate) fn write_word(vm: &mut VirtualMachine, addr: Relocatable, word: MaybeRelocatable) -> (r:
    Result<(), MemoryError>)
    requires
        !is_temporary(word@),
    ensures
        vm_ap(*final(vm)) == vm_ap(*old(vm)),
        vm_pc(*final(vm)) == vm_pc(*old(vm)),
        r is Ok ==> vm_memory(*final(vm)) == vm_memory(*old(vm)).insert(addr, word@),
{
    let key = engine::Relocatable::from((addr.segment_index, addr.offset));
    let value = match word {
        MaybeRelocatable::RelocatableValue(a) => {
            engine::MaybeRelocatable::from((a.segment_index, a.offset))
        },
        MaybeRelocatable::Int(f) => engine::MaybeRelocatable::Int(Felt252::from_bytes_be(&f.bytes)),
    };
    vm.insert_value(key, value)
}

/// Reads the program counter with `VirtualMachine::get_pc`.
#[verifier::external_body]
pub(crate) fn read_pc(vm: &VirtualMachine) -> (pc: Relocatable)
    ensures
        pc == vm_pc(*vm),
{
    let pc = vm.get_pc();
    Relocatable { segment_index: pc.segment_index, offset: pc.offset }
}

} // verus!
