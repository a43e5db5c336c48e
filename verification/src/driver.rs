//! What the driver does around a run: finding the main function, preparing
//! the engine's memory, and locating the builtins' stop pointers.

use vstd::prelude::*;
use vstd::string::*;
use cairo_lang_sierra::extensions::gas::CostTokenType;
use cairo_vm::vm::vm_core::VirtualMachine;
use crate::builtins::{decls_view, Builtin, TypeDecl, TypeDeclView};
use crate::error::{Error, MathError};
use crate::felt::Felt;
use crate::memory::{
    add_segment, cell_at, read_pc, vm_ap, vm_memory, vm_pc, write_word, MaybeRelocatable,
    Relocatable, Word,
};
use crate::text::{ends_with, has_suffix};

verus! {

/// The cells of the builtin-cost segment, one per builtin whose cost is
/// paid in advance, in the order in which the code generator lists them.
pub open spec fn precost_cells() -> Seq<i16> {
    seq![0i16, 3i16, 1i16, 2i16, 4i16, 5i16, 6i16]
}

/// Lists, with `CostTokenType::iter_precost`, the builtins whose cost is paid
/// in advance, and gives for each its cell in the builtin-cost segment, as
/// `CostTokenType::offset_in_builtin_costs` numbers them: pedersen 0,
/// poseidon 3, bitwise 1, ec-op 2, add-mod 4, mul-mod 5, blake 6.
#[verifier::external_body]
pub(crate) fn precost_offsets() -> (r: Vec<i16>)
    ensures
        r@ == precost_cells(),
{
    CostTokenType::iter_precost().map(|token| token.offset_in_builtin_costs()).collect()
}

/// The memory after the first `k` cells of the builtin-cost segment at
/// `base` were set to zero.
pub open spec fn with_cost_cells(mem: Map<Relocatable, Word>, base: Relocatable, k: int) -> Map<
    Relocatable,
    Word,
>
    decreases k,
{
    if k <= 0 {
        mem
    } else {
        with_cost_cells(mem, base, k - 1).insert(
            cell_at(base, precost_cells()[k - 1] as int),
            Word::Scalar(0),
        )
    }
}

/// The memory after the builtin-cost segment was set up at `base` and its
/// address stored `data_len` cells behind `pc`.
pub open spec fn with_cost_segment(
    mem: Map<Relocatable, Word>,
    base: Relocatable,
    pc: Relocatable,
    data_len: nat,
) -> Map<Relocatable, Word> {
    with_cost_cells(mem, base, precost_cells().len() as int).insert(
        cell_at(pc, data_len as int),
        Word::Address(base),
    )
}

/// Prepares the engine's memory for a run: adds the builtin-cost segment,
/// sets the cost of every builtin that is paid in advance to zero, and
/// stores the segment's address behind the program, `data_len` cells from
/// the program counter on.
///
/// Succeeds only where the engine accepts every write. Fails with the
/// engine's error where it refuses one, and with an address error where the
/// cell behind the program lies beyond the machine word.
pub fn additional_initialization(vm: &mut VirtualMachine, data_len: usize) -> (r: Result<
    (),
    Error,
>)
    ensures
        vm_pc(*final(vm)) == vm_pc(*old(vm)),
        vm_ap(*final(vm)) == vm_ap(*old(vm)),
        r is Ok ==> exists|base: Relocatable|
            {
                &&& base.offset == 0
                &&& base.segment_index >= 0
                &&& forall|a: Relocatable|
                    a.segment_index == base.segment_index ==> !vm_memory(*old(vm)).contains_key(a)
                &&& vm_memory(*final(vm)) == with_cost_segment(
                    vm_memory(*old(vm)),
                    base,
                    vm_pc(*old(vm)),
                    data_len as nat,
                )
            },
        r matches Err(e) ==> (e is Memory || e == Error::Math(
            crate::error::MathError::RelocatableAddUsizeOffsetExceeded(vm_pc(*old(vm)), data_len),
        ) && vm_pc(*old(vm)).offset + data_len > usize::MAX),
{
    let ghost before = vm_memory(*vm);
    let base: Relocatable = add_segment(vm);
    let offsets: Vec<i16> = precost_offsets();
    let mut k: usize = 0;
    while k < offsets.len()
        invariant
            k <= offsets.len(),
            offsets@ == precost_cells(),
            base.offset == 0,
            base.segment_index >= 0,
            before == vm_memory(*old(vm)),
            forall|a: Relocatable|
                a.segment_index == base.segment_index ==> !before.contains_key(a),
            vm_pc(*vm) == vm_pc(*old(vm)),
            vm_ap(*vm) == vm_ap(*old(vm)),
            vm_memory(*vm) == with_cost_cells(before, base, k as int),
        decreases offsets.len() - k,
    {
        let offset: i16 = offsets[k];
        assert(0 <= offset <= 6);
        let cell: Relocatable = Relocatable {
            segment_index: base.segment_index,
            offset: offset as usize,
        };
        assert(cell == cell_at(base, offset as int));
        match write_word(vm, cell, MaybeRelocatable::Int(Felt::zero())) {
            Ok(()) => {},
            Err(e) => {
                return Err(Error::Memory(e));
            },
        }
        k = k + 1;
    }
    let pc: Relocatable = read_pc(vm);
    let behind: Relocatable = match pc.add_usize(data_len) {
        Ok(cell) => cell,
        Err(e) => {
            return Err(Error::Math(e));
        },
    };
    match write_word(vm, behind, MaybeRelocatable::RelocatableValue(base)) {
        Ok(()) => {
            assert(vm_memory(*vm) == with_cost_segment(before, base, pc, data_len as nat));
            Ok(())
        },
        Err(e) => Err(Error::Memory(e)),
    }
}

/// Whether the function at place `i` has a name that ends with `suffix`.
pub open spec fn is_named(names: Seq<Option<String>>, i: int, suffix: Seq<char>) -> bool {
    names[i] matches Some(name) && has_suffix(name@, suffix)
}

/// Finds the first function whose name ends with `name_suffix`, among the
/// names of the program's functions in their order. A function without a
/// name is passed over.
pub fn find_function(function_names: &Vec<Option<String>>, name_suffix: &str) -> (r: Result<
    usize,
    Error,
>)
    ensures
        match r {
            Ok(i) => {
                &&& i < function_names@.len()
                &&& is_named(function_names@, i as int, name_suffix@)
                &&& forall|j: int| 0 <= j < i ==> !is_named(function_names@, j, name_suffix@)
            },
            Err(e) => {
                &&& e == Error::MissingMain
                &&& forall|j: int|
                    0 <= j < function_names@.len() ==> !is_named(
                        function_names@,
                        j,
                        name_suffix@,
                    )
            },
        },
{
    let mut i: usize = 0;
    while i < function_names.len()
        invariant
            i <= function_names.len(),
            forall|j: int| 0 <= j < i ==> !is_named(function_names@, j, name_suffix@),
        decreases function_names.len() - i,
    {
        let found: bool = match &function_names[i] {
            Some(name) => ends_with(name.as_str(), name_suffix),
            None => false,
        };
        if found {
            return Ok(i);
        }
        i = i + 1;
    }
    Err(Error::MissingMain)
}


/// The builtin whose final pointer a return type of this name holds.
pub open spec fn builtin_named(name: Seq<char>) -> Option<Builtin> {
    if name == "RangeCheck"@ {
        Some(Builtin::RangeCheck)
    } else if name == "Poseidon"@ {
        Some(Builtin::Poseidon)
    } else if name == "EcOp"@ {
        Some(Builtin::EcOp)
    } else if name == "Bitwise"@ {
        Some(Builtin::Bitwise)
    } else if name == "Pedersen"@ {
        Some(Builtin::Pedersen)
    } else if name == "Output"@ {
        Some(Builtin::Output)
    } else if name == "Ecdsa"@ {
        Some(Builtin::Ecdsa)
    } else {
        None
    }
}

/// The builtin whose final pointer a return type of this name holds.
pub fn builtin_from_name(name: &String) -> (r: Option<Builtin>)
    ensures
        r == builtin_named(name@),
{
    if *name == String::from_str("RangeCheck") {
        Some(Builtin::RangeCheck)
    } else if *name == String::from_str("Poseidon") {
        Some(Builtin::Poseidon)
    } else if *name == String::from_str("EcOp") {
        Some(Builtin::EcOp)
    } else if *name == String::from_str("Bitwise") {
        Some(Builtin::Bitwise)
    } else if *name == String::from_str("Pedersen") {
        Some(Builtin::Pedersen)
    } else if *name == String::from_str("Output") {
        Some(Builtin::Output)
    } else if *name == String::from_str("Ecdsa") {
        Some(Builtin::Ecdsa)
    } else {
        None
    }
}

/// The number of cells that a value of the type takes; none where the size
/// is not known.
pub open spec fn cells(t: TypeDeclView) -> int {
    match t.size {
        Some(size) => size as int,
        None => 0,
    }
}

/// The number of cells that values of the first `k` types take.
pub open spec fn cells_before(types: Seq<TypeDeclView>, k: int) -> int
    decreases k,
{
    if k <= 0 {
        0
    } else {
        cells_before(types, k - 1) + cells(types[k - 1])
    }
}

/// Whether no size is negative and all together fit in 16 bits.
pub open spec fn sizes_fit(types: Seq<TypeDeclView>) -> bool {
    &&& forall|i: int| 0 <= i < types.len() ==> cells(#[trigger] types[i]) >= 0
    &&& cells_before(types, types.len() as int) <= i16::MAX
}

/// The builtin that the type at place `k` returns the final pointer of.
pub open spec fn returned_builtin(types: Seq<TypeDeclView>, k: int) -> Option<Builtin> {
    match types[k].debug_name {
        Some(name) => builtin_named(name),
        None => None,
    }
}

/// The final pointers among the first `k` return values, which begin at
/// `first`: for each return type that names a builtin, the builtin and the
/// address of its value. Fails at the first such address that lies beyond
/// the machine word.
pub open spec fn stop_pointers_before(types: Seq<TypeDeclView>, first: Relocatable, k: int)
    -> Result<Seq<(Builtin, Relocatable)>, MathError>
    decreases k,
{
    if k <= 0 {
        Ok(Seq::empty())
    } else {
        match stop_pointers_before(types, first, k - 1) {
            Err(e) => Err(e),
            Ok(found) => match returned_builtin(types, k - 1) {
                None => Ok(found),
                Some(b) => if first.offset + cells_before(types, k - 1) > usize::MAX {
                    Err(
                        MathError::RelocatableAddUsizeOffsetExceeded(
                            first,
                            cells_before(types, k - 1) as usize,
                        ),
                    )
                } else {
                    Ok(found.push((b, cell_at(first, cells_before(types, k - 1)))))
                },
            },
        }
    }
}

/// The number of cells between the first return value and the allocation
/// pointer.
pub open spec fn returned_span(types: Seq<TypeDeclView>) -> int {
    if cells_before(types, types.len() as int) > 0 {
        cells_before(types, types.len() as int) - 1
    } else {
        0
    }
}

/// The final pointers of the builtins among the values that a function
/// returned below the allocation pointer `ap`.
pub open spec fn stop_pointers(types: Seq<TypeDeclView>, ap: Relocatable) -> Result<
    Seq<(Builtin, Relocatable)>,
    MathError,
> {
    if ap.offset < returned_span(types) {
        Err(MathError::RelocatableSubUsizeNegOffset(ap, returned_span(types) as usize))
    } else {
        stop_pointers_before(types, cell_at(ap, -returned_span(types)), types.len() as int)
    }
}

/// The values of a prefix of the types take no more cells than all.
pub proof fn lemma_cells_prefix(types: Seq<TypeDeclView>, k: int)
    requires
        0 <= k <= types.len(),
        forall|i: int| 0 <= i < types.len() ==> cells(#[trigger] types[i]) >= 0,
    ensures
        0 <= cells_before(types, k) <= cells_before(types, types.len() as int),
    decreases types.len() - k,
{
    if k < types.len() {
        lemma_cells_prefix(types, k + 1);
        lemma_cells_nonnegative(types, k);
    } else {
        lemma_cells_nonnegative(types, k);
    }
}

/// Values of types without negative size take no negative number of cells.
proof fn lemma_cells_nonnegative(types: Seq<TypeDeclView>, k: int)
    requires
        0 <= k <= types.len(),
        forall|i: int| 0 <= i < types.len() ==> cells(#[trigger] types[i]) >= 0,
    ensures
        0 <= cells_before(types, k),
    decreases k,
{
    if k > 0 {
        lemma_cells_nonnegative(types, k - 1);
    }
}

/// Whether no size is negative and all together fit in 16 bits, as
/// `builtin_stop_pointers` requires.
pub fn sizes_valid(types: &Vec<TypeDecl>) -> (r: bool)
    ensures
        r == sizes_fit(decls_view(types@)),
{
    let ghost tv = decls_view(types@);
    let mut total: i32 = 0;
    let mut k: usize = 0;
    while k < types.len()
        invariant
            k <= types.len(),
            tv == decls_view(types@),
            forall|i: int| 0 <= i < k ==> cells(#[trigger] tv[i]) >= 0,
            total == cells_before(tv, k as int),
            0 <= total <= i16::MAX,
        decreases types.len() - k,
    {
        assert(tv[k as int] == types@[k as int]@);
        let size: i16 = match types[k].size {
            Some(size) => size,
            None => 0,
        };
        if size < 0 {
            assert(cells(tv[k as int]) < 0);
            return false;
        }
        total = total + size as i32;
        if total > 0x7fff {
            proof {
                if forall|i: int| 0 <= i < tv.len() ==> cells(#[trigger] tv[i]) >= 0 {
                    lemma_cells_prefix(tv, k + 1);
                }
            }
            return false;
        }
        k = k + 1;
    }
    true
}

/// Locates the final pointers of the builtins among the values that the
/// main function returned: the return values end at the allocation pointer
/// `ap`, and each return type that names a builtin holds that builtin's
/// final pointer. Returns the builtins with the addresses of their values,
/// in the order of the return types.
pub fn builtin_stop_pointers(ret_types: &Vec<TypeDecl>, ap: Relocatable) -> (r: Result<
    Vec<(Builtin, Relocatable)>,
    Error,
>)
    requires
        sizes_fit(decls_view(ret_types@)),
    ensures
        match stop_pointers(decls_view(ret_types@), ap) {
            Ok(found) => r matches Ok(v) && v@ == found,
            Err(e) => r == Err::<Vec<(Builtin, Relocatable)>, Error>(Error::Math(e)),
        },
{
    let ghost tv = decls_view(ret_types@);
    let len: usize = ret_types.len();
    let mut full: usize = 0;
    let mut j: usize = 0;
    while j < len
        invariant
            j <= len,
            len == ret_types@.len(),
            tv == decls_view(ret_types@),
            sizes_fit(tv),
            full == cells_before(tv, j as int),
        decreases len - j,
    {
        proof {
            lemma_cells_prefix(tv, j + 1);
            assert(tv[j as int] == ret_types@[j as int]@);
        }
        let size: usize = match ret_types[j].size {
            Some(size) => size as usize,
            None => 0,
        };
        full = full + size;
        j = j + 1;
    }
    let span: usize = if full > 0 {
        full - 1
    } else {
        0
    };
    if ap.offset < span {
        return Err(Error::Math(MathError::RelocatableSubUsizeNegOffset(ap, span)));
    }
    let first: Relocatable = Relocatable {
        segment_index: ap.segment_index,
        offset: ap.offset - span,
    };
    assert(first == cell_at(ap, -returned_span(tv)));
    let mut found: Vec<(Builtin, Relocatable)> = Vec::new();
    let mut before: usize = 0;
    let mut k: usize = 0;
    while k < len
        invariant
            k <= len,
            len == ret_types@.len(),
            tv == decls_view(ret_types@),
            sizes_fit(tv),
            ap.offset >= returned_span(tv),
            first == cell_at(ap, -returned_span(tv)),
            before == cells_before(tv, k as int),
            stop_pointers_before(tv, first, k as int) == Ok::<
                Seq<(Builtin, Relocatable)>,
                MathError,
            >(found@),
        decreases len - k,
    {
        proof {
            lemma_cells_prefix(tv, k + 1);
            lemma_cells_prefix(tv, k as int);
            assert(tv[k as int] == ret_types@[k as int]@);
        }
        let named: Option<Builtin> = match &ret_types[k].debug_name {
            Some(name) => builtin_from_name(name),
            None => None,
        };
        if let Some(b) = named {
            match first.add_usize(before) {
                Ok(at) => {
                    found.push((b, at));
                },
                Err(e) => {
                    proof {
                        lemma_stop_pointers_fail(tv, first, k + 1, len as int);
                    }
                    return Err(Error::Math(e));
                },
            }
        }
        let size: usize = match ret_types[k].size {
            Some(size) => size as usize,
            None => 0,
        };
        before = before + size;
        k = k + 1;
    }
    Ok(found)
}

/// A final pointer beyond the machine word fails the whole lookup.
proof fn lemma_stop_pointers_fail(types: Seq<TypeDeclView>, first: Relocatable, k: int, m: int)
    requires
        0 <= k <= m,
        stop_pointers_before(types, first, k) is Err,
    ensures
        stop_pointers_before(types, first, m) == stop_pointers_before(types, first, k),
    decreases m - k,
{
    if k < m {
        lemma_stop_pointers_fail(types, first, k, m - 1);
    }
}

} // verus!
