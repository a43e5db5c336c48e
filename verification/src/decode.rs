//! Decoding of the values that a run leaves behind.

use vstd::prelude::*;
use vstd::string::*;
use cairo_vm::vm::errors::memory_errors::MemoryError;
use cairo_vm::vm::vm_core::VirtualMachine;
use crate::builtins::{decls_view, TypeDecl, TypeDeclView};
use crate::error::{Error, MathError};
use crate::felt::{decimal_text, felt_values, Felt};
use crate::memory::{
    cell_at, holds_scalars, read_integers, read_return_values, returns_readable, scalars_at,
    vm_ap, vm_memory, words, words_at, MaybeRelocatable, Relocatable, Word,
};
use crate::text::{has_prefix, starts_with};

verus! {

/// A value returned by the program: a scalar or an array of values.
#[derive(Debug, PartialEq, Eq)]
pub enum ReturnValue {
    Int(Felt),
    Array(Vec<ReturnValue>),
}

/// The values returned by the program, in order.
#[derive(Debug, PartialEq, Eq)]
pub struct ReturnValueVec(pub Vec<ReturnValue>);

/// The model of a `ReturnValue`.
pub enum ValueView {
    Int(nat),
    Array(Seq<ValueView>),
}

/// The model of a value: a scalar's number, an array's items' models.
pub open spec fn value_view(v: ReturnValue) -> ValueView
    decreases v,
{
    match v {
        ReturnValue::Int(f) => ValueView::Int(f@),
        ReturnValue::Array(items) => ValueView::Array(
            Seq::new(
                items.len() as nat,
                |i: int|
                    if 0 <= i < items.len() {
                        value_view(items[i])
                    } else {
                        ValueView::Int(0)
                    },
            ),
        ),
    }
}

impl View for ReturnValue {
    type V = ValueView;

    open spec fn view(&self) -> ValueView {
        value_view(*self)
    }
}

/// The text of a value: a scalar in decimal, an array as its items' texts
/// between brackets, separated by a comma and a space.
pub open spec fn render(v: ValueView) -> Seq<char>
    decreases v, 0nat,
{
    match v {
        ValueView::Int(n) => decimal_text(n),
        ValueView::Array(items) => seq!['['] + render_items(items, items.len()) + seq![']'],
    }
}

/// The texts of the first `k` items, separated by a comma and a space.
pub open spec fn render_items(items: Seq<ValueView>, k: nat) -> Seq<char>
    decreases items, k,
{
    if k == 0 || k > items.len() {
        Seq::empty()
    } else if k == 1 {
        render(items[0])
    } else {
        render_items(items, (k - 1) as nat) + seq![',', ' '] + render(items[k - 1])
    }
}


/// The models of a sequence of values.
pub open spec fn values_view(s: Seq<ReturnValue>) -> Seq<ValueView> {
    s.map_values(|v: ReturnValue| v@)
}

impl View for ReturnValueVec {
    type V = Seq<ValueView>;

    open spec fn view(&self) -> Seq<ValueView> {
        values_view(self.0@)
    }
}

/// An array's model holds the models of its items.
pub proof fn lemma_array_view(items: Vec<ReturnValue>)
    ensures
        ReturnValue::Array(items)@ == ValueView::Array(values_view(items@)),
{
    let a = ReturnValue::Array(items)@->Array_0;
    let b = values_view(items@);
    assert(a.len() == b.len());
    assert forall|i: int| 0 <= i < a.len() implies a[i] == b[i] by {
        assert(items[i] == items@[i]);
    }
    assert(a =~= b);
}

/// The text of a list of values: the items' texts between brackets.
pub open spec fn render_list(items: Seq<ValueView>) -> Seq<char> {
    seq!['['] + render_items(items, items.len()) + seq![']']
}

/// The text of a list of values: the items' texts between brackets,
/// separated by a comma and a space.
fn list_to_string(items: &Vec<ReturnValue>) -> (s: String)
    ensures
        s@ == render_list(values_view(items@)),
    decreases items,
{
    broadcast use vstd::std_specs::vec::axiom_vec_index_decreases;

    let ghost iv = values_view(items@);
    let mut s: String = String::from_str("[");
    proof {
        reveal_strlit("[");
        reveal_strlit(", ");
        reveal_strlit("]");
        assert(s@ =~= seq!['['] + render_items(iv, 0));
    }
    let mut i: usize = 0;
    while i < items.len()
        invariant
            i <= items.len(),
            iv == values_view(items@),
            s@ == seq!['['] + render_items(iv, i as nat),
        decreases items.len() - i,
    {
        if i > 0 {
            s.append(", ");
        }
        let item: String = items[i].to_string();
        s.append(item.as_str());
        proof {
            reveal_strlit(", ");
            assert(iv[i as int] == items@[i as int]@);
            assert(", "@ =~= seq![',', ' ']);
            assert(s@ =~= seq!['['] + render_items(iv, (i + 1) as nat));
        }
        i = i + 1;
    }
    s.append("]");
    proof {
        reveal_strlit("]");
        assert("]"@ =~= seq![']']);
        assert(s@ =~= render_list(iv));
    }
    s
}

impl ReturnValue {
    /// The text of the value: a scalar in decimal, an array as its items'
    /// texts between brackets, separated by a comma and a space.
    pub fn to_string(&self) -> (s: String)
        ensures
            s@ == render(self@),
        decreases self,
    {
        match self {
            ReturnValue::Int(f) => f.to_dec_string(),
            ReturnValue::Array(items) => {
                proof {
                    lemma_array_view(*items);
                }
                list_to_string(items)
            },
        }
    }
}

impl ReturnValueVec {
    /// The text of the values: their texts between brackets, separated by a
    /// comma and a space.
    pub fn to_string(&self) -> (s: String)
        ensures
            s@ == render_list(self@),
    {
        list_to_string(&self.0)
    }
}

/// The beginning of the name of every type that follows the panic
/// convention.
pub open spec fn panic_result_prefix() -> Seq<char> {
    "core::panics::PanicResult::"@
}

/// What the extraction of the return values comes to.
pub enum Extraction {
    /// The run succeeded and left these words.
    Values(Seq<Word>),
    /// The program panicked with this data.
    Panicked(Seq<nat>),
    /// The extraction failed for a reason that the library finds.
    Failed(Error),
    /// The engine could not read the cells asked for.
    Unreadable,
}

/// Whether the words begin with the flag of a successful run, the scalar 0.
pub open spec fn is_success_flag(raw: Seq<Word>) -> bool {
    raw.len() > 0 && raw[0] == Word::Scalar(0)
}

/// Unwraps the words of a result that follows the panic convention. After
/// the flag of success the payload follows; a convention that reserves the
/// two trailing cells for the pointer pair leaves them out of the payload.
/// After any other flag the last two words delimit the panic data.
pub open spec fn panic_outcome(mem: Map<Relocatable, Word>, raw: Seq<Word>, reserved_pair: bool)
    -> Extraction {
    if is_success_flag(raw) {
        if raw.len() < 3 {
            Extraction::Failed(Error::FailedToExtractReturnValues)
        } else if reserved_pair {
            Extraction::Values(raw.subrange(1, raw.len() - 2))
        } else {
            Extraction::Values(raw.skip(1))
        }
    } else if raw.len() < 2 {
        Extraction::Failed(Error::FailedToExtractReturnValues)
    } else {
        match (raw[raw.len() - 2], raw[raw.len() - 1]) {
            (Word::Address(start), Word::Address(end)) => if end.segment_index
                != start.segment_index {
                Extraction::Failed(Error::Math(MathError::RelocatableSubDiffIndex(end, start)))
            } else if end.offset < start.offset {
                Extraction::Failed(
                    Error::Math(MathError::RelocatableSubUsizeNegOffset(end, start.offset)),
                )
            } else if holds_scalars(mem, start, (end.offset - start.offset) as nat) {
                Extraction::Panicked(scalars_at(mem, start, (end.offset - start.offset) as nat))
            } else {
                Extraction::Unreadable
            },
            _ => Extraction::Failed(Error::FailedToExtractReturnValues),
        }
    }
}

/// What a function's execution left as its result: the words below the
/// allocation pointer that its last return type takes, unwrapped where that
/// type follows the panic convention.
pub open spec fn extraction(vm: VirtualMachine, ret_types: Seq<TypeDeclView>, reserved_pair: bool)
    -> Extraction {
    if ret_types.len() == 0 {
        Extraction::Failed(Error::NoRetTypesInSignature)
    } else {
        let t = ret_types.last();
        match t.size {
            None => Extraction::Failed(Error::NoTypeSizeForId(t.id)),
            Some(size) => if size < 0 {
                Extraction::Failed(Error::FailedToExtractReturnValues)
            } else if !returns_readable(vm, size as nat) {
                Extraction::Unreadable
            } else {
                let raw = words_at(vm_memory(vm), cell_at(vm_ap(vm), -(size as int)), size as nat);
                match t.debug_name {
                    None => Extraction::Failed(Error::TypeIdNoDebugName(t.id)),
                    Some(name) => if has_prefix(name, panic_result_prefix()) {
                        panic_outcome(vm_memory(vm), raw, reserved_pair)
                    } else {
                        Extraction::Values(raw)
                    },
                }
            },
        }
    }
}

/// Whether a result is what an extraction came to.
pub open spec fn extracted(r: Result<Vec<MaybeRelocatable>, Error>, outcome: Extraction) -> bool {
    match outcome {
        Extraction::Values(values) => r matches Ok(v) && words(v@) == values,
        Extraction::Panicked(data) => r matches Err(Error::RunPanic(d)) && felt_values(d@) == data,
        Extraction::Failed(e) => r == Err::<Vec<MaybeRelocatable>, Error>(e),
        Extraction::Unreadable => r matches Err(Error::Memory(_)),
    }
}

/// Unwraps the words of a result that follows the panic convention: yields
/// the payload of a successful run, and fails with the panic data, read from
/// the engine's memory, where the program panicked.
pub fn unwrap_panic_result(
    vm: &VirtualMachine,
    return_values: Vec<MaybeRelocatable>,
    reserved_pair: bool,
) -> (r: Result<Vec<MaybeRelocatable>, Error>)
    ensures
        extracted(r, panic_outcome(vm_memory(*vm), words(return_values@), reserved_pair)),
{
    let ghost raw = words(return_values@);
    let len: usize = return_values.len();
    let success: bool = len > 0 && match &return_values[0] {
        MaybeRelocatable::Int(flag) => flag.is_zero(),
        MaybeRelocatable::RelocatableValue(_) => false,
    };
    assert(success == is_success_flag(raw)) by {
        if len > 0 {
            assert(raw[0] == return_values@[0]@);
        }
    }
    if success {
        if len < 3 {
            return Err(Error::FailedToExtractReturnValues);
        }
        let last: usize = if reserved_pair {
            len - 2
        } else {
            len
        };
        let mut payload: Vec<MaybeRelocatable> = Vec::new();
        let mut i: usize = 1;
        while i < last
            invariant
                1 <= i <= last <= return_values@.len(),
                raw == words(return_values@),
                words(payload@) == raw.subrange(1, i as int),
            decreases last - i,
        {
            let ghost before = payload@;
            payload.push(return_values[i]);
            proof {
                assert(raw[i as int] == return_values@[i as int]@);
                assert(payload@ == before.push(return_values@[i as int]));
                assert(words(payload@) =~= words(before).push(raw[i as int]));
                assert(words(payload@) =~= raw.subrange(1, i + 1));
            }
            i = i + 1;
        }
        assert(raw.skip(1) =~= raw.subrange(1, raw.len() as int));
        return Ok(payload);
    }
    if len < 2 {
        return Err(Error::FailedToExtractReturnValues);
    }
    assert(raw[len - 2] == return_values@[len - 2]@);
    assert(raw[len - 1] == return_values@[len - 1]@);
    let end: Relocatable = match &return_values[len - 1] {
        MaybeRelocatable::RelocatableValue(a) => *a,
        MaybeRelocatable::Int(_) => {
            return Err(Error::FailedToExtractReturnValues);
        },
    };
    let start: Relocatable = match &return_values[len - 2] {
        MaybeRelocatable::RelocatableValue(a) => *a,
        MaybeRelocatable::Int(_) => {
            return Err(Error::FailedToExtractReturnValues);
        },
    };
    let size: usize = match end.sub(start) {
        Ok(size) => size,
        Err(e) => {
            return Err(Error::Math(e));
        },
    };
    match read_integers(vm, start, size) {
        Ok(data) => Err(Error::RunPanic(data)),
        Err(e) => Err(Error::Memory(e)),
    }
}

/// Extracts what the main function returned: reads the cells that its last
/// return type takes from below the allocation pointer and, where that type
/// follows the panic convention, unwraps them.
pub fn extract_return_values(vm: &VirtualMachine, ret_types: &Vec<TypeDecl>, reserved_pair: bool)
    -> (r: Result<Vec<MaybeRelocatable>, Error>)
    ensures
        extracted(r, extraction(*vm, decls_view(ret_types@), reserved_pair)),
{
    if ret_types.len() == 0 {
        return Err(Error::NoRetTypesInSignature);
    }
    let t: &TypeDecl = &ret_types[ret_types.len() - 1];
    assert(decls_view(ret_types@).last() == t@);
    let size: i16 = match t.size {
        Some(size) => size,
        None => {
            return Err(Error::NoTypeSizeForId(t.id));
        },
    };
    if size < 0 {
        return Err(Error::FailedToExtractReturnValues);
    }
    let return_values: Vec<MaybeRelocatable> = match read_return_values(vm, size as usize) {
        Ok(values) => values,
        Err(e) => {
            return Err(Error::Memory(e));
        },
    };
    let panic_result: bool = match &t.debug_name {
        Some(name) => {
            proof {
                reveal_strlit("core::panics::PanicResult::");
            }
            starts_with(name.as_str(), "core::panics::PanicResult::")
        },
        None => {
            return Err(Error::TypeIdNoDebugName(t.id));
        },
    };
    if panic_result {
        unwrap_panic_result(vm, return_values, reserved_pair)
    } else {
        Ok(return_values)
    }
}


/// Why no array was reconstructed at an address among the return values.
#[derive(Debug, PartialEq)]
pub enum SkipCause {
    /// The address is the last word or is followed by a scalar.
    Unpaired,
    /// The address that follows lies in another segment, or not behind this
    /// one.
    Malformed,
    /// The engine could not read scalars from all cells between the two
    /// addresses.
    Unreadable(MemoryError),
}

/// An address among the return values at which no array was reconstructed.
#[derive(Debug, PartialEq)]
pub struct SkippedArray {
    /// The place of the address among the return values.
    pub index: usize,
    pub cause: SkipCause,
}

/// The decoded return values, and the addresses that gave no array.
#[derive(Debug, PartialEq)]
pub struct Decoded {
    pub values: ReturnValueVec,
    pub skipped: Vec<SkippedArray>,
}

/// What one of the return values decodes to.
pub enum Slot {
    Value(ValueView),
    Unpaired,
    Malformed,
    Unreadable,
}

/// Scalars as values.
pub open spec fn int_values(s: Seq<nat>) -> Seq<ValueView> {
    s.map_values(|n: nat| ValueView::Int(n))
}

/// Decodes word `i` of the return values. A scalar is itself. An address
/// is the start of an array that ends at the next word, which must be an
/// address further on in the same segment; the array's items are the scalars
/// in the cells between the two.
pub open spec fn decode_word(mem: Map<Relocatable, Word>, raw: Seq<Word>, i: int) -> Slot {
    match raw[i] {
        Word::Scalar(n) => Slot::Value(ValueView::Int(n)),
        Word::Address(start) => if i + 1 < raw.len() && raw[i + 1] is Address {
            let end = raw[i + 1]->Address_0;
            if end.segment_index == start.segment_index && end.offset > start.offset {
                let n = (end.offset - start.offset) as nat;
                if holds_scalars(mem, start, n) {
                    Slot::Value(ValueView::Array(int_values(scalars_at(mem, start, n))))
                } else {
                    Slot::Unreadable
                }
            } else {
                Slot::Malformed
            }
        } else {
            Slot::Unpaired
        },
    }
}

/// The values that the first `k` return values decode to.
pub open spec fn decoded_values(mem: Map<Relocatable, Word>, raw: Seq<Word>, k: int) -> Seq<
    ValueView,
>
    decreases k,
{
    if k <= 0 {
        Seq::empty()
    } else {
        match decode_word(mem, raw, k - 1) {
            Slot::Value(v) => decoded_values(mem, raw, k - 1).push(v),
            _ => decoded_values(mem, raw, k - 1),
        }
    }
}

/// The places among the first `k` return values that decode to no value,
/// each with what it came to.
pub open spec fn skipped_slots(mem: Map<Relocatable, Word>, raw: Seq<Word>, k: int) -> Seq<
    (int, Slot),
>
    decreases k,
{
    if k <= 0 {
        Seq::empty()
    } else {
        match decode_word(mem, raw, k - 1) {
            Slot::Value(_) => skipped_slots(mem, raw, k - 1),
            slot => skipped_slots(mem, raw, k - 1).push((k - 1, slot)),
        }
    }
}

impl View for SkippedArray {
    type V = (int, Slot);

    open spec fn view(&self) -> (int, Slot) {
        (
            self.index as int,
            match self.cause {
                SkipCause::Unpaired => Slot::Unpaired,
                SkipCause::Malformed => Slot::Malformed,
                SkipCause::Unreadable(_) => Slot::Unreadable,
            },
        )
    }
}

/// The models of a sequence of skipped addresses.
pub open spec fn skipped_view(s: Seq<SkippedArray>) -> Seq<(int, Slot)> {
    s.map_values(|a: SkippedArray| a@)
}

/// Scalars as values.
fn int_items(scalars: Vec<Felt>) -> (r: Vec<ReturnValue>)
    ensures
        values_view(r@) == int_values(felt_values(scalars@)),
{
    let mut items: Vec<ReturnValue> = Vec::new();
    let mut i: usize = 0;
    assert(values_view(items@) =~= int_values(felt_values(scalars@).take(0)));
    while i < scalars.len()
        invariant
            i <= scalars.len(),
            values_view(items@) == int_values(felt_values(scalars@).take(i as int)),
        decreases scalars.len() - i,
    {
        let ghost before = items@;
        items.push(ReturnValue::Int(scalars[i]));
        proof {
            let fv = felt_values(scalars@);
            assert(items@ == before.push(ReturnValue::Int(scalars@[i as int])));
            assert(ReturnValue::Int(scalars@[i as int])@ == ValueView::Int(fv[i as int]));
            assert(values_view(items@) =~= values_view(before).push(ValueView::Int(fv[i as int])));
            assert(fv.take(i + 1) =~= fv.take(i as int).push(fv[i as int]));
            assert(int_values(fv.take(i + 1)) =~= int_values(fv.take(i as int)).push(
                ValueView::Int(fv[i as int]),
            ));
        }
        i = i + 1;
    }
    assert(felt_values(scalars@).take(scalars.len() as int) =~= felt_values(scalars@));
    items
}

/// Decodes the return values: every scalar is kept, and every address that
/// is followed by an address further on in its segment becomes the array of
/// the scalars between the two, read from the engine's memory. An address
/// that gives no array is left out of the values and reported with its cause.
pub fn decode_return_values(vm: &VirtualMachine, return_values: &Vec<MaybeRelocatable>) -> (r:
    Decoded)
    ensures
        r.values@ == decoded_values(
            vm_memory(*vm),
            words(return_values@),
            return_values@.len() as int,
        ),
        skipped_view(r.skipped@) == skipped_slots(
            vm_memory(*vm),
            words(return_values@),
            return_values@.len() as int,
        ),
{
    let ghost mem = vm_memory(*vm);
    let ghost raw = words(return_values@);
    let len: usize = return_values.len();
    let mut values: Vec<ReturnValue> = Vec::new();
    let mut skipped: Vec<SkippedArray> = Vec::new();
    let mut i: usize = 0;
    assert(values_view(values@) =~= decoded_values(mem, raw, 0));
    assert(skipped_view(skipped@) =~= skipped_slots(mem, raw, 0));
    while i < len
        invariant
            i <= len,
            len == return_values@.len(),
            mem == vm_memory(*vm),
            raw == words(return_values@),
            values_view(values@) == decoded_values(mem, raw, i as int),
            skipped_view(skipped@) == skipped_slots(mem, raw, i as int),
        decreases len - i,
    {
        let ghost values_before = values@;
        let ghost skipped_before = skipped@;
        assert(raw[i as int] == return_values@[i as int]@);
        match &return_values[i] {
            MaybeRelocatable::Int(f) => {
                values.push(ReturnValue::Int(*f));
                assert(values@ == values_before.push(ReturnValue::Int(*f)));
            },
            MaybeRelocatable::RelocatableValue(start) => {
                let next: Option<Relocatable> = if i + 1 < len {
                    assert(raw[i + 1] == return_values@[i + 1]@);
                    match &return_values[i + 1] {
                        MaybeRelocatable::RelocatableValue(end) => Some(*end),
                        MaybeRelocatable::Int(_) => None,
                    }
                } else {
                    None
                };
                match next {
                    None => {
                        skipped.push(SkippedArray { index: i, cause: SkipCause::Unpaired });
                    },
                    Some(end) => {
                        if end.segment_index == start.segment_index && end.offset > start.offset {
                            match read_integers(vm, *start, end.offset - start.offset) {
                                Ok(scalars) => {
                                    let items: Vec<ReturnValue> = int_items(scalars);
                                    proof {
                                        lemma_array_view(items);
                                    }
                                    values.push(ReturnValue::Array(items));
                                    assert(values@ == values_before.push(
                                        ReturnValue::Array(items),
                                    ));
                                },
                                Err(e) => {
                                    skipped.push(
                                        SkippedArray { index: i, cause: SkipCause::Unreadable(e) },
                                    );
                                },
                            }
                        } else {
                            skipped.push(SkippedArray { index: i, cause: SkipCause::Malformed });
                        }
                    },
                }
            },
        }
        proof {
            match decode_word(mem, raw, i as int) {
                Slot::Value(v) => {
                    assert(skipped@ == skipped_before);
                    assert(values_view(values@) =~= values_view(values_before).push(v));
                },
                slot => {
                    assert(values@ == values_before);
                    assert(skipped@.len() == skipped_before.len() + 1);
                    assert(skipped@ == skipped_before.push(skipped@.last()));
                    assert(skipped_view(skipped@) =~= skipped_view(skipped_before).push(
                        (i as int, slot),
                    ));
                },
            }
        }
        i = i + 1;
    }
    Decoded { values: ReturnValueVec(values), skipped }
}

/// Decodes the return values into scalars and arrays, leaving out every
/// address that gives no array.
pub fn fetch_arrays_from_memory(vm: &VirtualMachine, return_values: Vec<MaybeRelocatable>) -> (r:
    Result<ReturnValueVec, Error>)
    ensures
        r matches Ok(values) && values@ == decoded_values(
            vm_memory(*vm),
            words(return_values@),
            return_values@.len() as int,
        ),
{
    Ok(decode_return_values(vm, &return_values).values)
}

/// Return values that are all scalars decode to themselves, whatever the
/// engine's memory holds.
pub proof fn lemma_scalars_decode_unchanged(
    mem: Map<Relocatable, Word>,
    scalars: Seq<nat>,
    k: int,
)
    requires
        0 <= k <= scalars.len(),
    ensures
        decoded_values(mem, scalars.map_values(|n: nat| Word::Scalar(n)), k) == int_values(
            scalars.take(k),
        ),
        skipped_slots(mem, scalars.map_values(|n: nat| Word::Scalar(n)), k).len() == 0,
    decreases k,
{
    let raw = scalars.map_values(|n: nat| Word::Scalar(n));
    if k > 0 {
        lemma_scalars_decode_unchanged(mem, scalars, k - 1);
        assert(raw[k - 1] == Word::Scalar(scalars[k - 1]));
        assert(int_values(scalars.take(k)) =~= int_values(scalars.take(k - 1)).push(
            ValueView::Int(scalars[k - 1]),
        ));
    } else {
        assert(int_values(scalars.take(0)) =~= Seq::empty());
    }
}

/// Two addresses of one segment, the second further on than the first,
/// with scalars in all cells between them, decode to one array of those
/// scalars.
pub proof fn lemma_pointer_pair_decodes_to_array(
    mem: Map<Relocatable, Word>,
    start: Relocatable,
    end: Relocatable,
)
    requires
        start.segment_index == end.segment_index,
        start.offset < end.offset,
        holds_scalars(mem, start, (end.offset - start.offset) as nat),
    ensures
        decoded_values(mem, seq![Word::Address(start), Word::Address(end)], 2) == seq![
            ValueView::Array(
                int_values(scalars_at(mem, start, (end.offset - start.offset) as nat)),
            ),
        ],
{
    let raw = seq![Word::Address(start), Word::Address(end)];
    reveal_with_fuel(decoded_values, 3);
    assert(decode_word(mem, raw, 1) == Slot::Unpaired);
    assert(decoded_values(mem, raw, 2) =~= seq![
        ValueView::Array(int_values(scalars_at(mem, start, (end.offset - start.offset) as nat))),
    ]);
}

/// Under the panic convention, a flag other than the scalar 0 followed by
/// the start and the end of the panic data gives a panic with exactly the
/// scalars between the two, in order.
pub proof fn lemma_panic_carries_payload(
    mem: Map<Relocatable, Word>,
    flag: Word,
    start: Relocatable,
    end: Relocatable,
    reserved_pair: bool,
)
    requires
        flag != Word::Scalar(0),
        start.segment_index == end.segment_index,
        start.offset <= end.offset,
        holds_scalars(mem, start, (end.offset - start.offset) as nat),
    ensures
        panic_outcome(
            mem,
            seq![flag, Word::Address(start), Word::Address(end)],
            reserved_pair,
        ) == Extraction::Panicked(scalars_at(mem, start, (end.offset - start.offset) as nat)),
{
}

/// Under the panic convention without reserved cells, the flag of success
/// followed by at least two words gives those words as the payload.
pub proof fn lemma_success_drops_flag(mem: Map<Relocatable, Word>, payload: Seq<Word>)
    requires
        payload.len() >= 2,
    ensures
        panic_outcome(mem, seq![Word::Scalar(0)] + payload, false) == Extraction::Values(payload),
{
    let raw = seq![Word::Scalar(0)] + payload;
    assert(raw.skip(1) =~= payload);
}

} // verus!
