use cairo_stack::builtins::{GenericType, TypeDecl};
use cairo_stack::decode::{
    decode_return_values, extract_return_values, fetch_arrays_from_memory, unwrap_panic_result,
    ReturnValue, ReturnValueVec, SkipCause,
};
use cairo_stack::error::{Error, MathError};
use cairo_stack::felt::Felt;
use cairo_stack::memory::{MaybeRelocatable, Relocatable};
use cairo_vm::types::relocatable::Relocatable as EngineAddress;
use cairo_vm::vm::errors::memory_errors::MemoryError;
use cairo_vm::vm::vm_core::VirtualMachine;
use cairo_vm::Felt252;

fn felt(n: usize) -> Felt {
    Felt::from_usize(n)
}

fn scalar(n: usize) -> MaybeRelocatable {
    MaybeRelocatable::Int(felt(n))
}

fn ptr(segment_index: isize, offset: usize) -> MaybeRelocatable {
    MaybeRelocatable::RelocatableValue(Relocatable { segment_index, offset })
}

/// An engine with three segments; segment 2 holds the scalars 10, 20, 30, 40
/// from its cell 1 on, and then an address.
fn engine() -> VirtualMachine {
    let mut vm = VirtualMachine::new(false, false);
    vm.add_memory_segment();
    vm.add_memory_segment();
    vm.add_memory_segment();
    for (i, v) in [10u64, 20, 30, 40].iter().enumerate() {
        vm.insert_value(EngineAddress::from((2, 1 + i)), Felt252::from(*v)).unwrap();
    }
    vm.insert_value(EngineAddress::from((2, 5)), EngineAddress::from((0, 0))).unwrap();
    vm
}

fn result_type(name: Option<&str>, size: Option<i16>) -> TypeDecl {
    TypeDecl {
        id: 9,
        debug_name: name.map(|n| n.to_string()),
        generic: Some(GenericType::Other),
        size,
    }
}

#[test]
fn scalars_decode_to_themselves() {
    let vm = engine();
    let decoded = decode_return_values(&vm, &vec![scalar(5)]);
    assert_eq!(decoded.values, ReturnValueVec(vec![ReturnValue::Int(felt(5))]));
    assert!(decoded.skipped.is_empty());
    assert_eq!(
        fetch_arrays_from_memory(&vm, vec![scalar(1), scalar(2), scalar(0)]),
        Ok(ReturnValueVec(vec![
            ReturnValue::Int(felt(1)),
            ReturnValue::Int(felt(2)),
            ReturnValue::Int(felt(0)),
        ]))
    );
}

#[test]
fn a_pointer_pair_becomes_one_array() {
    let vm = engine();
    let decoded = decode_return_values(&vm, &vec![ptr(2, 1), ptr(2, 4)]);
    assert_eq!(
        decoded.values,
        ReturnValueVec(vec![ReturnValue::Array(vec![
            ReturnValue::Int(felt(10)),
            ReturnValue::Int(felt(20)),
            ReturnValue::Int(felt(30)),
        ])])
    );
    assert_eq!(decoded.skipped.len(), 1);
    assert_eq!(decoded.skipped[0].index, 1);
    assert_eq!(decoded.skipped[0].cause, SkipCause::Unpaired);
}

#[test]
fn every_address_is_tried_as_a_start() {
    let vm = engine();
    let values = fetch_arrays_from_memory(&vm, vec![scalar(7), ptr(2, 1), ptr(2, 3), ptr(2, 5), scalar(8)])
        .unwrap();
    assert_eq!(
        values,
        ReturnValueVec(vec![
            ReturnValue::Int(felt(7)),
            ReturnValue::Array(vec![ReturnValue::Int(felt(10)), ReturnValue::Int(felt(20))]),
            ReturnValue::Array(vec![ReturnValue::Int(felt(30)), ReturnValue::Int(felt(40))]),
            ReturnValue::Int(felt(8)),
        ])
    );
}

#[test]
fn an_address_without_an_array_is_skipped_with_its_cause() {
    let vm = engine();
    let decoded = decode_return_values(
        &vm,
        &vec![ptr(2, 4), ptr(2, 1), ptr(1, 3), ptr(2, 4), ptr(2, 6), scalar(3), ptr(2, 2)],
    );
    assert_eq!(decoded.values, ReturnValueVec(vec![ReturnValue::Int(felt(3))]));
    let causes: Vec<(usize, bool, bool, bool)> = decoded
        .skipped
        .iter()
        .map(|s| {
            (
                s.index,
                s.cause == SkipCause::Unpaired,
                s.cause == SkipCause::Malformed,
                matches!(s.cause, SkipCause::Unreadable(_)),
            )
        })
        .collect();
    assert_eq!(
        causes,
        vec![
            (0, false, true, false),
            (1, false, true, false),
            (2, false, true, false),
            (3, false, false, true),
            (4, true, false, false),
            (6, true, false, false),
        ]
    );
}

#[test]
fn a_panic_carries_its_data() {
    let vm = engine();
    let outcome = unwrap_panic_result(&vm, vec![scalar(1), ptr(2, 1), ptr(2, 4)], false);
    assert_eq!(outcome, Err(Error::RunPanic(vec![felt(10), felt(20), felt(30)])));
    let outcome = unwrap_panic_result(&vm, vec![scalar(1), scalar(0), ptr(2, 2), ptr(2, 2)], true);
    assert_eq!(outcome, Err(Error::RunPanic(vec![])));
    let outcome = unwrap_panic_result(&vm, vec![ptr(0, 0), ptr(2, 3), ptr(2, 5)], false);
    assert_eq!(outcome, Err(Error::RunPanic(vec![felt(30), felt(40)])));
}

#[test]
fn a_success_yields_the_payload_behind_the_flag() {
    let vm = engine();
    assert_eq!(
        unwrap_panic_result(&vm, vec![scalar(0), scalar(7), scalar(8), scalar(9)], false),
        Ok(vec![scalar(7), scalar(8), scalar(9)])
    );
    assert_eq!(
        unwrap_panic_result(&vm, vec![scalar(0), scalar(7), scalar(8), scalar(9)], true),
        Ok(vec![scalar(7)])
    );
    assert_eq!(
        unwrap_panic_result(&vm, vec![scalar(0), scalar(7), scalar(8)], true),
        Ok(vec![])
    );
}

#[test]
fn a_result_of_the_wrong_shape_is_refused() {
    let vm = engine();
    assert_eq!(
        unwrap_panic_result(&vm, vec![scalar(0), scalar(7)], false),
        Err(Error::FailedToExtractReturnValues)
    );
    assert_eq!(unwrap_panic_result(&vm, vec![], false), Err(Error::FailedToExtractReturnValues));
    assert_eq!(
        unwrap_panic_result(&vm, vec![scalar(1)], false),
        Err(Error::FailedToExtractReturnValues)
    );
    assert_eq!(
        unwrap_panic_result(&vm, vec![scalar(1), ptr(2, 1), scalar(4)], false),
        Err(Error::FailedToExtractReturnValues)
    );
    assert_eq!(
        unwrap_panic_result(&vm, vec![scalar(1), scalar(1), ptr(2, 4)], false),
        Err(Error::FailedToExtractReturnValues)
    );
}

#[test]
fn panic_data_between_ill_matched_addresses_is_an_address_error() {
    let vm = engine();
    let start = Relocatable { segment_index: 1, offset: 0 };
    let end = Relocatable { segment_index: 2, offset: 3 };
    assert_eq!(
        unwrap_panic_result(&vm, vec![scalar(1), ptr(1, 0), ptr(2, 3)], false),
        Err(Error::Math(MathError::RelocatableSubDiffIndex(end, start)))
    );
    let end = Relocatable { segment_index: 2, offset: 1 };
    assert_eq!(
        unwrap_panic_result(&vm, vec![scalar(1), ptr(2, 3), ptr(2, 1)], false),
        Err(Error::Math(MathError::RelocatableSubUsizeNegOffset(end, 3)))
    );
}

#[test]
fn panic_data_that_cannot_be_read_is_the_engines_error() {
    let vm = engine();
    let outcome = unwrap_panic_result(&vm, vec![scalar(1), ptr(2, 4), ptr(2, 6)], false);
    assert!(matches!(outcome, Err(Error::Memory(MemoryError::ExpectedInteger(_)))));
    let outcome = unwrap_panic_result(&vm, vec![scalar(1), ptr(2, 6), ptr(2, 8)], false);
    assert!(matches!(outcome, Err(Error::Memory(MemoryError::UnknownMemoryCell(_)))));
}

#[test]
fn return_values_are_read_from_below_the_allocation_pointer() {
    let mut vm = VirtualMachine::new(false, false);
    vm.add_memory_segment();
    vm.add_memory_segment();
    for (i, v) in [4u64, 5, 6].iter().enumerate() {
        vm.insert_value(EngineAddress::from((1, i)), Felt252::from(*v)).unwrap();
    }
    vm.set_ap(3);
    let types = vec![result_type(Some("unused"), None), result_type(Some("core::felt252"), Some(2))];
    assert_eq!(extract_return_values(&vm, &types, false), Ok(vec![scalar(5), scalar(6)]));
    let types = vec![result_type(Some("Tuple<felt252, felt252, felt252>"), Some(3))];
    assert_eq!(extract_return_values(&vm, &types, false), Ok(vec![scalar(4), scalar(5), scalar(6)]));
}

#[test]
fn a_panic_result_is_unwrapped() {
    let mut vm = VirtualMachine::new(false, false);
    vm.add_memory_segment();
    vm.add_memory_segment();
    vm.add_memory_segment();
    vm.insert_value(EngineAddress::from((2, 0)), Felt252::from(77u64)).unwrap();
    vm.insert_value(EngineAddress::from((1, 0)), Felt252::from(1u64)).unwrap();
    vm.insert_value(EngineAddress::from((1, 1)), EngineAddress::from((2, 0))).unwrap();
    vm.insert_value(EngineAddress::from((1, 2)), EngineAddress::from((2, 1))).unwrap();
    vm.set_ap(3);
    let types =
        vec![result_type(Some("core::panics::PanicResult::<(core::felt252,)>"), Some(3))];
    assert_eq!(extract_return_values(&vm, &types, false), Err(Error::RunPanic(vec![felt(77)])));

    let mut vm = VirtualMachine::new(false, false);
    vm.add_memory_segment();
    vm.add_memory_segment();
    for (i, v) in [0u64, 0, 5].iter().enumerate() {
        vm.insert_value(EngineAddress::from((1, i)), Felt252::from(*v)).unwrap();
    }
    vm.set_ap(3);
    assert_eq!(extract_return_values(&vm, &types, false), Ok(vec![scalar(0), scalar(5)]));
}

#[test]
fn a_signature_that_tells_too_little_is_refused() {
    let mut vm = VirtualMachine::new(false, false);
    vm.add_memory_segment();
    vm.add_memory_segment();
    vm.insert_value(EngineAddress::from((1, 0)), Felt252::from(1u64)).unwrap();
    vm.set_ap(1);
    assert_eq!(extract_return_values(&vm, &vec![], false), Err(Error::NoRetTypesInSignature));
    assert_eq!(
        extract_return_values(&vm, &vec![result_type(Some("t"), None)], false),
        Err(Error::NoTypeSizeForId(9))
    );
    assert_eq!(
        extract_return_values(&vm, &vec![result_type(None, Some(1))], false),
        Err(Error::TypeIdNoDebugName(9))
    );
    assert_eq!(
        extract_return_values(&vm, &vec![result_type(Some("t"), Some(-1))], false),
        Err(Error::FailedToExtractReturnValues)
    );
    let outcome = extract_return_values(&vm, &vec![result_type(None, Some(2))], false);
    assert!(matches!(outcome, Err(Error::Memory(MemoryError::FailedToGetReturnValues(_)))));
    vm.set_ap(3);
    let outcome = extract_return_values(&vm, &vec![result_type(None, Some(2))], false);
    assert!(matches!(outcome, Err(Error::Memory(MemoryError::GetRangeMemoryGap(_)))));
}

#[test]
fn values_are_written_between_brackets() {
    let values = ReturnValueVec(vec![
        ReturnValue::Int(felt(1)),
        ReturnValue::Array(vec![
            ReturnValue::Int(felt(20)),
            ReturnValue::Array(vec![]),
            ReturnValue::Int(felt(300)),
        ]),
        ReturnValue::Int(felt(0)),
    ]);
    assert_eq!(values.to_string(), "[1, [20, [], 300], 0]");
    assert_eq!(ReturnValueVec(vec![]).to_string(), "[]");
    assert_eq!(ReturnValue::Int(felt(18446744073709551615)).to_string(), "18446744073709551615");
    assert_eq!(ReturnValue::Array(vec![ReturnValue::Int(felt(5))]).to_string(), "[5]");
}
