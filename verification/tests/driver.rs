use cairo_stack::builtins::{Builtin, GenericType, TypeDecl};
use cairo_stack::driver::{
    additional_initialization, builtin_from_name, builtin_stop_pointers, find_function,
    sizes_valid,
};
use cairo_stack::error::{Error, MathError};
use cairo_stack::frame::{assemble_stream, build_hints_vec, stream_size};
use cairo_stack::memory::Relocatable;
use cairo_vm::types::relocatable::{MaybeRelocatable as EngineWord, Relocatable as EngineAddress};
use cairo_vm::vm::vm_core::VirtualMachine;
use cairo_vm::Felt252;

fn returned(name: Option<&str>, size: Option<i16>) -> TypeDecl {
    TypeDecl { id: 0, debug_name: name.map(|n| n.to_string()), generic: Some(GenericType::Other), size }
}

#[test]
fn the_builtin_cost_segment_is_set_up() {
    let mut vm = VirtualMachine::new(false, false);
    vm.add_memory_segment();
    vm.add_memory_segment();
    vm.set_pc(EngineAddress::from((0, 4)));
    vm.set_ap(2);
    assert_eq!(additional_initialization(&mut vm, 10), Ok(()));
    assert_eq!(vm.get_pc(), EngineAddress::from((0, 4)));
    assert_eq!(vm.get_ap(), EngineAddress::from((1, 2)));
    for cell in 0..7 {
        assert_eq!(
            vm.get_maybe(&EngineAddress::from((2, cell))),
            Some(EngineWord::Int(Felt252::from(0u64)))
        );
    }
    assert_eq!(vm.get_maybe(&EngineAddress::from((2, 7))), None);
    assert_eq!(
        vm.get_maybe(&EngineAddress::from((0, 14))),
        Some(EngineWord::RelocatableValue(EngineAddress::from((2, 0))))
    );
    assert_eq!(vm.get_maybe(&EngineAddress::from((0, 13))), None);
}

#[test]
fn a_cell_behind_the_program_beyond_the_machine_word_is_an_address_error() {
    let mut vm = VirtualMachine::new(false, false);
    vm.add_memory_segment();
    vm.set_pc(EngineAddress::from((0, 2)));
    let pc = Relocatable { segment_index: 0, offset: 2 };
    assert_eq!(
        additional_initialization(&mut vm, usize::MAX),
        Err(Error::Math(MathError::RelocatableAddUsizeOffsetExceeded(pc, usize::MAX)))
    );
}

#[test]
fn a_write_that_the_engine_refuses_is_its_error() {
    let mut vm = VirtualMachine::new(false, false);
    vm.add_memory_segment();
    vm.set_pc(EngineAddress::from((5, 0)));
    assert!(matches!(additional_initialization(&mut vm, 3), Err(Error::Memory(_))));
}

#[test]
fn the_first_function_with_the_suffix_is_found() {
    let names = vec![
        Some("lib::main_helper".to_string()),
        None,
        Some("app::main".to_string()),
        Some("other::main".to_string()),
    ];
    assert_eq!(find_function(&names, "::main"), Ok(2));
    assert_eq!(find_function(&names, "helper"), Ok(0));
    assert_eq!(find_function(&names, "app::main"), Ok(2));
    assert_eq!(find_function(&names, ""), Ok(0));
    assert_eq!(find_function(&names, "::missing"), Err(Error::MissingMain));
    assert_eq!(find_function(&names, "much::longer::than::any::name"), Err(Error::MissingMain));
    assert_eq!(find_function(&vec![], "::main"), Err(Error::MissingMain));
}

#[test]
fn return_types_name_their_builtins() {
    assert_eq!(builtin_from_name(&"RangeCheck".to_string()), Some(Builtin::RangeCheck));
    assert_eq!(builtin_from_name(&"Poseidon".to_string()), Some(Builtin::Poseidon));
    assert_eq!(builtin_from_name(&"EcOp".to_string()), Some(Builtin::EcOp));
    assert_eq!(builtin_from_name(&"Bitwise".to_string()), Some(Builtin::Bitwise));
    assert_eq!(builtin_from_name(&"Pedersen".to_string()), Some(Builtin::Pedersen));
    assert_eq!(builtin_from_name(&"Output".to_string()), Some(Builtin::Output));
    assert_eq!(builtin_from_name(&"Ecdsa".to_string()), Some(Builtin::Ecdsa));
    assert_eq!(builtin_from_name(&"felt252".to_string()), None);
}

#[test]
fn stop_pointers_lie_where_the_builtins_were_returned() {
    let types = vec![
        returned(Some("RangeCheck"), Some(1)),
        returned(Some("core::felt252"), Some(1)),
        returned(None, Some(3)),
        returned(Some("Poseidon"), Some(1)),
        returned(Some("Unknown"), None),
        returned(Some("core::panics::PanicResult::<()>"), Some(3)),
    ];
    assert!(sizes_valid(&types));
    let ap = Relocatable { segment_index: 1, offset: 20 };
    assert_eq!(
        builtin_stop_pointers(&types, ap),
        Ok(vec![
            (Builtin::RangeCheck, Relocatable { segment_index: 1, offset: 12 }),
            (Builtin::Poseidon, Relocatable { segment_index: 1, offset: 17 }),
        ])
    );
    let low = Relocatable { segment_index: 1, offset: 7 };
    assert_eq!(
        builtin_stop_pointers(&types, low),
        Err(Error::Math(MathError::RelocatableSubUsizeNegOffset(low, 8)))
    );
    assert_eq!(builtin_stop_pointers(&vec![], ap), Ok(vec![]));
}

#[test]
fn sizes_that_do_not_fit_are_told() {
    assert!(!sizes_valid(&vec![returned(None, Some(-1))]));
    assert!(!sizes_valid(&vec![returned(None, Some(i16::MAX)), returned(None, Some(1))]));
    assert!(sizes_valid(&vec![returned(None, Some(i16::MAX)), returned(None, None)]));
}

#[test]
fn hints_are_tabled_by_the_offset_of_their_instruction() {
    let stream = vec![
        (2usize, vec![]),
        (2, vec!["a"]),
        (1, vec![]),
        (1, vec!["b", "c"]),
        (2, vec![]),
        (1, vec!["d"]),
    ];
    assert_eq!(stream_size(&stream), Some(9));
    assert_eq!(
        build_hints_vec(stream),
        vec![(2usize, vec!["a"]), (5, vec!["b", "c"]), (8, vec!["d"])]
    );
    assert_eq!(build_hints_vec(Vec::<(usize, Vec<u8>)>::new()), vec![]);
    assert_eq!(stream_size(&vec![(usize::MAX, vec![1u8]), (1, vec![])]), None);
}

#[test]
fn the_program_is_header_entry_body_footer() {
    assert_eq!(
        assemble_stream(vec![1, 2], vec![3], vec![4, 5, 6], vec![7]),
        vec![1, 2, 3, 4, 5, 6, 7]
    );
    assert_eq!(assemble_stream(vec![], vec![3], vec![], vec![7]), vec![3, 7]);
}
