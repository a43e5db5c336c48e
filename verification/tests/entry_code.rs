use cairo_stack::args::{process_args, FuncArg};
use cairo_stack::builtins::{Builtin, GenericType, TypeDecl};
use cairo_stack::casm::{
    create_code_footer, create_proof_mode_header, CellRef, Hint, Instruction, InstructionBody,
    Operand, Register, PROOF_MODE_END, PROOF_MODE_START,
};
use cairo_stack::decode::{fetch_arrays_from_memory, ReturnValue, ReturnValueVec};
use cairo_stack::entry::{create_entry_code, frame_fits};
use cairo_stack::error::Error;
use cairo_stack::felt::Felt;
use cairo_stack::memory::MaybeRelocatable;
use cairo_vm::vm::vm_core::VirtualMachine;

const GAS: usize = 9999999999999;

fn felt(n: usize) -> Felt {
    Felt::from_usize(n)
}

fn value_type(id: u64, size: i16) -> TypeDecl {
    TypeDecl {
        id,
        debug_name: Some(format!("t{}", id)),
        generic: Some(GenericType::Other),
        size: Some(size),
    }
}

fn resource(id: u64, name: &str, generic: GenericType) -> TypeDecl {
    TypeDecl { id, debug_name: Some(name.to_string()), generic: Some(generic), size: Some(1) }
}

fn ap(offset: i16) -> CellRef {
    CellRef { register: Register::AP, offset }
}

fn fp(offset: i16) -> CellRef {
    CellRef { register: Register::FP, offset }
}

fn write(a: CellRef, b: Operand, inc_ap: bool) -> Instruction {
    Instruction { body: InstructionBody::AssertEq { a, b }, inc_ap, hints: vec![] }
}

fn push(value: usize) -> Instruction {
    write(ap(0), Operand::Immediate(felt(value)), true)
}

fn alloc_segment() -> Instruction {
    Instruction {
        body: InstructionBody::AddAp(felt(1)),
        inc_ap: false,
        hints: vec![Hint::AllocSegment { dst: ap(0) }],
    }
}

fn call_and_ret(target: usize) -> Vec<Instruction> {
    vec![
        Instruction { body: InstructionBody::CallRel(felt(target)), inc_ap: false, hints: vec![] },
        Instruction { body: InstructionBody::Ret, inc_ap: false, hints: vec![] },
    ]
}

fn synthesize(
    params: &Vec<TypeDecl>,
    args: &Vec<FuncArg>,
    proof_mode: bool,
) -> Result<(Vec<Instruction>, Vec<Builtin>), Error> {
    assert!(frame_fits(params, args));
    create_entry_code(params, 10, GAS, proof_mode, args)
}

#[test]
fn range_check_and_one_scalar() {
    let params = vec![resource(0, "RangeCheck", GenericType::RangeCheck), value_type(1, 1)];
    let args = process_args("5").unwrap().0;
    let (code, builtins) = synthesize(&params, &args, true).unwrap();
    let mut expected = vec![write(ap(0), Operand::Deref(fp(-5)), true), push(5)];
    expected.extend(call_and_ret(13));
    assert_eq!(code, expected);
    assert_eq!(builtins, vec![Builtin::RangeCheck]);

    let vm = VirtualMachine::new(false, false);
    assert_eq!(
        fetch_arrays_from_memory(&vm, vec![MaybeRelocatable::Int(felt(5))]),
        Ok(ReturnValueVec(vec![ReturnValue::Int(felt(5))]))
    );
}

#[test]
fn scalars_fill_scalar_parameters_one_write_each() {
    let params = vec![value_type(1, 1), value_type(2, 1), value_type(3, 1)];
    let args = vec![FuncArg::Single(felt(7)), FuncArg::Single(felt(8)), FuncArg::Single(felt(9))];
    let (code, builtins) = synthesize(&params, &args, true).unwrap();
    let mut expected = vec![push(7), push(8), push(9)];
    expected.extend(call_and_ret(13));
    assert_eq!(code, expected);
    assert_eq!(builtins, vec![]);
}

#[test]
fn no_parameters_and_no_arguments() {
    let (code, builtins) = synthesize(&vec![], &vec![], false).unwrap();
    assert_eq!(code, call_and_ret(13));
    assert_eq!(builtins, vec![]);
}

#[test]
fn arrays_are_staged_before_the_parameters_are_filled() {
    let params = vec![value_type(1, 1), value_type(2, 2), value_type(3, 2)];
    let args = vec![
        FuncArg::Single(felt(4)),
        FuncArg::Array(vec![felt(7), felt(8)]),
        FuncArg::Array(vec![felt(9)]),
    ];
    let (code, _) = synthesize(&params, &args, true).unwrap();
    let mut expected = vec![
        alloc_segment(),
        write(ap(0), Operand::Immediate(felt(7)), false),
        write(ap(0), Operand::DoubleDeref(ap(-1), 0), true),
        write(ap(0), Operand::Immediate(felt(8)), false),
        write(ap(0), Operand::DoubleDeref(ap(-2), 1), true),
        alloc_segment(),
        write(ap(0), Operand::Immediate(felt(9)), false),
        write(ap(0), Operand::DoubleDeref(ap(-1), 0), true),
        push(4),
        write(ap(0), Operand::Deref(ap(-6)), true),
        write(ap(0), Operand::AddImmediate(ap(-1), felt(2)), true),
        write(ap(0), Operand::Deref(ap(-5)), true),
        write(ap(0), Operand::AddImmediate(ap(-1), felt(1)), true),
    ];
    expected.extend(call_and_ret(13));
    assert_eq!(code, expected);
}

#[test]
fn one_parameter_can_take_several_arguments() {
    let params = vec![value_type(1, 4)];
    let args = vec![
        FuncArg::Single(felt(1)),
        FuncArg::Array(vec![felt(2), felt(3)]),
        FuncArg::Single(felt(4)),
    ];
    let (code, _) = synthesize(&params, &args, false).unwrap();
    assert_eq!(code.len(), 5 + 1 + 2 + 1 + 2);
    assert_eq!(code[5], push(1));
    assert_eq!(code[6], write(ap(0), Operand::Deref(ap(-4)), true));
    assert_eq!(code[7], write(ap(0), Operand::AddImmediate(ap(-1), felt(2)), true));
    assert_eq!(code[8], push(4));
}

#[test]
fn resources_are_set_up_in_the_order_of_the_signature() {
    let params = vec![
        resource(0, "GasBuiltin", GenericType::GasBuiltin),
        resource(1, "SegmentArena", GenericType::SegmentArena),
        resource(2, "System", GenericType::System),
        value_type(3, 1),
        resource(4, "SegmentArena", GenericType::SegmentArena),
    ];
    let args = vec![FuncArg::Single(felt(6))];
    let (code, builtins) = synthesize(&params, &args, true).unwrap();
    let mut expected = vec![
        Instruction {
            body: InstructionBody::AddAp(felt(2)),
            inc_ap: false,
            hints: vec![Hint::AllocSegment { dst: ap(0) }, Hint::AllocSegment { dst: ap(1) }],
        },
        push(0),
        write(ap(-2), Operand::DoubleDeref(ap(-3), 0), false),
        write(ap(-1), Operand::DoubleDeref(ap(-3), 1), false),
        write(ap(-1), Operand::DoubleDeref(ap(-3), 2), false),
        push(GAS),
        write(ap(0), Operand::AddImmediate(ap(-4), felt(3)), true),
        alloc_segment(),
        push(6),
        write(ap(0), Operand::AddImmediate(ap(-7), felt(3)), true),
    ];
    expected.extend(call_and_ret(13));
    assert_eq!(code, expected);
    assert_eq!(builtins, vec![]);
}

#[test]
fn the_arena_lies_behind_the_staged_arrays() {
    let params = vec![resource(1, "SegmentArena", GenericType::SegmentArena), value_type(2, 2)];
    let args = vec![FuncArg::Array(vec![felt(1), felt(2)])];
    let (code, _) = synthesize(&params, &args, true).unwrap();
    assert_eq!(code[10], write(ap(0), Operand::AddImmediate(ap(-3), felt(3)), true));
    assert_eq!(code[11], write(ap(0), Operand::Deref(ap(-7)), true));
    assert_eq!(code[12], write(ap(0), Operand::AddImmediate(ap(-1), felt(2)), true));
}

#[test]
fn builtins_are_copied_from_the_frame() {
    let params = vec![
        resource(0, "Pedersen", GenericType::Pedersen),
        resource(1, "RangeCheck", GenericType::RangeCheck),
        resource(2, "Poseidon", GenericType::Poseidon),
        resource(3, "Bitwise", GenericType::Bitwise),
        resource(4, "EcOp", GenericType::EcOp),
    ];
    let (code, builtins) = synthesize(&params, &vec![], true).unwrap();
    let mut expected = vec![
        write(ap(0), Operand::Deref(fp(-9)), true),
        write(ap(0), Operand::Deref(fp(-8)), true),
        write(ap(0), Operand::Deref(fp(-5)), true),
        write(ap(0), Operand::Deref(fp(-7)), true),
        write(ap(0), Operand::Deref(fp(-6)), true),
    ];
    expected.extend(call_and_ret(13));
    assert_eq!(code, expected);
    assert_eq!(
        builtins,
        vec![
            Builtin::Pedersen,
            Builtin::RangeCheck,
            Builtin::Bitwise,
            Builtin::EcOp,
            Builtin::Poseidon,
        ]
    );
    let (code, _) = synthesize(&params, &vec![], false).unwrap();
    assert_eq!(code[0], write(ap(0), Operand::Deref(fp(-7)), true));
    assert_eq!(code[2], write(ap(0), Operand::Deref(fp(-3)), true));
}

#[test]
fn a_builtin_that_is_not_declared_by_name_is_an_ordinary_value() {
    let params = vec![TypeDecl {
        id: 3,
        debug_name: None,
        generic: Some(GenericType::Bitwise),
        size: Some(1),
    }];
    let args = vec![FuncArg::Single(felt(2))];
    let (code, builtins) = synthesize(&params, &args, true).unwrap();
    assert_eq!(code[0], push(2));
    assert_eq!(builtins, vec![]);
}

#[test]
fn scalar_for_an_array_parameter_is_a_size_mismatch() {
    let params = vec![value_type(7, 2)];
    let args = vec![FuncArg::Single(felt(1))];
    assert_eq!(
        synthesize(&params, &args, true),
        Err(Error::ArgumentsSizeMismatch { expected: 2, actual: 1 })
    );
}

#[test]
fn array_for_a_scalar_parameter_is_unaligned() {
    let params = vec![value_type(7, 1)];
    let args = vec![FuncArg::Array(vec![felt(1), felt(2)])];
    assert_eq!(
        synthesize(&params, &args, true),
        Err(Error::ArgumentUnaligned { param_index: 0, arg_index: 0 })
    );
}

#[test]
fn an_array_may_not_lie_across_two_parameters() {
    let params = vec![
        resource(0, "RangeCheck", GenericType::RangeCheck),
        value_type(1, 1),
        value_type(2, 2),
        value_type(3, 1),
    ];
    let args = vec![
        FuncArg::Single(felt(1)),
        FuncArg::Single(felt(2)),
        FuncArg::Array(vec![felt(3), felt(4)]),
    ];
    assert_eq!(
        synthesize(&params, &args, true),
        Err(Error::ArgumentUnaligned { param_index: 1, arg_index: 2 })
    );
}

#[test]
fn too_few_and_too_many_arguments_are_size_mismatches() {
    let params = vec![value_type(1, 1), value_type(2, 2)];
    assert_eq!(
        synthesize(&params, &vec![FuncArg::Single(felt(1))], true),
        Err(Error::ArgumentsSizeMismatch { expected: 3, actual: 1 })
    );
    assert_eq!(
        synthesize(&params, &vec![], true),
        Err(Error::ArgumentsSizeMismatch { expected: 3, actual: 0 })
    );
    let many = vec![
        FuncArg::Single(felt(1)),
        FuncArg::Array(vec![felt(2), felt(3)]),
        FuncArg::Single(felt(4)),
    ];
    assert_eq!(
        synthesize(&params, &many, true),
        Err(Error::ArgumentsSizeMismatch { expected: 3, actual: 4 })
    );
}

#[test]
fn a_type_that_the_program_does_not_describe_is_refused() {
    let unknown = TypeDecl { id: 41, debug_name: None, generic: None, size: Some(1) };
    let unsized_value =
        TypeDecl { id: 42, debug_name: None, generic: Some(GenericType::Other), size: None };
    let args = vec![FuncArg::Single(felt(1))];
    assert_eq!(
        synthesize(&vec![value_type(1, 1), unknown.clone()], &args, true),
        Err(Error::NoInfoForType(41))
    );
    assert_eq!(
        synthesize(&vec![unsized_value.clone(), unknown.clone()], &args, true),
        Err(Error::NoTypeSizeForId(42))
    );
    assert_eq!(
        synthesize(&vec![unknown, unsized_value], &args, true),
        Err(Error::NoInfoForType(41))
    );
}

#[test]
fn a_frame_beyond_16_bit_offsets_does_not_fit() {
    let params = vec![value_type(1, 2)];
    let fits = vec![FuncArg::Array(vec![felt(0); 32757])];
    assert!(frame_fits(&params, &fits));
    assert!(create_entry_code(&params, 0, GAS, true, &fits).is_ok());
    let too_long = vec![FuncArg::Array(vec![felt(0); 32758])];
    assert!(!frame_fits(&params, &too_long));
    assert!(!frame_fits(&vec![value_type(1, i16::MAX)], &vec![]));
    assert!(!frame_fits(&vec![value_type(1, i16::MIN)], &vec![]));
    assert!(frame_fits(&vec![value_type(1, 32762)], &vec![]));
    assert!(!frame_fits(&vec![value_type(1, 32763)], &vec![]));
}

#[test]
fn header_and_footer_are_fixed() {
    let header = create_proof_mode_header(true);
    assert_eq!(
        header,
        vec![
            Instruction { body: InstructionBody::CallRel(felt(4)), inc_ap: false, hints: vec![] },
            Instruction { body: InstructionBody::JumpRel(felt(0)), inc_ap: false, hints: vec![] },
        ]
    );
    assert_eq!(create_proof_mode_header(false), vec![]);
    assert_eq!(
        create_code_footer(),
        vec![Instruction { body: InstructionBody::Ret, inc_ap: false, hints: vec![] }]
    );
    assert_eq!(PROOF_MODE_START, 0);
    assert_eq!(PROOF_MODE_END, header[0].body.op_size());
}

#[test]
fn an_instruction_with_a_constant_takes_two_cells() {
    assert_eq!(InstructionBody::AddAp(felt(1)).op_size(), 2);
    assert_eq!(InstructionBody::CallRel(felt(1)).op_size(), 2);
    assert_eq!(InstructionBody::JumpRel(felt(1)).op_size(), 2);
    assert_eq!(InstructionBody::Ret.op_size(), 1);
    assert_eq!(push(3).body.op_size(), 2);
    assert_eq!(write(ap(0), Operand::AddImmediate(ap(-1), felt(2)), true).body.op_size(), 2);
    assert_eq!(write(ap(0), Operand::Deref(fp(-3)), true).body.op_size(), 1);
    assert_eq!(write(ap(0), Operand::DoubleDeref(ap(-3), 2), true).body.op_size(), 1);
    let pair: usize = call_and_ret(5).iter().map(|i| i.body.op_size()).sum();
    assert_eq!(pair, 3);
}
