use cairo_lang_casm::hints::{CoreHint, Hint as CasmHint};
use cairo_lang_casm::instructions::{
    AddApInstruction, AssertEqInstruction, CallInstruction, Instruction as CasmInstruction,
    InstructionBody as CasmBody, JumpInstruction, RetInstruction,
};
use cairo_lang_casm::operand::{
    BinOpOperand, CellRef as CasmCell, DerefOrImmediate, Operation, Register as CasmRegister,
    ResOperand,
};
use cairo_lang_utils::bigint::BigIntAsHex;
use cairo_stack::args::FuncArg;
use cairo_stack::builtins::{GenericType, TypeDecl};
use cairo_stack::casm::{
    create_code_footer, create_proof_mode_header, CellRef, Hint, Instruction, InstructionBody,
    Operand, Register,
};
use cairo_stack::entry::create_entry_code;
use cairo_stack::felt::Felt;
use cairo_stack::frame::{build_hints_vec, stream_size};
use cairo_vm::Felt252;

fn cell(cell: &CellRef) -> CasmCell {
    CasmCell {
        register: match cell.register {
            Register::AP => CasmRegister::AP,
            Register::FP => CasmRegister::FP,
        },
        offset: cell.offset,
    }
}

fn constant(value: &Felt) -> BigIntAsHex {
    Felt252::from_bytes_be(&value.to_bytes_be()).to_bigint().into()
}

fn to_casm(instruction: &Instruction) -> CasmInstruction {
    let body = match &instruction.body {
        InstructionBody::AddAp(value) => {
            CasmBody::AddAp(AddApInstruction { operand: ResOperand::Immediate(constant(value)) })
        }
        InstructionBody::AssertEq { a, b } => CasmBody::AssertEq(AssertEqInstruction {
            a: cell(a),
            b: match b {
                Operand::Deref(c) => ResOperand::Deref(cell(c)),
                Operand::DoubleDeref(c, offset) => ResOperand::DoubleDeref(cell(c), *offset),
                Operand::Immediate(value) => ResOperand::Immediate(constant(value)),
                Operand::AddImmediate(c, value) => ResOperand::BinOp(BinOpOperand {
                    op: Operation::Add,
                    a: cell(c),
                    b: DerefOrImmediate::Immediate(constant(value)),
                }),
            },
        }),
        InstructionBody::CallRel(value) => CasmBody::Call(CallInstruction {
            target: DerefOrImmediate::Immediate(constant(value)),
            relative: true,
        }),
        InstructionBody::JumpRel(value) => CasmBody::Jump(JumpInstruction {
            target: DerefOrImmediate::Immediate(constant(value)),
            relative: true,
        }),
        InstructionBody::Ret => CasmBody::Ret(RetInstruction {}),
    };
    let hints = instruction
        .hints
        .iter()
        .map(|hint| match hint {
            Hint::AllocSegment { dst } => CasmHint::from(CoreHint::AllocSegment { dst: cell(dst) }),
        })
        .collect();
    CasmInstruction { body, inc_ap: instruction.inc_ap, hints }
}

fn sample() -> Vec<Instruction> {
    let resource = |name: &str, generic: GenericType| TypeDecl {
        id: 0,
        debug_name: Some(name.to_string()),
        generic: Some(generic),
        size: Some(1),
    };
    let params = vec![
        resource("RangeCheck", GenericType::RangeCheck),
        resource("GasBuiltin", GenericType::GasBuiltin),
        resource("SegmentArena", GenericType::SegmentArena),
        resource("System", GenericType::System),
        resource("Array<felt252>", GenericType::Other),
        resource("felt252", GenericType::Other),
    ];
    let mut params = params;
    params[4].size = Some(2);
    let args = vec![
        FuncArg::Array(vec![Felt::from_usize(7), Felt::from_usize(8)]),
        FuncArg::Single(Felt::from_usize(9)),
    ];
    let (entry, _) = create_entry_code(&params, 100, 5000, true, &args).unwrap();
    let mut code = create_proof_mode_header(true);
    code.extend(entry);
    code.extend(create_code_footer());
    code
}

#[test]
fn the_instructions_read_as_the_assembly_they_stand_for() {
    let text: Vec<String> = sample().iter().map(|i| to_casm(i).to_string()).collect();
    assert_eq!(
        text,
        vec![
            "call rel 4",
            "jmp rel 0",
            "%{ memory[ap + 0] = segments.add() %}\nap += 1",
            "[ap + 0] = 7",
            "[ap + 0] = [[ap + -1] + 0], ap++",
            "[ap + 0] = 8",
            "[ap + 0] = [[ap + -2] + 1], ap++",
            "%{ memory[ap + 0] = segments.add() %}\n%{ memory[ap + 1] = segments.add() %}\nap += 2",
            "[ap + 0] = 0, ap++",
            "[ap + -2] = [[ap + -3] + 0]",
            "[ap + -1] = [[ap + -3] + 1]",
            "[ap + -1] = [[ap + -3] + 2]",
            "[ap + 0] = [fp + -5], ap++",
            "[ap + 0] = 5000, ap++",
            "[ap + 0] = [ap + -5] + 3, ap++",
            "%{ memory[ap + 0] = segments.add() %}\nap += 1",
            "[ap + 0] = [ap + -10], ap++",
            "[ap + 0] = [ap + -1] + 2, ap++",
            "[ap + 0] = 9, ap++",
            "call rel 103",
            "ret",
            "ret",
        ]
    );
}

#[test]
fn every_instruction_takes_the_cells_of_its_encoding() {
    for instruction in sample() {
        let casm = to_casm(&instruction);
        assert_eq!(instruction.body.op_size(), casm.body.op_size());
        assert_eq!(instruction.body.op_size(), casm.assemble().encode().len());
    }
}

#[test]
fn hints_run_at_the_offsets_of_their_instructions() {
    let stream: Vec<(usize, Vec<Hint>)> =
        sample().into_iter().map(|i| (i.body.op_size(), i.hints)).collect();
    assert_eq!(stream_size(&stream), Some(35));
    let ap = |offset: i16| CellRef { register: Register::AP, offset };
    assert_eq!(
        build_hints_vec(stream),
        vec![
            (4, vec![Hint::AllocSegment { dst: ap(0) }]),
            (12, vec![Hint::AllocSegment { dst: ap(0) }, Hint::AllocSegment { dst: ap(1) }]),
            (24, vec![Hint::AllocSegment { dst: ap(0) }]),
        ]
    );
}
