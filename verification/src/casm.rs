//! The machine instructions that the synthesizer emits, as plain data.

use vstd::prelude::*;
use crate::felt::Felt;

verus! {

/// A register that a cell is addressed from.
#[derive(Clone, Copy, Debug, PartialEq, Eq, Hash, Structural)]
pub enum Register {
    AP,
    FP,
}

/// The memory cell at `[register + offset]`.
#[derive(Clone, Copy, Debug, PartialEq, Eq, Hash, Structural)]
pub struct CellRef {
    pub register: Register,
    pub offset: i16,
}

/// The right-hand side of an assertion.
#[derive(Clone, Copy, Debug, PartialEq, Eq, Hash)]
pub enum Operand {
    /// `[cell]`
    Deref(CellRef),
    /// `[[cell] + offset]`
    DoubleDeref(CellRef, i16),
    /// A constant.
    Immediate(Felt),
    /// `[cell] + constant`
    AddImmediate(CellRef, Felt),
}

/// What an instruction does.
#[derive(Clone, Copy, Debug, PartialEq, Eq, Hash)]
pub enum InstructionBody {
    /// `ap += constant`
    AddAp(Felt),
    /// `[a] = b`
    AssertEq { a: CellRef, b: Operand },
    /// `call rel constant`
    CallRel(Felt),
    /// `jmp rel constant`
    JumpRel(Felt),
    /// `ret`
    Ret,
}

/// A request to the engine that is attached to an instruction.
#[derive(Clone, Copy, Debug, PartialEq, Eq, Hash, Structural)]
pub enum Hint {
    /// Allocate a fresh memory segment and store its address in `dst`.
    AllocSegment { dst: CellRef },
}

/// An instruction with its `ap++` flag and the hints that run before it.
#[derive(Clone, Debug, PartialEq, Eq, Hash)]
pub struct Instruction {
    pub body: InstructionBody,
    pub inc_ap: bool,
    pub hints: Vec<Hint>,
}

/// The model of an `Operand`.
pub enum OperandView {
    Deref(CellRef),
    DoubleDeref(CellRef, i16),
    Immediate(nat),
    AddImmediate(CellRef, nat),
}

/// The model of an `InstructionBody`.
pub enum BodyView {
    AddAp(nat),
    AssertEq { a: CellRef, b: OperandView },
    CallRel(nat),
    JumpRel(nat),
    Ret,
}

/// The model of an `Instruction`.
pub struct InstructionView {
    pub body: BodyView,
    pub inc_ap: bool,
    pub hints: Seq<Hint>,
}

impl View for Operand {
    type V = OperandView;

    open spec fn view(&self) -> OperandView {
        match *self {
            Operand::Deref(c) => OperandView::Deref(c),
            Operand::DoubleDeref(c, o) => OperandView::DoubleDeref(c, o),
            Operand::Immediate(f) => OperandView::Immediate(f@),
            Operand::AddImmediate(c, f) => OperandView::AddImmediate(c, f@),
        }
    }
}

impl View for InstructionBody {
    type V = BodyView;

    open spec fn view(&self) -> BodyView {
        match *self {
            InstructionBody::AddAp(f) => BodyView::AddAp(f@),
            InstructionBody::AssertEq { a, b } => BodyView::AssertEq { a, b: b@ },
            InstructionBody::CallRel(f) => BodyView::CallRel(f@),
            InstructionBody::JumpRel(f) => BodyView::JumpRel(f@),
            InstructionBody::Ret => BodyView::Ret,
        }
    }
}

impl View for Instruction {
    type V = InstructionView;

    open spec fn view(&self) -> InstructionView {
        InstructionView { body: self.body@, inc_ap: self.inc_ap, hints: self.hints@ }
    }
}

/// The models of a sequence of instructions.
pub open spec fn code_view(s: Seq<Instruction>) -> Seq<InstructionView> {
    s.map_values(|i: Instruction| i@)
}

/// The cell `[ap + offset]`.
pub open spec fn ap_cell(offset: int) -> CellRef {
    CellRef { register: Register::AP, offset: offset as i16 }
}

/// The cell `[fp + offset]`.
pub open spec fn fp_cell(offset: int) -> CellRef {
    CellRef { register: Register::FP, offset: offset as i16 }
}

/// `[a] = b`, with or without `ap++`, and no hint.
pub open spec fn assert_cell(a: CellRef, b: OperandView, inc_ap: bool) -> InstructionView {
    InstructionView { body: BodyView::AssertEq { a, b }, inc_ap, hints: Seq::empty() }
}

/// `ap += 1` after a hint that stores a fresh segment's address in `[ap + 0]`.
pub open spec fn alloc_segment() -> InstructionView {
    InstructionView {
        body: BodyView::AddAp(1),
        inc_ap: false,
        hints: seq![Hint::AllocSegment { dst: ap_cell(0) }],
    }
}

/// `call rel target`.
pub open spec fn call_rel(target: nat) -> InstructionView {
    InstructionView { body: BodyView::CallRel(target), inc_ap: false, hints: Seq::empty() }
}

/// `jmp rel target`.
pub open spec fn jump_rel(target: nat) -> InstructionView {
    InstructionView { body: BodyView::JumpRel(target), inc_ap: false, hints: Seq::empty() }
}

/// `ret`.
pub open spec fn ret() -> InstructionView {
    InstructionView { body: BodyView::Ret, inc_ap: false, hints: Seq::empty() }
}

/// The number of memory cells that an instruction's encoding takes: two where
/// it carries a constant, one where it does not.
pub open spec fn op_size(body: BodyView) -> nat {
    match body {
        BodyView::AddAp(_) => 2,
        BodyView::AssertEq { a, b } => match b {
            OperandView::Deref(_) => 1,
            OperandView::DoubleDeref(_, _) => 1,
            OperandView::Immediate(_) => 2,
            OperandView::AddImmediate(_, _) => 2,
        },
        BodyView::CallRel(_) => 2,
        BodyView::JumpRel(_) => 2,
        BodyView::Ret => 1,
    }
}

/// The number of memory cells that a sequence of instructions takes.
pub open spec fn code_size(code: Seq<InstructionView>) -> nat
    decreases code.len(),
{
    if code.len() == 0 {
        0
    } else {
        code_size(code.drop_last()) + op_size(code.last().body)
    }
}

impl CellRef {
    /// The cell `[ap + offset]`.
    pub fn ap(offset: i16) -> (r: CellRef)
        ensures
            r == ap_cell(offset as int),
    {
        CellRef { register: Register::AP, offset }
    }

    /// The cell `[fp + offset]`.
    pub fn fp(offset: i16) -> (r: CellRef)
        ensures
            r == fp_cell(offset as int),
    {
        CellRef { register: Register::FP, offset }
    }
}

impl InstructionBody {
    /// The number of memory cells that the instruction's encoding takes.
    pub fn op_size(&self) -> (r: usize)
        ensures
            r == op_size(self@),
    {
        match self {
            InstructionBody::AddAp(_) => 2,
            InstructionBody::AssertEq { a: _, b } => match b {
                Operand::Deref(_) => 1,
                Operand::DoubleDeref(_, _) => 1,
                Operand::Immediate(_) => 2,
                Operand::AddImmediate(_, _) => 2,
            },
            InstructionBody::CallRel(_) => 2,
            InstructionBody::JumpRel(_) => 2,
            InstructionBody::Ret => 1,
        }
    }
}

impl Instruction {
    /// An instruction without hints.
    pub fn new(body: InstructionBody, inc_ap: bool) -> (r: Instruction)
        ensures
            r@ == (InstructionView { body: body@, inc_ap, hints: Seq::empty() }),
    {
        Instruction { body, inc_ap, hints: Vec::new() }
    }

    /// `[a] = b`, with or without `ap++`.
    pub fn assert_cell(a: CellRef, b: Operand, inc_ap: bool) -> (r: Instruction)
        ensures
            r@ == assert_cell(a, b@, inc_ap),
    {
        Instruction::new(InstructionBody::AssertEq { a, b }, inc_ap)
    }

    /// `ap += 1` after a hint that stores a fresh segment's address in
    /// `[ap + 0]`.
    pub fn alloc_segment() -> (r: Instruction)
        ensures
            r@ == alloc_segment(),
    {
        let mut hints: Vec<Hint> = Vec::new();
        hints.push(Hint::AllocSegment { dst: CellRef::ap(0) });
        let body = InstructionBody::AddAp(Felt::from_usize(1));
        let r = Instruction { body, inc_ap: false, hints };
        assert(r@.hints =~= alloc_segment().hints);
        r
    }

    /// `call rel target`.
    pub fn call_rel(target: usize) -> (r: Instruction)
        ensures
            r@ == call_rel(target as nat),
    {
        Instruction::new(InstructionBody::CallRel(Felt::from_usize(target)), false)
    }

    /// `jmp rel target`.
    pub fn jump_rel(target: usize) -> (r: Instruction)
        ensures
            r@ == jump_rel(target as nat),
    {
        Instruction::new(InstructionBody::JumpRel(Felt::from_usize(target)), false)
    }

    /// `ret`.
    pub fn ret() -> (r: Instruction)
        ensures
            r@ == ret(),
    {
        Instruction::new(InstructionBody::Ret, false)
    }
}

/// Appends an instruction to a sequence under construction.
pub fn emit(code: &mut Vec<Instruction>, instruction: Instruction)
    ensures
        code_view(final(code)@) == code_view(old(code)@).push(instruction@),
{
    code.push(instruction);
    assert(code_view(code@) =~= code_view(old(code)@).push(instruction@));
}

/// The two instructions that open a program run in proof mode,
/// `call rel 4; jmp rel 0`, or nothing outside proof mode.
pub open spec fn proof_mode_header(proof_mode: bool) -> Seq<InstructionView> {
    if proof_mode {
        seq![call_rel(4), jump_rel(0)]
    } else {
        Seq::empty()
    }
}

/// The instruction that closes every program, `ret`.
pub open spec fn code_footer() -> Seq<InstructionView> {
    seq![ret()]
}

/// The instructions that stand before the entry code: in proof mode the
/// canonical pair `call rel 4; jmp rel 0`, otherwise none.
pub fn create_proof_mode_header(proof_mode: bool) -> (r: Vec<Instruction>)
    ensures
        code_view(r@) == proof_mode_header(proof_mode),
{
    let mut code: Vec<Instruction> = Vec::new();
    assert(code_view(code@) =~= Seq::empty());
    if proof_mode {
        emit(&mut code, Instruction::call_rel(4));
        emit(&mut code, Instruction::jump_rel(0));
        assert(code_view(code@) =~= proof_mode_header(true));
    }
    code
}

/// The instructions that stand after the program's own: a single `ret`, which
/// library code uses to read the program counter and the frame pointer.
pub fn create_code_footer() -> (r: Vec<Instruction>)
    ensures
        code_view(r@) == code_footer(),
{
    let mut code: Vec<Instruction> = Vec::new();
    assert(code_view(code@) =~= Seq::empty());
    emit(&mut code, Instruction::ret());
    assert(code_view(code@) =~= code_footer());
    code
}


/// The offset at which a program run in proof mode starts: its first cell.
pub const PROOF_MODE_START: usize = 0;

/// The offset at which a program run in proof mode ends: the `jmp rel 0`
/// of its header, which the engine runs forever.
pub const PROOF_MODE_END: usize = 2;

/// The header's `jmp rel 0` stands behind the two cells of `call rel 4`,
/// and the header takes four cells, which the call jumps over.
pub proof fn lemma_header_layout()
    ensures
        code_size(proof_mode_header(true).take(1)) == PROOF_MODE_END,
        proof_mode_header(true)[1] == jump_rel(0),
        code_size(proof_mode_header(true)) == 4,
{
    reveal_with_fuel(code_size, 3);
    let header = proof_mode_header(true);
    assert(header.take(1).drop_last() =~= Seq::<InstructionView>::empty());
    assert(header.drop_last() =~= header.take(1));
}

} // verus!
