//! The entry code: the instructions that place the arguments, the builtin
//! pointers and the other resources of the main function on the stack and
//! then call it.

use vstd::prelude::*;
use crate::args::{args_view, ArgView, FuncArg};
use crate::builtins::{
    builtin_offset, decls_view, get_function_builtins, required_builtins, Builtin, BuiltinOffsets,
    GenericType, TypeDecl, TypeDeclView,
};
use crate::casm::{
    alloc_segment, ap_cell, assert_cell, call_rel, code_view, emit, fp_cell, ret, BodyView, CellRef,
    Hint, Instruction, InstructionBody, InstructionView, Operand, OperandView,
};
use crate::error::Error;
use crate::felt::{felt_values, Felt};

verus! {

/// The number of cells that the call instruction itself takes; the callee's
/// code offset is counted from behind it.
pub const FINAL_CALL_SIZE: usize = 3;

/// The number of stack cells that staging an argument takes: for an array
/// its segment pointer and one cell per element, for a scalar none.
pub open spec fn staged_cells(arg: ArgView) -> int {
    match arg {
        ArgView::Array(values) => 1 + values.len() as int,
        ArgView::Single(_) => 0,
    }
}

/// The number of stack cells that staging all of `args` takes.
pub open spec fn staged_size(args: Seq<ArgView>) -> int
    decreases args.len(),
{
    if args.len() == 0 {
        0
    } else {
        staged_size(args.drop_last()) + staged_cells(args.last())
    }
}

/// The two instructions that store element `i` of an array in its segment:
/// `[ap + 0] = value; [ap + 0] = [[ap - (i + 1)] + i], ap++`.
pub open spec fn store_element(value: nat, i: int) -> Seq<InstructionView> {
    seq![
        assert_cell(ap_cell(0), OperandView::Immediate(value), false),
        assert_cell(ap_cell(0), OperandView::DoubleDeref(ap_cell(-(i + 1)), i as i16), true),
    ]
}

/// The instructions that store all elements of an array in its segment.
pub open spec fn store_elements(values: Seq<nat>) -> Seq<InstructionView>
    decreases values.len(),
{
    if values.len() == 0 {
        Seq::empty()
    } else {
        store_elements(values.drop_last()) + store_element(values.last(), values.len() - 1)
    }
}

/// The instructions that stage one argument: for an array, the allocation of
/// its segment and the stores of its elements; for a scalar, none.
pub open spec fn stage_arg(arg: ArgView) -> Seq<InstructionView> {
    match arg {
        ArgView::Array(values) => seq![alloc_segment()] + store_elements(values),
        ArgView::Single(_) => Seq::empty(),
    }
}

/// The instructions that stage all array arguments, in the arguments' order.
pub open spec fn staging_code(args: Seq<ArgView>) -> Seq<InstructionView>
    decreases args.len(),
{
    if args.len() == 0 {
        Seq::empty()
    } else {
        staging_code(args.drop_last()) + stage_arg(args.last())
    }
}

/// Whether one of the parameters is the segment arena.
pub open spec fn has_arena(params: Seq<TypeDeclView>) -> bool {
    exists|i: int|
        0 <= i < params.len() && (#[trigger] params[i]).generic == Some(GenericType::SegmentArena)
}

/// The five instructions that set up the segment arena: two fresh segments,
/// a zero counter, and the infos pointer and two zero counters written into
/// the arena's first three cells.
pub open spec fn arena_preamble() -> Seq<InstructionView> {
    seq![
        InstructionView {
            body: BodyView::AddAp(2),
            inc_ap: false,
            hints: seq![
                Hint::AllocSegment { dst: ap_cell(0) },
                Hint::AllocSegment { dst: ap_cell(1) },
            ],
        },
        assert_cell(ap_cell(0), OperandView::Immediate(0), true),
        assert_cell(ap_cell(-2), OperandView::DoubleDeref(ap_cell(-3), 0), false),
        assert_cell(ap_cell(-1), OperandView::DoubleDeref(ap_cell(-3), 1), false),
        assert_cell(ap_cell(-1), OperandView::DoubleDeref(ap_cell(-3), 2), false),
    ]
}

/// `[ap + 0] = [fp - offset], ap++`: the copy of a builtin pointer.
pub open spec fn copy_builtin(offset: int) -> InstructionView {
    assert_cell(ap_cell(0), OperandView::Deref(fp_cell(-offset)), true)
}

/// `[ap + 0] = value, ap++`: the push of a constant.
pub open spec fn push_scalar(value: nat) -> InstructionView {
    assert_cell(ap_cell(0), OperandView::Immediate(value), true)
}

/// `[ap + 0] = [ap + back] + 3, ap++`: the arena pointer behind its preamble.
pub open spec fn arena_pointer(back: int) -> InstructionView {
    assert_cell(ap_cell(0), OperandView::AddImmediate(ap_cell(back), 3), true)
}

/// `[ap + 0] = [ap + back], ap++; [ap + 0] = [ap - 1] + len, ap++`: the start
/// and the end of a staged array.
pub open spec fn array_pair(back: int, len: nat) -> Seq<InstructionView> {
    seq![
        assert_cell(ap_cell(0), OperandView::Deref(ap_cell(back)), true),
        assert_cell(ap_cell(0), OperandView::AddImmediate(ap_cell(-1), len), true),
    ]
}

/// The builtin that a generic type stands for, if it stands for one.
pub open spec fn builtin_of(g: GenericType) -> Option<Builtin> {
    match g {
        GenericType::Poseidon => Some(Builtin::Poseidon),
        GenericType::EcOp => Some(Builtin::EcOp),
        GenericType::Bitwise => Some(Builtin::Bitwise),
        GenericType::RangeCheck => Some(Builtin::RangeCheck),
        GenericType::Pedersen => Some(Builtin::Pedersen),
        _ => None,
    }
}

/// The frame offset assigned to a parameter of generic type `g`, if it is a
/// builtin that the signature declares.
pub open spec fn param_slot(params: Seq<TypeDeclView>, g: GenericType) -> Option<int> {
    match builtin_of(g) {
        Some(b) => builtin_offset(params, b),
        None => None,
    }
}

/// What stays the same while the parameters are filled.
pub struct Frame {
    /// All parameters of the callee.
    pub params: Seq<TypeDeclView>,
    /// All arguments of the caller.
    pub args: Seq<ArgView>,
    /// The gas handed to a gas-counter parameter.
    pub initial_gas: nat,
    /// Whether the proof-mode header stands before the entry code.
    pub proof_mode: bool,
}

/// How far marshalling has come.
pub struct Marshal {
    /// The instructions emitted so far.
    pub code: Seq<InstructionView>,
    /// The number of stack cells written so far.
    pub cursor: int,
    /// The index of the next argument to consume.
    pub next_arg: nat,
    /// The number of value parameters filled so far.
    pub param_index: nat,
    /// The cells that the value parameters seen so far declare.
    pub expected: int,
}

/// Fills the cells of a value parameter up to `end` with the next arguments:
/// a scalar takes one cell, an array the two cells of its pointer pair. An
/// array that would reach beyond `end` is refused.
pub open spec fn fill_slots(args: Seq<ArgView>, end: int, st: Marshal) -> Result<Marshal, Error>
    decreases args.len() - st.next_arg,
{
    if st.cursor < end && st.next_arg < args.len() {
        match args[st.next_arg as int] {
            ArgView::Single(value) => fill_slots(
                args,
                end,
                Marshal {
                    code: st.code.push(push_scalar(value)),
                    cursor: st.cursor + 1,
                    next_arg: st.next_arg + 1,
                    ..st
                },
            ),
            ArgView::Array(values) => if st.cursor + 2 > end {
                Err(
                    Error::ArgumentUnaligned {
                        param_index: st.param_index as usize,
                        arg_index: st.next_arg as usize,
                    },
                )
            } else {
                fill_slots(
                    args,
                    end,
                    Marshal {
                        code: st.code + array_pair(
                            staged_size(args.take(st.next_arg as int)) - st.cursor,
                            values.len(),
                        ),
                        cursor: st.cursor + 2,
                        next_arg: st.next_arg + 1,
                        ..st
                    },
                )
            },
        }
    } else {
        Ok(st)
    }
}

/// Places one parameter: a declared builtin is copied from the frame, the
/// system resource gets a fresh segment, the gas counter the initial gas,
/// the segment arena a pointer behind its preamble, and any other parameter
/// is filled from the arguments.
pub open spec fn marshal_param(frame: Frame, p: TypeDeclView, st: Marshal) -> Result<
    Marshal,
    Error,
> {
    match p.generic {
        None => Err(Error::NoInfoForType(p.id)),
        Some(g) => if let Some(offset) = param_slot(frame.params, g) {
            Ok(
                Marshal {
                    code: st.code.push(
                        copy_builtin(
                            if frame.proof_mode {
                                offset + 2
                            } else {
                                offset
                            },
                        ),
                    ),
                    cursor: st.cursor + 1,
                    ..st
                },
            )
        } else if g == GenericType::System {
            Ok(Marshal { code: st.code.push(alloc_segment()), cursor: st.cursor + 1, ..st })
        } else if g == GenericType::GasBuiltin {
            Ok(
                Marshal {
                    code: st.code.push(push_scalar(frame.initial_gas)),
                    cursor: st.cursor + 1,
                    ..st
                },
            )
        } else if g == GenericType::SegmentArena {
            Ok(
                Marshal {
                    code: st.code.push(arena_pointer(staged_size(frame.args) - st.cursor)),
                    cursor: st.cursor + 1,
                    ..st
                },
            )
        } else {
            match p.size {
                None => Err(Error::NoTypeSizeForId(p.id)),
                Some(size) => match fill_slots(
                    frame.args,
                    st.cursor + size,
                    Marshal { expected: st.expected + size, ..st },
                ) {
                    Ok(filled) => Ok(Marshal { param_index: filled.param_index + 1, ..filled }),
                    Err(e) => Err(e),
                },
            }
        },
    }
}

/// Places the parameters in the order of the signature.
pub open spec fn marshal_params(frame: Frame, params: Seq<TypeDeclView>, st: Marshal) -> Result<
    Marshal,
    Error,
>
    decreases params.len(),
{
    if params.len() == 0 {
        Ok(st)
    } else {
        match marshal_params(frame, params.drop_last(), st) {
            Ok(before) => marshal_param(frame, params.last(), before),
            Err(e) => Err(e),
        }
    }
}

/// The number of cells that an argument fills in a parameter.
pub open spec fn arg_cells(arg: ArgView) -> int {
    match arg {
        ArgView::Array(_) => 2,
        ArgView::Single(_) => 1,
    }
}

/// The number of cells that all arguments fill.
pub open spec fn args_size(args: Seq<ArgView>) -> int
    decreases args.len(),
{
    if args.len() == 0 {
        0
    } else {
        args_size(args.drop_last()) + arg_cells(args.last())
    }
}

/// Where marshalling starts: behind the staged arrays and, if the callee
/// takes the segment arena, behind the arena's preamble.
pub open spec fn marshal_start(params: Seq<TypeDeclView>, args: Seq<ArgView>) -> Marshal {
    if has_arena(params) {
        Marshal {
            code: staging_code(args) + arena_preamble(),
            cursor: staged_size(args) + 3,
            next_arg: 0,
            param_index: 0,
            expected: 0,
        }
    } else {
        Marshal {
            code: staging_code(args),
            cursor: staged_size(args),
            next_arg: 0,
            param_index: 0,
            expected: 0,
        }
    }
}

/// The entry code for a callee with parameters `params`, whose code starts
/// `entry_offset` cells behind the entry code, called with `args`; and the
/// builtins the callee requires. The arguments must fill exactly the cells
/// that the value parameters declare.
pub open spec fn entry_code(
    params: Seq<TypeDeclView>,
    entry_offset: nat,
    initial_gas: nat,
    proof_mode: bool,
    args: Seq<ArgView>,
) -> Result<(Seq<InstructionView>, Seq<Builtin>), Error> {
    let frame = Frame { params, args, initial_gas, proof_mode };
    match marshal_params(frame, params, marshal_start(params, args)) {
        Err(e) => Err(e),
        Ok(st) => if st.expected != args_size(args) {
            Err(
                Error::ArgumentsSizeMismatch {
                    expected: st.expected as i16,
                    actual: args_size(args) as i16,
                },
            )
        } else {
            Ok(
                (
                    st.code + seq![call_rel((entry_offset + FINAL_CALL_SIZE) as nat), ret()],
                    required_builtins(params),
                ),
            )
        },
    }
}

/// The number of cells that a type is declared to take, without its sign.
pub open spec fn size_weight(p: TypeDeclView) -> int {
    match p.size {
        Some(size) => if size >= 0 {
            size as int
        } else {
            -size
        },
        None => 0,
    }
}

/// The sum of the declared sizes of `params`, each without its sign.
pub open spec fn total_weight(params: Seq<TypeDeclView>) -> int
    decreases params.len(),
{
    if params.len() == 0 {
        0
    } else {
        total_weight(params.drop_last()) + size_weight(params.last())
    }
}

/// A bound on every stack offset and cell count that the synthesizer
/// computes for these parameters and arguments.
pub open spec fn frame_bound(params: Seq<TypeDeclView>, args: Seq<ArgView>) -> int {
    staged_size(args) + 2 * args.len() + 2 * params.len() + total_weight(params) + 3
}

/// Whether the frame can be addressed with the 16-bit offsets of the
/// instruction format.
pub open spec fn fits_frame(params: Seq<TypeDeclView>, args: Seq<ArgView>) -> bool {
    frame_bound(params, args) <= i16::MAX
}


/// Taking one more element than `k` appends element `k`.
pub proof fn lemma_take_step<A>(s: Seq<A>, k: int)
    requires
        0 <= k < s.len(),
    ensures
        s.take(k + 1).drop_last() == s.take(k),
        s.take(k + 1).last() == s[k],
        s.take(k + 1) == s.take(k).push(s[k]),
{
    assert(s.take(k + 1).drop_last() =~= s.take(k));
    assert(s.take(k + 1) =~= s.take(k).push(s[k]));
}

/// Staging a prefix of the arguments takes no more cells than staging all.
pub proof fn lemma_staged_size_prefix(args: Seq<ArgView>, k: int)
    requires
        0 <= k <= args.len(),
    ensures
        0 <= staged_size(args.take(k)) <= staged_size(args),
    decreases args.len(),
{
    if k == args.len() {
        assert(args.take(k) =~= args);
        if args.len() > 0 {
            lemma_staged_size_prefix(args.drop_last(), k - 1);
            assert(args.drop_last().take(k - 1) =~= args.drop_last());
        }
    } else {
        lemma_staged_size_prefix(args.drop_last(), k);
        assert(args.drop_last().take(k) =~= args.take(k));
    }
}

/// The arguments of a prefix fill no more cells than all arguments.
pub proof fn lemma_args_size_prefix(args: Seq<ArgView>, k: int)
    requires
        0 <= k <= args.len(),
    ensures
        k <= args_size(args.take(k)) <= 2 * k,
        args_size(args.take(k)) <= args_size(args),
    decreases args.len(),
{
    if k == args.len() {
        assert(args.take(k) =~= args);
        if args.len() > 0 {
            lemma_args_size_prefix(args.drop_last(), k - 1);
            assert(args.drop_last().take(k - 1) =~= args.drop_last());
        }
    } else {
        lemma_args_size_prefix(args.drop_last(), k);
        assert(args.drop_last().take(k) =~= args.take(k));
    }
}

/// The declared sizes of a prefix of the parameters weigh no more than all.
pub proof fn lemma_total_weight_prefix(params: Seq<TypeDeclView>, k: int)
    requires
        0 <= k <= params.len(),
    ensures
        0 <= total_weight(params.take(k)) <= total_weight(params),
    decreases params.len(),
{
    if k == params.len() {
        assert(params.take(k) =~= params);
        if params.len() > 0 {
            lemma_total_weight_prefix(params.drop_last(), k - 1);
            assert(params.drop_last().take(k - 1) =~= params.drop_last());
        }
    } else {
        lemma_total_weight_prefix(params.drop_last(), k);
        assert(params.drop_last().take(k) =~= params.take(k));
    }
}

/// A failure at one parameter is the failure of the whole signature.
proof fn lemma_marshal_error(frame: Frame, params: Seq<TypeDeclView>, k: int, st: Marshal)
    requires
        0 <= k <= params.len(),
        marshal_params(frame, params.take(k), st) is Err,
    ensures
        marshal_params(frame, params, st) == marshal_params(frame, params.take(k), st),
    decreases params.len() - k,
{
    if k == params.len() {
        assert(params.take(k) =~= params);
    } else {
        lemma_take_step(params, k);
        lemma_marshal_error(frame, params, k + 1, st);
    }
}

/// Stages the array arguments: each gets a fresh segment whose address is
/// pushed on the stack, and its elements are stored there one by one.
/// Returns the instructions, for every argument the stack offset at which
/// its staging began, and the offset behind the last.
fn stage_arrays(args: &Vec<FuncArg>) -> (r: (Vec<Instruction>, Vec<i16>, i16))
    requires
        staged_size(args_view(args@)) <= i16::MAX,
    ensures
        code_view(r.0@) == staging_code(args_view(args@)),
        r.1@.len() == args@.len(),
        forall|j: int|
            0 <= j < args@.len() ==> (#[trigger] r.1@[j]) == staged_size(args_view(args@).take(j)),
        r.2 == staged_size(args_view(args@)),
{
    let ghost av = args_view(args@);
    let mut code: Vec<Instruction> = Vec::new();
    let mut staged: Vec<i16> = Vec::new();
    let mut ap_offset: i16 = 0;
    let mut k: usize = 0;
    assert(av.take(0) =~= Seq::empty());
    assert(code_view(code@) =~= staging_code(av.take(0)));
    while k < args.len()
        invariant
            k <= args.len(),
            av == args_view(args@),
            staged_size(av) <= i16::MAX,
            code_view(code@) == staging_code(av.take(k as int)),
            ap_offset == staged_size(av.take(k as int)),
            staged@.len() == k,
            forall|j: int| 0 <= j < k ==> (#[trigger] staged@[j]) == staged_size(av.take(j)),
        decreases args.len() - k,
    {
        proof {
            lemma_take_step(av, k as int);
            lemma_staged_size_prefix(av, k as int + 1);
            lemma_staged_size_prefix(av, k as int);
        }
        staged.push(ap_offset);
        match &args[k] {
            FuncArg::Array(values) => {
                let ghost vv = felt_values(values@);
                assert(av[k as int] == ArgView::Array(vv));
                emit(&mut code, Instruction::alloc_segment());
                let ghost base = code_view(code@);
                let mut i: usize = 0;
                assert(vv.take(0) =~= Seq::empty());
                assert(code_view(code@) =~= base + store_elements(vv.take(0)));
                while i < values.len()
                    invariant
                        i <= values.len(),
                        vv == felt_values(values@),
                        0 <= ap_offset,
                        vv.len() + 1 + ap_offset <= i16::MAX,
                        code_view(code@) == base + store_elements(vv.take(i as int)),
                    decreases values.len() - i,
                {
                    let value: Felt = values[i];
                    let at: i16 = (i + 1) as i16;
                    let ghost before = code_view(code@);
                    emit(
                        &mut code,
                        Instruction::assert_cell(CellRef::ap(0), Operand::Immediate(value), false),
                    );
                    emit(
                        &mut code,
                        Instruction::assert_cell(
                            CellRef::ap(0),
                            Operand::DoubleDeref(CellRef::ap(-at), i as i16),
                            true,
                        ),
                    );
                    proof {
                        lemma_take_step(vv, i as int);
                        assert(vv[i as int] == value@);
                        assert(code_view(code@) =~= before + store_element(value@, i as int));
                        assert(store_elements(vv.take(i as int + 1)) == store_elements(
                            vv.take(i as int),
                        ) + store_element(value@, i as int));
                        assert(code_view(code@) =~= base + store_elements(vv.take(i as int + 1)));
                    }
                    i = i + 1;
                }
                assert(vv.take(values.len() as int) =~= vv);
                ap_offset = ap_offset + 1 + values.len() as i16;
                assert(code_view(code@) =~= staging_code(av.take(k as int + 1)));
            },
            FuncArg::Single(_) => {
                assert(av[k as int] is Single);
                assert(code_view(code@) =~= staging_code(av.take(k as int + 1)));
            },
        }
        k = k + 1;
    }
    assert(av.take(args.len() as int) =~= av);
    (code, staged, ap_offset)
}


/// Whether one of the parameters is the segment arena.
fn takes_arena(param_types: &Vec<TypeDecl>) -> (r: bool)
    ensures
        r == has_arena(decls_view(param_types@)),
{
    let mut i: usize = 0;
    while i < param_types.len()
        invariant
            i <= param_types.len(),
            forall|j: int|
                0 <= j < i ==> (#[trigger] decls_view(param_types@)[j]).generic != Some(
                    GenericType::SegmentArena,
                ),
        decreases param_types.len() - i,
    {
        let arena: bool = match param_types[i].generic {
            Some(GenericType::SegmentArena) => true,
            _ => false,
        };
        if arena {
            assert(decls_view(param_types@)[i as int].generic == Some(GenericType::SegmentArena));
            return true;
        }
        i = i + 1;
    }
    false
}

/// The frame offset assigned to a parameter of generic type `g`.
fn slot_of(offsets: &BuiltinOffsets, g: GenericType, Ghost(params): Ghost<Seq<TypeDeclView>>) -> (r:
    Option<i16>)
    requires
        offsets.resolves(params),
    ensures
        match r {
            Some(o) => param_slot(params, g) == Some(o as int),
            None => param_slot(params, g) is None,
        },
{
    match g {
        GenericType::Poseidon => {
            assert(offsets.spec_get(Builtin::Poseidon) == offsets.poseidon);
            offsets.poseidon
        },
        GenericType::EcOp => {
            assert(offsets.spec_get(Builtin::EcOp) == offsets.ec_op);
            offsets.ec_op
        },
        GenericType::Bitwise => {
            assert(offsets.spec_get(Builtin::Bitwise) == offsets.bitwise);
            offsets.bitwise
        },
        GenericType::RangeCheck => {
            assert(offsets.spec_get(Builtin::RangeCheck) == offsets.range_check);
            offsets.range_check
        },
        GenericType::Pedersen => {
            assert(offsets.spec_get(Builtin::Pedersen) == offsets.pedersen);
            offsets.pedersen
        },
        _ => None,
    }
}

/// Fills the cells of one value parameter from the next arguments. Returns
/// the stack offset and the argument index it stopped at.
fn fill_param(
    args: &Vec<FuncArg>,
    staged: &Vec<i16>,
    end: i32,
    code: &mut Vec<Instruction>,
    ap_offset: i16,
    next_arg: usize,
    param_index: usize,
    Ghost(st): Ghost<Marshal>,
) -> (r: Result<(i16, usize), Error>)
    requires
        staged@.len() == args@.len(),
        forall|j: int|
            0 <= j < args@.len() ==> (#[trigger] staged@[j]) == staged_size(
                args_view(args@).take(j),
            ),
        staged_size(args_view(args@)) <= i16::MAX,
        code_view(old(code)@) == st.code,
        st.cursor == ap_offset,
        st.next_arg == next_arg,
        st.param_index == param_index,
        next_arg <= args@.len(),
        0 <= ap_offset,
        ap_offset + 1 <= i16::MAX,
        end + 1 <= i16::MAX,
    ensures
        match fill_slots(args_view(args@), end as int, st) {
            Ok(filled) => {
                &&& r == Ok::<(i16, usize), Error>((filled.cursor as i16, filled.next_arg as usize))
                &&& code_view(final(code)@) == filled.code
                &&& filled.param_index == st.param_index
                &&& filled.expected == st.expected
                &&& st.cursor <= filled.cursor
                &&& filled.cursor <= st.cursor + 1 || filled.cursor <= end + 1
                &&& filled.cursor <= i16::MAX
                &&& filled.next_arg <= args@.len()
            },
            Err(e) => r == Err::<(i16, usize), Error>(e),
        },
{
    let ghost av = args_view(args@);
    let ghost mut cur = st;
    let mut ap_offset: i16 = ap_offset;
    let mut next_arg: usize = next_arg;
    while (ap_offset as i32) < end && next_arg < args.len()
        invariant
            av == args_view(args@),
            staged@.len() == args@.len(),
            forall|j: int|
                0 <= j < args@.len() ==> (#[trigger] staged@[j]) == staged_size(av.take(j)),
            staged_size(av) <= i16::MAX,
            fill_slots(av, end as int, cur) == fill_slots(av, end as int, st),
            code_view(code@) == cur.code,
            cur.cursor == ap_offset,
            cur.next_arg == next_arg,
            cur.param_index == st.param_index,
            cur.param_index == param_index,
            cur.expected == st.expected,
            next_arg <= args@.len(),
            0 <= ap_offset,
            st.cursor <= ap_offset,
            ap_offset <= st.cursor + 1 || ap_offset <= end + 1,
            ap_offset + 1 <= i16::MAX,
            end + 1 <= i16::MAX,
        decreases args@.len() - next_arg,
    {
        proof {
            lemma_staged_size_prefix(av, next_arg as int);
        }
        match &args[next_arg] {
            FuncArg::Single(value) => {
                assert(av[next_arg as int] == ArgView::Single(value@));
                emit(
                    code,
                    Instruction::assert_cell(CellRef::ap(0), Operand::Immediate(*value), true),
                );
                proof {
                    cur =
                    Marshal {
                        code: cur.code.push(push_scalar(value@)),
                        cursor: cur.cursor + 1,
                        next_arg: cur.next_arg + 1,
                        ..cur
                    };
                }
                ap_offset = ap_offset + 1;
            },
            FuncArg::Array(values) => {
                let ghost vv = felt_values(values@);
                assert(av[next_arg as int] == ArgView::Array(vv));
                if ap_offset as i32 + 2 > end {
                    return Err(Error::ArgumentUnaligned { param_index, arg_index: next_arg });
                }
                let back: i16 = staged[next_arg] - ap_offset;
                let ghost before = code_view(code@);
                emit(
                    code,
                    Instruction::assert_cell(
                        CellRef::ap(0),
                        Operand::Deref(CellRef::ap(back)),
                        true,
                    ),
                );
                emit(
                    code,
                    Instruction::assert_cell(
                        CellRef::ap(0),
                        Operand::AddImmediate(CellRef::ap(-1), Felt::from_usize(values.len())),
                        true,
                    ),
                );
                proof {
                    assert(code_view(code@) =~= before + array_pair(back as int, vv.len()));
                    cur =
                    Marshal {
                        code: cur.code + array_pair(
                            staged_size(av.take(cur.next_arg as int)) - cur.cursor,
                            vv.len(),
                        ),
                        cursor: cur.cursor + 2,
                        next_arg: cur.next_arg + 1,
                        ..cur
                    };
                }
                ap_offset = ap_offset + 2;
            },
        }
        next_arg = next_arg + 1;
    }
    Ok((ap_offset, next_arg))
}


/// Whether the frame for these parameters and arguments can be addressed
/// with the 16-bit offsets of the instruction format, as `create_entry_code`
/// requires.
pub fn frame_fits(param_types: &Vec<TypeDecl>, args: &Vec<FuncArg>) -> (r: bool)
    ensures
        r == fits_frame(decls_view(param_types@), args_view(args@)),
{
    let ghost pv = decls_view(param_types@);
    let ghost av = args_view(args@);
    let mut bound: u64 = 3;
    let mut k: usize = 0;
    proof {
        assert(av.take(0) =~= Seq::empty());
        assert(pv.take(0) =~= Seq::empty());
        lemma_total_weight_prefix(pv, 0);
    }
    while k < args.len()
        invariant
            k <= args.len(),
            av == args_view(args@),
            pv == decls_view(param_types@),
            0 <= total_weight(pv),
            bound == 3 + staged_size(av.take(k as int)) + 2 * k,
            bound <= i16::MAX,
        decreases args.len() - k,
    {
        proof {
            lemma_take_step(av, k as int);
            lemma_staged_size_prefix(av, k as int + 1);
            lemma_staged_size_prefix(av, k as int);
        }
        let cells: usize = match &args[k] {
            FuncArg::Array(values) => {
                assert(av[k as int] == ArgView::Array(felt_values(values@)));
                if values.len() > 0x7fff {
                    return false;
                }
                values.len() + 3
            },
            FuncArg::Single(_) => {
                assert(av[k as int] is Single);
                2
            },
        };
        bound = bound + cells as u64;
        if bound > 0x7fff {
            return false;
        }
        k = k + 1;
    }
    assert(av.take(args.len() as int) =~= av);
    let mut j: usize = 0;
    while j < param_types.len()
        invariant
            j <= param_types.len(),
            pv == decls_view(param_types@),
            av == args_view(args@),
            bound == 3 + staged_size(av) + 2 * av.len() + 2 * j + total_weight(pv.take(j as int)),
            bound <= i16::MAX,
        decreases param_types.len() - j,
    {
        proof {
            lemma_take_step(pv, j as int);
            lemma_total_weight_prefix(pv, j as int + 1);
            lemma_total_weight_prefix(pv, j as int);
        }
        assert(pv[j as int] == param_types@[j as int]@);
        let weight: u64 = match param_types[j].size {
            Some(size) => if size >= 0 {
                size as u64
            } else {
                (-(size as i32)) as u64
            },
            None => 0,
        };
        bound = bound + weight + 2;
        if bound > 0x7fff {
            return false;
        }
        j = j + 1;
    }
    assert(pv.take(param_types.len() as int) =~= pv);
    true
}

/// The number of cells that all arguments fill.
fn count_arg_cells(args: &Vec<FuncArg>) -> (r: i16)
    requires
        2 * args@.len() <= i16::MAX,
    ensures
        r == args_size(args_view(args@)),
{
    let ghost av = args_view(args@);
    let mut total: i16 = 0;
    let mut k: usize = 0;
    assert(av.take(0) =~= Seq::empty());
    while k < args.len()
        invariant
            k <= args.len(),
            av == args_view(args@),
            2 * args@.len() <= i16::MAX,
            total == args_size(av.take(k as int)),
        decreases args.len() - k,
    {
        proof {
            lemma_take_step(av, k as int);
            lemma_args_size_prefix(av, k as int);
        }
        match &args[k] {
            FuncArg::Single(_) => {
                assert(av[k as int] is Single);
                total = total + 1;
            },
            FuncArg::Array(_) => {
                assert(av[k as int] is Array);
                total = total + 2;
            },
        }
        k = k + 1;
    }
    assert(av.take(args.len() as int) =~= av);
    total
}

/// Synthesizes the entry code for a call of the main function: the
/// instructions that stage the array arguments, set up the segment arena if
/// the callee takes it, place every parameter in the order of the signature
/// and call the callee at `entry_offset`. Returns them with the builtins the
/// callee requires, as the engine expects them.
///
/// Fails without emitting a call where the program's registry does not know
/// a parameter's type, where an array argument would lie across the end of a
/// parameter, and where the arguments do not fill exactly the cells that the
/// value parameters declare.
pub fn create_entry_code(
    param_types: &Vec<TypeDecl>,
    entry_offset: usize,
    initial_gas: usize,
    proof_mode: bool,
    args: &Vec<FuncArg>,
) -> (r: Result<(Vec<Instruction>, Vec<Builtin>), Error>)
    requires
        fits_frame(decls_view(param_types@), args_view(args@)),
        entry_offset + FINAL_CALL_SIZE <= usize::MAX,
    ensures
        match entry_code(
            decls_view(param_types@),
            entry_offset as nat,
            initial_gas as nat,
            proof_mode,
            args_view(args@),
        ) {
            Ok((code, builtins)) => r matches Ok(out) && code_view(out.0@) == code && out.1@
                == builtins,
            Err(e) => r == Err::<(Vec<Instruction>, Vec<Builtin>), Error>(e),
        },
{
    let ghost pv = decls_view(param_types@);
    let ghost av = args_view(args@);
    let ghost frame = Frame {
        params: pv,
        args: av,
        initial_gas: initial_gas as nat,
        proof_mode,
    };
    proof {
        lemma_staged_size_prefix(av, 0);
        lemma_total_weight_prefix(pv, 0);
        lemma_args_size_prefix(av, av.len() as int);
        assert(av.take(av.len() as int) =~= av);
    }
    let (builtins, offsets) = get_function_builtins(param_types);
    let (mut code, staged, after_arrays) = stage_arrays(args);
    let mut ap_offset: i16 = after_arrays;
    if takes_arena(param_types) {
        let mut hints: Vec<Hint> = Vec::new();
        hints.push(Hint::AllocSegment { dst: CellRef::ap(0) });
        hints.push(Hint::AllocSegment { dst: CellRef::ap(1) });
        let ghost before = code_view(code@);
        emit(
            &mut code,
            Instruction { body: InstructionBody::AddAp(Felt::from_usize(2)), inc_ap: false, hints },
        );
        emit(
            &mut code,
            Instruction::assert_cell(CellRef::ap(0), Operand::Immediate(Felt::from_usize(0)), true),
        );
        emit(
            &mut code,
            Instruction::assert_cell(
                CellRef::ap(-2),
                Operand::DoubleDeref(CellRef::ap(-3), 0),
                false,
            ),
        );
        emit(
            &mut code,
            Instruction::assert_cell(
                CellRef::ap(-1),
                Operand::DoubleDeref(CellRef::ap(-3), 1),
                false,
            ),
        );
        emit(
            &mut code,
            Instruction::assert_cell(
                CellRef::ap(-1),
                Operand::DoubleDeref(CellRef::ap(-3), 2),
                false,
            ),
        );
        proof {
            assert(code_view(code@)[before.len() as int].hints =~= arena_preamble()[0].hints);
            assert(code_view(code@) =~= before + arena_preamble());
        }
        ap_offset = ap_offset + 3;
    }
    let ghost start = marshal_start(pv, av);
    let ghost mut st = start;
    let mut next_arg: usize = 0;
    let mut param_index: usize = 0;
    let mut expected: i16 = 0;
    let mut k: usize = 0;
    assert(pv.take(0) =~= Seq::empty());
    while k < param_types.len()
        invariant
            k <= param_types.len(),
            pv == decls_view(param_types@),
            av == args_view(args@),
            frame == (Frame { params: pv, args: av, initial_gas: initial_gas as nat, proof_mode }),
            fits_frame(pv, av),
            start == marshal_start(pv, av),
            offsets.resolves(pv),
            staged@.len() == args@.len(),
            forall|j: int|
                0 <= j < args@.len() ==> (#[trigger] staged@[j]) == staged_size(av.take(j)),
            after_arrays == staged_size(av),
            0 <= after_arrays,
            marshal_params(frame, pv.take(k as int), start) == Ok::<Marshal, Error>(st),
            st.code == code_view(code@),
            st.cursor == ap_offset,
            st.next_arg == next_arg,
            st.param_index == param_index,
            st.expected == expected,
            next_arg <= args@.len(),
            param_index <= k,
            after_arrays <= ap_offset,
            ap_offset <= after_arrays + 3 + 2 * k + total_weight(pv.take(k as int)),
            -total_weight(pv.take(k as int)) <= expected <= total_weight(pv.take(k as int)),
        decreases param_types.len() - k,
    {
        proof {
            lemma_take_step(pv, k as int);
            lemma_total_weight_prefix(pv, k as int + 1);
            lemma_total_weight_prefix(pv, k as int);
        }
        let p: &TypeDecl = &param_types[k];
        assert(pv[k as int] == p@);
        let ghost next: Result<Marshal, Error> = marshal_param(frame, p@, st);
        assert(marshal_params(frame, pv.take(k as int + 1), start) == next);
        match p.generic {
            None => {
                proof {
                    lemma_marshal_error(frame, pv, k as int + 1, start);
                }
                return Err(Error::NoInfoForType(p.id));
            },
            Some(g) => {
                let slot: Option<i16> = slot_of(&offsets, g, Ghost(pv));
                proof {
                    crate::builtins::lemma_offset_range(pv);
                }
                if let Some(offset) = slot {
                    let shifted: i16 = if proof_mode {
                        offset + 2
                    } else {
                        offset
                    };
                    emit(
                        &mut code,
                        Instruction::assert_cell(
                            CellRef::ap(0),
                            Operand::Deref(CellRef::fp(-shifted)),
                            true,
                        ),
                    );
                    ap_offset = ap_offset + 1;
                } else if g == GenericType::System {
                    emit(&mut code, Instruction::alloc_segment());
                    ap_offset = ap_offset + 1;
                } else if g == GenericType::GasBuiltin {
                    emit(
                        &mut code,
                        Instruction::assert_cell(
                            CellRef::ap(0),
                            Operand::Immediate(Felt::from_usize(initial_gas)),
                            true,
                        ),
                    );
                    ap_offset = ap_offset + 1;
                } else if g == GenericType::SegmentArena {
                    let back: i16 = after_arrays - ap_offset;
                    emit(
                        &mut code,
                        Instruction::assert_cell(
                            CellRef::ap(0),
                            Operand::AddImmediate(CellRef::ap(back), Felt::from_usize(3)),
                            true,
                        ),
                    );
                    ap_offset = ap_offset + 1;
                } else {
                    match p.size {
                        None => {
                            proof {
                                lemma_marshal_error(frame, pv, k as int + 1, start);
                            }
                            return Err(Error::NoTypeSizeForId(p.id));
                        },
                        Some(size) => {
                            let end: i32 = ap_offset as i32 + size as i32;
                            expected = expected + size;
                            let ghost inner = Marshal { expected: st.expected + size, ..st };
                            match fill_param(
                                args,
                                &staged,
                                end,
                                &mut code,
                                ap_offset,
                                next_arg,
                                param_index,
                                Ghost(inner),
                            ) {
                                Ok((cursor, consumed)) => {
                                    ap_offset = cursor;
                                    next_arg = consumed;
                                    param_index = param_index + 1;
                                },
                                Err(e) => {
                                    proof {
                                        lemma_marshal_error(frame, pv, k as int + 1, start);
                                    }
                                    return Err(e);
                                },
                            }
                        },
                    }
                }
            },
        }
        proof {
            st = next->Ok_0;
        }
        k = k + 1;
    }
    assert(pv.take(param_types.len() as int) =~= pv);
    let actual: i16 = count_arg_cells(args);
    if expected != actual {
        return Err(Error::ArgumentsSizeMismatch { expected, actual });
    }
    let ghost before = code_view(code@);
    emit(&mut code, Instruction::call_rel(entry_offset + FINAL_CALL_SIZE));
    emit(&mut code, Instruction::ret());
    assert(code_view(code@) =~= before + seq![
        call_rel((entry_offset + FINAL_CALL_SIZE) as nat),
        ret(),
    ]);
    Ok((code, builtins))
}

} // verus!
