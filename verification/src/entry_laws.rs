//! What holds of the entry code, whatever the parameters and arguments.

use vstd::prelude::*;
use crate::args::ArgView;
use crate::builtins::{required_builtins, Builtin, GenericType, TypeDeclView};
use crate::casm::{call_rel, code_size, ret, InstructionView};
use crate::entry::{
    args_size, array_pair, entry_code, fill_slots, has_arena, lemma_take_step, marshal_params,
    marshal_start, param_slot, push_scalar, staged_size, staging_code, Frame, Marshal,
    FINAL_CALL_SIZE,
};
use crate::error::Error;

verus! {

/// Whether a declared type is an ordinary value of `size` cells.
pub open spec fn is_value_of_size(p: TypeDeclView, size: i16) -> bool {
    p.generic == Some(GenericType::Other) && p.size == Some(size)
}

/// Scalar arguments stage nothing.
proof fn lemma_scalars_stage_nothing(values: Seq<nat>)
    ensures
        staging_code(values.map_values(|v: nat| ArgView::Single(v))) == Seq::<
            InstructionView,
        >::empty(),
        staged_size(values.map_values(|v: nat| ArgView::Single(v))) == 0,
        args_size(values.map_values(|v: nat| ArgView::Single(v))) == values.len(),
    decreases values.len(),
{
    let args = values.map_values(|v: nat| ArgView::Single(v));
    if values.len() > 0 {
        lemma_scalars_stage_nothing(values.drop_last());
        assert(args.drop_last() =~= values.drop_last().map_values(|v: nat| ArgView::Single(v)));
        assert(args.last() == ArgView::Single(values.last()));
        assert(staging_code(args) =~= Seq::<InstructionView>::empty());
    }
}

/// The first `k` of as many one-cell value parameters as there are scalar
/// arguments are filled by the first `k` arguments, one write each.
proof fn lemma_scalars_marshal(frame: Frame, values: Seq<nat>, k: int)
    requires
        frame.args == values.map_values(|v: nat| ArgView::Single(v)),
        frame.params.len() == values.len(),
        forall|i: int|
            0 <= i < frame.params.len() ==> is_value_of_size(#[trigger] frame.params[i], 1),
        0 <= k <= values.len(),
    ensures
        marshal_params(
            frame,
            frame.params.take(k),
            marshal_start(frame.params, frame.args),
        ) == Ok::<Marshal, Error>(
            Marshal {
                code: values.take(k).map_values(|v: nat| push_scalar(v)),
                cursor: k,
                next_arg: k as nat,
                param_index: k as nat,
                expected: k,
            },
        ),
    decreases k,
{
    let params = frame.params;
    let args = frame.args;
    lemma_scalars_stage_nothing(values);
    assert(!has_arena(params));
    let start = marshal_start(params, args);
    if k == 0 {
        assert(params.take(0) =~= Seq::<TypeDeclView>::empty());
        assert(values.take(0).map_values(|v: nat| push_scalar(v)) =~= Seq::<
            InstructionView,
        >::empty());
    } else {
        lemma_scalars_marshal(frame, values, k - 1);
        lemma_take_step(params, k - 1);
        let before = Marshal {
            code: values.take(k - 1).map_values(|v: nat| push_scalar(v)),
            cursor: k - 1,
            next_arg: (k - 1) as nat,
            param_index: (k - 1) as nat,
            expected: k - 1,
        };
        let p = params[k - 1];
        assert(is_value_of_size(p, 1));
        assert(param_slot(params, GenericType::Other) is None);
        let inner = Marshal { expected: before.expected + 1, ..before };
        assert(args[k - 1] == ArgView::Single(values[k - 1]));
        let filled = Marshal {
            code: inner.code.push(push_scalar(values[k - 1])),
            cursor: inner.cursor + 1,
            next_arg: inner.next_arg + 1,
            ..inner
        };
        assert(fill_slots(args, k as int, filled) == Ok::<Marshal, Error>(filled));
        assert(fill_slots(args, k as int, inner) == Ok::<Marshal, Error>(filled));
        assert(values.take(k).map_values(|v: nat| push_scalar(v)) =~= values.take(k - 1).map_values(
            |v: nat| push_scalar(v),
        ).push(push_scalar(values[k - 1])));
    }
}

/// A callee with only one-cell value parameters, called with as many scalar
/// arguments, gets one write per argument, in order, followed by the call
/// and the return: the sizes agree and no error is reported.
pub proof fn lemma_scalars_for_scalar_params(
    params: Seq<TypeDeclView>,
    values: Seq<nat>,
    entry_offset: nat,
    initial_gas: nat,
    proof_mode: bool,
)
    requires
        params.len() == values.len(),
        forall|i: int| 0 <= i < params.len() ==> is_value_of_size(#[trigger] params[i], 1),
    ensures
        entry_code(
            params,
            entry_offset,
            initial_gas,
            proof_mode,
            values.map_values(|v: nat| ArgView::Single(v)),
        ) == Ok::<(Seq<InstructionView>, Seq<Builtin>), Error>(
            (
                values.map_values(|v: nat| push_scalar(v)) + seq![
                    call_rel((entry_offset + FINAL_CALL_SIZE) as nat),
                    ret(),
                ],
                required_builtins(params),
            ),
        ),
{
    let args = values.map_values(|v: nat| ArgView::Single(v));
    let frame = Frame { params, args, initial_gas, proof_mode };
    lemma_scalars_marshal(frame, values, values.len() as int);
    lemma_scalars_stage_nothing(values);
    assert(params.take(values.len() as int) =~= params);
    assert(values.take(values.len() as int) =~= values);
}

/// A scalar argument for a single parameter of two cells, such as an array,
/// is refused: the sizes do not agree.
pub proof fn lemma_scalar_for_array_param(
    param: TypeDeclView,
    value: nat,
    entry_offset: nat,
    initial_gas: nat,
    proof_mode: bool,
)
    requires
        is_value_of_size(param, 2),
    ensures
        entry_code(seq![param], entry_offset, initial_gas, proof_mode, seq![ArgView::Single(value)])
            == Err::<(Seq<InstructionView>, Seq<Builtin>), Error>(
            Error::ArgumentsSizeMismatch { expected: 2, actual: 1 },
        ),
{
    let params = seq![param];
    let args = seq![ArgView::Single(value)];
    let frame = Frame { params, args, initial_gas, proof_mode };
    reveal_with_fuel(staging_code, 2);
    reveal_with_fuel(staged_size, 2);
    reveal_with_fuel(args_size, 2);
    reveal_with_fuel(marshal_params, 2);
    reveal_with_fuel(fill_slots, 3);
    assert(!has_arena(params));
    assert(params.drop_last() =~= Seq::<TypeDeclView>::empty());
    assert(args.drop_last() =~= Seq::<ArgView>::empty());
    assert(param_slot(params, GenericType::Other) is None);
    let start = marshal_start(params, args);
    assert(start.cursor == 0);
    let inner = Marshal { expected: 2, ..start };
    let filled = Marshal {
        code: inner.code.push(push_scalar(value)),
        cursor: 1,
        next_arg: 1,
        ..inner
    };
    assert(fill_slots(args, 2, filled) == Ok::<Marshal, Error>(filled));
    assert(fill_slots(args, 2, inner) == Ok::<Marshal, Error>(filled));
    assert(marshal_params(frame, params, start) == Ok::<Marshal, Error>(
        Marshal { param_index: 1, ..filled },
    ));
}

/// An array argument for a single parameter of one cell, such as a scalar,
/// is refused: the array would lie across the end of the parameter.
pub proof fn lemma_array_for_scalar_param(
    param: TypeDeclView,
    values: Seq<nat>,
    entry_offset: nat,
    initial_gas: nat,
    proof_mode: bool,
)
    requires
        is_value_of_size(param, 1),
    ensures
        entry_code(
            seq![param],
            entry_offset,
            initial_gas,
            proof_mode,
            seq![ArgView::Array(values)],
        ) == Err::<(Seq<InstructionView>, Seq<Builtin>), Error>(
            Error::ArgumentUnaligned { param_index: 0, arg_index: 0 },
        ),
{
    let params = seq![param];
    let args = seq![ArgView::Array(values)];
    let frame = Frame { params, args, initial_gas, proof_mode };
    reveal_with_fuel(staged_size, 2);
    reveal_with_fuel(marshal_params, 2);
    reveal_with_fuel(fill_slots, 2);
    assert(!has_arena(params));
    assert(params.drop_last() =~= Seq::<TypeDeclView>::empty());
    assert(args.drop_last() =~= Seq::<ArgView>::empty());
    assert(param_slot(params, GenericType::Other) is None);
    let start = marshal_start(params, args);
    let inner = Marshal { expected: start.expected + 1, ..start };
    assert(fill_slots(args, start.cursor + 1, inner) == Err::<Marshal, Error>(
        Error::ArgumentUnaligned { param_index: 0, arg_index: 0 },
    ));
}

/// Whether no declared size is negative.
pub open spec fn sizes_nonnegative(params: Seq<TypeDeclView>) -> bool {
    forall|i: int|
        0 <= i < params.len() ==> ((#[trigger] params[i]).size matches Some(size) ==> size >= 0)
}

/// Every argument behind the first `k` fills at least one cell.
proof fn lemma_args_size_rest(args: Seq<ArgView>, k: int)
    requires
        0 <= k <= args.len(),
    ensures
        args_size(args.take(k)) + (args.len() - k) <= args_size(args),
    decreases args.len(),
{
    if k == args.len() {
        assert(args.take(k) =~= args);
    } else {
        lemma_args_size_rest(args.drop_last(), k);
        assert(args.drop_last().take(k) =~= args.take(k));
    }
}

/// Whether marshalling has filled no more cells than were declared, and has
/// used up the arguments wherever it has filled fewer.
pub open spec fn keeps_pace(args: Seq<ArgView>, st: Marshal) -> bool {
    &&& st.next_arg <= args.len()
    &&& args_size(args.take(st.next_arg as int)) <= st.expected
    &&& args_size(args.take(st.next_arg as int)) < st.expected ==> st.next_arg == args.len()
}

/// Filling a parameter moves the cursor by the cells of the arguments it
/// consumes, never beyond the parameter's end, and stops short of the end
/// only when the arguments are used up.
proof fn lemma_fill_slots(args: Seq<ArgView>, end: int, st: Marshal)
    requires
        st.next_arg <= args.len(),
    ensures
        fill_slots(args, end, st) matches Ok(filled) ==> {
            &&& st.next_arg <= filled.next_arg <= args.len()
            &&& filled.cursor - st.cursor == args_size(args.take(filled.next_arg as int))
                - args_size(args.take(st.next_arg as int))
            &&& filled.cursor <= end || filled.cursor == st.cursor
            &&& filled.cursor < end ==> filled.next_arg == args.len()
            &&& filled.expected == st.expected
            &&& filled.param_index == st.param_index
        },
    decreases args.len() - st.next_arg,
{
    if st.cursor < end && st.next_arg < args.len() {
        lemma_take_step(args, st.next_arg as int);
        match args[st.next_arg as int] {
            ArgView::Single(value) => {
                let next = Marshal {
                    code: st.code.push(push_scalar(value)),
                    cursor: st.cursor + 1,
                    next_arg: st.next_arg + 1,
                    ..st
                };
                lemma_fill_slots(args, end, next);
            },
            ArgView::Array(values) => {
                if st.cursor + 2 <= end {
                    let next = Marshal {
                        code: st.code + array_pair(
                            staged_size(args.take(st.next_arg as int)) - st.cursor,
                            values.len(),
                        ),
                        cursor: st.cursor + 2,
                        next_arg: st.next_arg + 1,
                        ..st
                    };
                    lemma_fill_slots(args, end, next);
                }
            },
        }
    }
}

/// Marshalling keeps pace with the declared sizes.
proof fn lemma_marshal_keeps_pace(frame: Frame, params: Seq<TypeDeclView>, st: Marshal)
    requires
        sizes_nonnegative(params),
        keeps_pace(frame.args, st),
    ensures
        marshal_params(frame, params, st) matches Ok(after) ==> keeps_pace(frame.args, after),
    decreases params.len(),
{
    if params.len() > 0 {
        let init = params.drop_last();
        assert forall|i: int| 0 <= i < init.len() implies ((#[trigger] init[i]).size matches Some(
            size,
        ) ==> size >= 0) by {
            assert(init[i] == params[i]);
        }
        lemma_marshal_keeps_pace(frame, init, st);
        if let Ok(before) = marshal_params(frame, init, st) {
            let p = params.last();
            assert(p == params[params.len() - 1]);
            if let Some(g) = p.generic {
                if param_slot(frame.params, g) is None && g != GenericType::System && g
                    != GenericType::GasBuiltin && g != GenericType::SegmentArena {
                    if let Some(size) = p.size {
                        assert(size >= 0);
                        let inner = Marshal { expected: before.expected + size, ..before };
                        lemma_fill_slots(frame.args, before.cursor + size, inner);
                    }
                }
            }
        }
    }
}

/// Where the entry code is synthesized and no declared size is negative,
/// every argument was placed: marshalling ends behind the last argument,
/// having filled exactly the cells that the value parameters declare.
pub proof fn lemma_success_places_every_argument(
    params: Seq<TypeDeclView>,
    entry_offset: nat,
    initial_gas: nat,
    proof_mode: bool,
    args: Seq<ArgView>,
)
    requires
        sizes_nonnegative(params),
        entry_code(params, entry_offset, initial_gas, proof_mode, args) is Ok,
    ensures
        marshal_params(
            Frame { params, args, initial_gas, proof_mode },
            params,
            marshal_start(params, args),
        ) matches Ok(st) && st.next_arg == args.len() && st.expected == args_size(args),
{
    let frame = Frame { params, args, initial_gas, proof_mode };
    let start = marshal_start(params, args);
    assert(args.take(0) =~= Seq::<ArgView>::empty());
    assert(keeps_pace(args, start));
    lemma_marshal_keeps_pace(frame, params, start);
    let st = marshal_params(frame, params, start)->Ok_0;
    lemma_args_size_rest(args, st.next_arg as int);
}

/// The call and the return that close the entry code take the three cells
/// that the call's target allows for.
pub proof fn lemma_final_call_size(target: nat)
    ensures
        code_size(seq![call_rel(target), ret()]) == FINAL_CALL_SIZE,
{
    reveal_with_fuel(code_size, 3);
    let pair = seq![call_rel(target), ret()];
    assert(pair.drop_last() =~= seq![call_rel(target)]);
    assert(pair.drop_last().drop_last() =~= Seq::<InstructionView>::empty());
}

} // verus!
