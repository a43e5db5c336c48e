//! The text of a list of arguments, and the proof that reading it gives the
//! arguments back.

use vstd::prelude::*;
use crate::args::{
    lemma_compact, lemma_first_separator, parse_text, parse_tokens, scalar, split_tokens, ArgView,
    ParseError, Progress, CLOSE, OPEN, SEPARATOR,
};
use crate::felt::{decimal, is_digit, lemma_decimal_parses, lemma_decimal_spells, prime};

verus! {

/// The tokens of an array of at least two elements: the decimal spellings
/// of the elements, the first behind `[` and the last before `]`.
pub open spec fn array_tokens(values: Seq<nat>) -> Seq<Seq<u8>> {
    Seq::new(
        values.len(),
        |i: int|
            if i == 0 {
                seq![OPEN] + decimal(values[i])
            } else if i == values.len() - 1 {
                decimal(values[i]).push(CLOSE)
            } else {
                decimal(values[i])
            },
    )
}

/// The tokens of an argument.
pub open spec fn arg_tokens(arg: ArgView) -> Seq<Seq<u8>> {
    match arg {
        ArgView::Single(value) => seq![decimal(value)],
        ArgView::Array(values) => array_tokens(values),
    }
}

/// The tokens of a list of arguments.
pub open spec fn args_tokens(args: Seq<ArgView>) -> Seq<Seq<u8>>
    decreases args.len(),
{
    if args.len() == 0 {
        Seq::empty()
    } else {
        arg_tokens(args[0]) + args_tokens(args.skip(1))
    }
}

/// Tokens written one after the other, with a separator between each two.
pub open spec fn join_tokens(tokens: Seq<Seq<u8>>) -> Seq<u8>
    decreases tokens.len(),
{
    if tokens.len() == 0 {
        Seq::empty()
    } else if tokens.len() == 1 {
        tokens[0]
    } else {
        tokens[0] + seq![SEPARATOR] + join_tokens(tokens.skip(1))
    }
}

/// The text of a list of arguments: scalars in decimal, arrays between
/// brackets, everything separated by single spaces.
pub open spec fn render_args(args: Seq<ArgView>) -> Seq<u8> {
    join_tokens(args_tokens(args))
}

/// Whether an argument can be written as text and read back: its scalars
/// are reduced into the field, and an array has at least two elements.
pub open spec fn is_canonical(arg: ArgView) -> bool {
    match arg {
        ArgView::Single(value) => value < prime(),
        ArgView::Array(values) => values.len() >= 2 && forall|i: int|
            0 <= i < values.len() ==> (#[trigger] values[i]) < prime(),
    }
}

/// Whether a token holds no separator.
pub open spec fn is_unbroken(token: Seq<u8>) -> bool {
    forall|i: int| 0 <= i < token.len() ==> (#[trigger] token[i]) != SEPARATOR
}

/// Splitting undoes joining: tokens without separator, at least one of them,
/// are the tokens of their joined text.
pub proof fn lemma_split_join(tokens: Seq<Seq<u8>>)
    requires
        tokens.len() >= 1,
        forall|i: int| 0 <= i < tokens.len() ==> is_unbroken(#[trigger] tokens[i]),
    ensures
        split_tokens(join_tokens(tokens)) == tokens,
    decreases tokens.len(),
{
    let text = join_tokens(tokens);
    let first = tokens[0];
    assert(is_unbroken(first));
    if tokens.len() == 1 {
        lemma_first_separator(text, text.len() as int);
        assert(split_tokens(text) =~= tokens);
    } else {
        let rest = tokens.skip(1);
        assert forall|i: int| 0 <= i < rest.len() implies is_unbroken(#[trigger] rest[i]) by {
            assert(rest[i] == tokens[i + 1]);
        }
        lemma_split_join(rest);
        assert forall|i: int| 0 <= i < first.len() implies text[i] != SEPARATOR by {
            assert(text[i] == first[i]);
        }
        assert(text[first.len() as int] == SEPARATOR);
        lemma_first_separator(text, first.len() as int);
        assert(text.take(first.len() as int) =~= first);
        assert(text.skip(first.len() as int + 1) =~= join_tokens(rest));
        assert(split_tokens(text) =~= tokens);
    }
}

/// The tokens of a canonical argument hold no separator, and there is at
/// least one.
proof fn lemma_arg_tokens_unbroken(arg: ArgView)
    requires
        is_canonical(arg),
    ensures
        arg_tokens(arg).len() >= 1,
        arg_tokens(arg)[0].len() >= 1,
        forall|i: int|
            0 <= i < arg_tokens(arg).len() ==> is_unbroken(#[trigger] arg_tokens(arg)[i]),
{
    let tokens = arg_tokens(arg);
    assert forall|i: int| 0 <= i < tokens.len() implies is_unbroken(#[trigger] tokens[i]) by {
        let token = tokens[i];
        match arg {
            ArgView::Single(value) => {
                lemma_decimal_spells(value);
                assert forall|j: int| 0 <= j < token.len() implies (#[trigger] token[j])
                    != SEPARATOR by {
                    assert(is_digit(decimal(value)[j]));
                }
            },
            ArgView::Array(values) => {
                lemma_decimal_spells(values[i]);
                let d = decimal(values[i]);
                assert forall|j: int| 0 <= j < token.len() implies (#[trigger] token[j])
                    != SEPARATOR by {
                    if i == 0 {
                        if j > 0 {
                            assert(token[j] == d[j - 1]);
                            assert(is_digit(d[j - 1]));
                        }
                    } else if i == values.len() - 1 {
                        if j < d.len() {
                            assert(token[j] == d[j]);
                            assert(is_digit(d[j]));
                        }
                    } else {
                        assert(is_digit(d[j]));
                    }
                }
            },
        }
    }
    match arg {
        ArgView::Single(value) => {
            lemma_decimal_spells(value);
        },
        ArgView::Array(values) => {},
    }
}

/// The tokens of canonical arguments hold no separator.
proof fn lemma_args_tokens_unbroken(args: Seq<ArgView>)
    requires
        forall|i: int| 0 <= i < args.len() ==> is_canonical(#[trigger] args[i]),
    ensures
        args.len() >= 1 ==> args_tokens(args).len() >= 1 && args_tokens(args)[0].len() >= 1,
        forall|i: int|
            0 <= i < args_tokens(args).len() ==> is_unbroken(#[trigger] args_tokens(args)[i]),
    decreases args.len(),
{
    if args.len() > 0 {
        let rest = args.skip(1);
        assert forall|i: int| 0 <= i < rest.len() implies is_canonical(#[trigger] rest[i]) by {
            assert(rest[i] == args[i + 1]);
        }
        lemma_args_tokens_unbroken(rest);
        lemma_arg_tokens_unbroken(args[0]);
        let head = arg_tokens(args[0]);
        let all = args_tokens(args);
        assert forall|i: int| 0 <= i < all.len() implies is_unbroken(#[trigger] all[i]) by {
            if i < head.len() {
                assert(all[i] == head[i]);
            } else {
                assert(all[i] == args_tokens(rest)[i - head.len()]);
            }
        }
        assert(all[0] == head[0]);
    }
}

/// The decimal spelling of a scalar of the field is a token that denotes it.
proof fn lemma_decimal_is_scalar(n: nat)
    requires
        n < prime(),
    ensures
        scalar(decimal(n)) == Some(n),
{
    lemma_decimal_parses(n);
    lemma_compact(decimal(n));
}

/// Inside an array of which `i` elements were read, the tokens of the other
/// elements complete the array.
proof fn lemma_read_array(
    tokens: Seq<Seq<u8>>,
    k: int,
    values: Seq<nat>,
    i: int,
    done: Seq<ArgView>,
)
    requires
        is_canonical(ArgView::Array(values)),
        1 <= i < values.len(),
        0 <= k,
        k + values.len() <= tokens.len(),
        forall|j: int|
            0 <= j < values.len() ==> tokens[k + j] == (#[trigger] array_tokens(values)[j]),
    ensures
        parse_tokens(tokens, k + i, Progress { done, open: Some(values.take(i)) }) == parse_tokens(
            tokens,
            k + values.len(),
            Progress { done: done.push(ArgView::Array(values)), open: None },
        ),
    decreases values.len() - i,
{
    let token = tokens[k + i];
    assert(token == array_tokens(values)[i]);
    let d = decimal(values[i]);
    lemma_decimal_spells(values[i]);
    lemma_decimal_is_scalar(values[i]);
    let p = Progress { done, open: Some(values.take(i)) };
    if i == values.len() - 1 {
        assert(token.last() == CLOSE);
        assert(token.drop_last() =~= d);
        assert(values.take(i).push(values[i]) =~= values);
    } else {
        assert(token == d);
        assert(is_digit(d.last()));
        assert(values.take(i).push(values[i]) =~= values.take(i + 1));
        lemma_read_array(tokens, k, values, i + 1, done);
    }
}

/// Reading the tokens of canonical arguments gives the arguments.
proof fn lemma_read_args(tokens: Seq<Seq<u8>>, k: int, args: Seq<ArgView>, done: Seq<ArgView>)
    requires
        forall|i: int| 0 <= i < args.len() ==> is_canonical(#[trigger] args[i]),
        0 <= k <= tokens.len(),
        tokens.skip(k) == args_tokens(args),
    ensures
        parse_tokens(tokens, k, Progress { done, open: None }) == Ok::<Seq<ArgView>, ParseError>(
            done + args,
        ),
    decreases args.len(),
{
    if args.len() == 0 {
        assert(tokens.skip(k).len() == 0);
        assert(done + args =~= done);
    } else {
        let arg = args[0];
        let rest = args.skip(1);
        let head = arg_tokens(arg);
        assert(is_canonical(arg));
        assert forall|i: int| 0 <= i < rest.len() implies is_canonical(#[trigger] rest[i]) by {
            assert(rest[i] == args[i + 1]);
        }
        assert(args_tokens(args) == head + args_tokens(rest));
        assert(tokens.skip(k).len() == head.len() + args_tokens(rest).len());
        lemma_arg_tokens_unbroken(arg);
        assert forall|j: int| 0 <= j < head.len() implies tokens[k + j] == #[trigger] head[j] by {
            assert(tokens.skip(k)[j] == tokens[k + j]);
            assert((head + args_tokens(rest))[j] == head[j]);
        }
        assert(tokens.skip(k + head.len()) =~= args_tokens(rest)) by {
            assert(tokens.skip(k + head.len()) =~= tokens.skip(k).skip(head.len() as int));
        }
        assert(done.push(arg) + rest =~= done + args);
        let p = Progress { done, open: None };
        match arg {
            ArgView::Single(value) => {
                lemma_decimal_spells(value);
                lemma_decimal_is_scalar(value);
                assert(tokens[k] == head[0]);
                assert(is_digit(decimal(value)[0]));
                lemma_read_args(tokens, k + 1, rest, done.push(arg));
            },
            ArgView::Array(values) => {
                lemma_decimal_spells(values[0]);
                lemma_decimal_is_scalar(values[0]);
                let token = tokens[k];
                assert(token == head[0]);
                assert(token[0] == OPEN);
                assert(token.skip(1) =~= decimal(values[0]));
                assert(seq![values[0]] =~= values.take(1));
                lemma_read_array(tokens, k, values, 1, done);
                lemma_read_args(tokens, k + values.len(), rest, done.push(arg));
            },
        }
    }
}

/// Reading is a left inverse of writing: the text of canonical arguments
/// denotes exactly those arguments.
pub proof fn lemma_parse_render(args: Seq<ArgView>)
    requires
        forall|i: int| 0 <= i < args.len() ==> is_canonical(#[trigger] args[i]),
    ensures
        parse_text(render_args(args)) == Ok::<Seq<ArgView>, ParseError>(args),
{
    let tokens = args_tokens(args);
    if args.len() == 0 {
        assert(args =~= Seq::<ArgView>::empty());
        assert(render_args(args).len() == 0);
    } else {
        lemma_args_tokens_unbroken(args);
        lemma_split_join(tokens);
        assert(tokens.skip(0) =~= tokens);
        lemma_read_args(tokens, 0, args, Seq::empty());
        assert(Seq::<ArgView>::empty() + args =~= args);
        lemma_join_length(tokens);
        assert(render_args(args).len() > 0);
    }
}

/// A joined text is at least as long as its first token.
proof fn lemma_join_length(tokens: Seq<Seq<u8>>)
    requires
        tokens.len() >= 1,
    ensures
        join_tokens(tokens).len() >= tokens[0].len(),
{
}

} // verus!
