//! The arguments handed to a program: scalars and arrays of scalars, and the
//! text form they are read from.

use vstd::prelude::*;
use vstd::slice::slice_subrange;
use vstd::string::*;
use crate::felt::{
    all_digits, digits_value, felt_from_dec_bytes, felt_values, is_digit, parse_decimal, Felt,
    MAX_TOKEN_LEN,
};

verus! {

/// An argument of the program's main function.
#[derive(Clone, Debug, PartialEq, Eq)]
pub enum FuncArg {
    Array(Vec<Felt>),
    Single(Felt),
}

/// The arguments of the program's main function, in order.
#[derive(Clone, Debug, Default, PartialEq, Eq)]
pub struct FuncArgs(pub Vec<FuncArg>);

/// The model of a `FuncArg`.
pub enum ArgView {
    Array(Seq<nat>),
    Single(nat),
}

impl View for FuncArg {
    type V = ArgView;

    open spec fn view(&self) -> ArgView {
        match *self {
            FuncArg::Array(values) => ArgView::Array(felt_values(values@)),
            FuncArg::Single(value) => ArgView::Single(value@),
        }
    }
}

/// The models of a sequence of arguments.
pub open spec fn args_view(s: Seq<FuncArg>) -> Seq<ArgView> {
    s.map_values(|a: FuncArg| a@)
}

impl View for FuncArgs {
    type V = Seq<ArgView>;

    open spec fn view(&self) -> Seq<ArgView> {
        args_view(self.0@)
    }
}


/// Why a text is no list of arguments.
#[derive(Clone, Copy, Debug, PartialEq, Eq, Structural)]
pub enum ParseError {
    /// A token is no decimal number that the parser takes.
    InvalidToken,
    /// The text ends inside an array.
    UnterminatedArray,
}

impl ParseError {
    /// What is reported of the failure.
    pub open spec fn message_text(self) -> Seq<char> {
        match self {
            ParseError::InvalidToken => "invalid argument: not a decimal number"@,
            ParseError::UnterminatedArray => "unterminated array: no token ends with ']'"@,
        }
    }

    /// What is reported of the failure.
    pub fn message(&self) -> (s: String)
        ensures
            s@ == self.message_text(),
    {
        match self {
            ParseError::InvalidToken => String::from_str("invalid argument: not a decimal number"),
            ParseError::UnterminatedArray => String::from_str(
                "unterminated array: no token ends with ']'",
            ),
        }
    }
}

/// The byte that separates tokens, a space.
pub const SEPARATOR: u8 = 32;

/// The byte that opens an array, `[`.
pub const OPEN: u8 = 91;

/// The byte that closes an array, `]`.
pub const CLOSE: u8 = 93;

/// The number of bytes before the first separator, or the length of the
/// text where it holds none.
pub open spec fn first_separator(text: Seq<u8>) -> int
    decreases text.len(),
{
    if text.len() == 0 || text[0] == SEPARATOR {
        0
    } else {
        1 + first_separator(text.drop_first())
    }
}

/// The tokens of a text: the runs of bytes between its separators. A text
/// without separator is one token, and two separators in a row hold an empty
/// token between them.
pub open spec fn split_tokens(text: Seq<u8>) -> Seq<Seq<u8>>
    decreases text.len(),
{
    let end = first_separator(text);
    if 0 <= end < text.len() {
        seq![text.take(end)] + split_tokens(text.skip(end + 1))
    } else {
        seq![text]
    }
}

/// The byte of a minus sign.
pub const MINUS: u8 = 45;

/// The byte of the digit zero.
pub const ZERO: u8 = 48;

/// The number of bytes that the sign of a token takes.
pub open spec fn sign_len(token: Seq<u8>) -> int {
    if token.len() > 0 && token[0] == MINUS {
        1
    } else {
        0
    }
}

/// The number of zeros at the beginning of `digits` that stand before
/// another digit.
pub open spec fn padding(digits: Seq<u8>) -> int
    decreases digits.len(),
{
    if digits.len() > 1 && digits[0] == ZERO && is_digit(digits[1]) {
        1 + padding(digits.drop_first())
    } else {
        0
    }
}

/// A token without the zeros that pad its number.
pub open spec fn compact(token: Seq<u8>) -> Seq<u8> {
    let digits = token.skip(sign_len(token));
    token.take(sign_len(token)) + digits.skip(padding(digits))
}

/// The scalar that a token denotes: a decimal number, read modulo the
/// prime. Without the zeros that pad it, the token may have at most 77
/// bytes.
pub open spec fn scalar(token: Seq<u8>) -> Option<nat> {
    if compact(token).len() <= MAX_TOKEN_LEN {
        parse_decimal(token)
    } else {
        None
    }
}

/// What the parser holds between two tokens: the arguments read so far and,
/// inside an array, the elements read so far.
pub struct Progress {
    pub done: Seq<ArgView>,
    pub open: Option<Seq<nat>>,
}

/// Reads one token. Outside an array, a token that begins with `[` opens an
/// array with its first element, and any other token is a scalar argument.
/// Inside an array, a token that ends with `]` holds the last element and
/// closes the array, and any other token is one more element.
pub open spec fn read_token(token: Seq<u8>, p: Progress) -> Result<Progress, ParseError> {
    match p.open {
        None => if token.len() > 0 && token[0] == OPEN {
            match scalar(token.skip(1)) {
                Some(v) => Ok(Progress { done: p.done, open: Some(seq![v]) }),
                None => Err(ParseError::InvalidToken),
            }
        } else {
            match scalar(token) {
                Some(v) => Ok(Progress { done: p.done.push(ArgView::Single(v)), open: None }),
                None => Err(ParseError::InvalidToken),
            }
        },
        Some(elements) => if token.len() > 0 && token.last() == CLOSE {
            match scalar(token.drop_last()) {
                Some(v) => Ok(
                    Progress { done: p.done.push(ArgView::Array(elements.push(v))), open: None },
                ),
                None => Err(ParseError::InvalidToken),
            }
        } else {
            match scalar(token) {
                Some(v) => Ok(Progress { done: p.done, open: Some(elements.push(v)) }),
                None => Err(ParseError::InvalidToken),
            }
        },
    }
}

/// Reads the tokens from the `k`-th on, one after the other. The text must
/// not end inside an array.
pub open spec fn parse_tokens(tokens: Seq<Seq<u8>>, k: int, p: Progress) -> Result<
    Seq<ArgView>,
    ParseError,
>
    decreases tokens.len() - k,
{
    if k < 0 || k >= tokens.len() {
        match p.open {
            None => Ok(p.done),
            Some(_) => Err(ParseError::UnterminatedArray),
        }
    } else {
        match read_token(tokens[k], p) {
            Ok(next) => parse_tokens(tokens, k + 1, next),
            Err(e) => Err(e),
        }
    }
}

/// The arguments that a text denotes. The empty text denotes none.
pub open spec fn parse_text(text: Seq<u8>) -> Result<Seq<ArgView>, ParseError> {
    if text.len() == 0 {
        Ok(Seq::empty())
    } else {
        parse_tokens(split_tokens(text), 0, Progress { done: Seq::empty(), open: None })
    }
}

/// A text without separator before its byte `end`, and with one there or
/// ending there, has its first separator at `end`.
pub proof fn lemma_first_separator(text: Seq<u8>, end: int)
    requires
        0 <= end <= text.len(),
        forall|i: int| 0 <= i < end ==> text[i] != SEPARATOR,
        end == text.len() || text[end] == SEPARATOR,
    ensures
        first_separator(text) == end,
    decreases end,
{
    if end > 0 {
        let rest = text.drop_first();
        assert forall|i: int| 0 <= i < end - 1 implies rest[i] != SEPARATOR by {
            assert(rest[i] == text[i + 1]);
        }
        lemma_first_separator(rest, end - 1);
    }
}

/// A zero before a run of digits does not change the number they spell.
proof fn lemma_leading_zero(digits: Seq<u8>)
    ensures
        digits_value(seq![ZERO] + digits) == digits_value(digits),
    decreases digits.len(),
{
    let padded = seq![ZERO] + digits;
    if digits.len() == 0 {
        assert(padded.drop_last() =~= Seq::<u8>::empty());
        assert(digits_value(padded.drop_last()) == 0);
    } else {
        lemma_leading_zero(digits.drop_last());
        assert(padded.drop_last() =~= seq![ZERO] + digits.drop_last());
        assert(padded.last() == digits.last());
    }
}

/// Digits without their padding are as many or fewer, digits if they were
/// digits, and spell the same number.
pub proof fn lemma_padding(digits: Seq<u8>)
    ensures
        0 <= padding(digits) <= digits.len(),
        digits.len() > 0 ==> padding(digits) < digits.len(),
        padding(digits) > 0 ==> is_digit(digits[padding(digits)]),
        all_digits(digits.skip(padding(digits))) == all_digits(digits),
        all_digits(digits) ==> digits_value(digits.skip(padding(digits))) == digits_value(digits),
    decreases digits.len(),
{
    let p = padding(digits);
    if p == 0 {
        assert(digits.skip(0) =~= digits);
    } else {
        let rest = digits.drop_first();
        lemma_padding(rest);
        assert(digits.skip(p) =~= rest.skip(p - 1));
        assert(digits =~= seq![ZERO] + rest);
        lemma_leading_zero(rest);
        if p - 1 > 0 {
            assert(rest[p - 1] == digits[p]);
        }
        if all_digits(rest) {
            assert forall|i: int| 0 <= i < digits.len() implies is_digit(#[trigger] digits[i]) by {
                if i > 0 {
                    assert(rest[i - 1] == digits[i]);
                }
            }
        }
        if all_digits(digits) {
            assert forall|i: int| 0 <= i < rest.len() implies is_digit(#[trigger] rest[i]) by {
                assert(rest[i] == digits[i + 1]);
            }
        }
    }
}

/// A token denotes the same scalar with and without its padding, and is no
/// shorter with it.
pub proof fn lemma_compact(token: Seq<u8>)
    ensures
        compact(token).len() <= token.len(),
        parse_decimal(compact(token)) == parse_decimal(token),
{
    let sign = sign_len(token);
    let digits = token.skip(sign);
    let p = padding(digits);
    let short = compact(token);
    lemma_padding(digits);
    if sign == 1 {
        assert(short[0] == MINUS);
        assert(short.skip(1) =~= digits.skip(p));
        assert(token.skip(1) =~= digits);
    } else {
        assert(digits =~= token);
        assert(short =~= digits.skip(p));
        if p > 0 {
            assert(short[0] == digits[p]);
        }
    }
}

/// The place behind the padding of the digits that begin at `sign`.
fn skip_padding(token: &[u8], sign: usize) -> (start: usize)
    requires
        sign <= token@.len(),
    ensures
        sign <= start <= token@.len(),
        start - sign == padding(token@.skip(sign as int)),
{
    let len: usize = token.len();
    let ghost digits = token@.skip(sign as int);
    let mut start: usize = sign;
    assert(digits.skip(0) =~= digits);
    while len - start > 1 && token[start] == ZERO && ZERO <= token[start + 1] && token[start + 1]
        <= 57
        invariant
            sign <= start <= len,
            len == token@.len(),
            digits == token@.skip(sign as int),
            padding(digits) == (start - sign) + padding(digits.skip(start - sign)),
        decreases len - start,
    {
        proof {
            let rest = digits.skip(start - sign);
            assert(rest[0] == token@[start as int]);
            assert(rest[1] == token@[start + 1]);
            assert(rest.drop_first() =~= digits.skip(start + 1 - sign));
        }
        start = start + 1;
    }
    proof {
        let rest = digits.skip(start - sign);
        if len - start > 1 {
            assert(rest[0] == token@[start as int]);
            assert(rest[1] == token@[start + 1]);
        }
    }
    start
}

/// A minus sign and the bytes of `token` from `start` on.
fn negative_of(token: &[u8], start: usize) -> (r: Vec<u8>)
    requires
        start <= token@.len(),
    ensures
        r@ == seq![MINUS] + token@.skip(start as int),
{
    let len: usize = token.len();
    let mut short: Vec<u8> = Vec::new();
    short.push(MINUS);
    let mut i: usize = start;
    while i < len
        invariant
            start <= i <= len,
            len == token@.len(),
            short@ == seq![MINUS] + token@.subrange(start as int, i as int),
        decreases len - i,
    {
        short.push(token[i]);
        assert(short@ =~= seq![MINUS] + token@.subrange(start as int, i + 1));
        i = i + 1;
    }
    assert(token@.subrange(start as int, len as int) =~= token@.skip(start as int));
    short
}

/// The scalar that a token denotes.
fn parse_scalar(token: &[u8]) -> (r: Option<Felt>)
    ensures
        match r {
            Some(f) => scalar(token@) == Some(f@),
            None => scalar(token@) is None,
        },
{
    let len: usize = token.len();
    let sign: usize = if len > 0 && token[0] == MINUS {
        1
    } else {
        0
    };
    let start: usize = skip_padding(token, sign);
    proof {
        lemma_compact(token@);
        assert(token@.skip(sign as int).skip(start - sign) =~= token@.skip(start as int));
        assert(compact(token@) == token@.take(sign as int) + token@.skip(start as int));
    }
    if len - start > MAX_TOKEN_LEN - sign {
        None
    } else if start == sign {
        assert(compact(token@) =~= token@);
        felt_from_dec_bytes(token)
    } else if sign == 0 {
        let short: &[u8] = slice_subrange(token, start, len);
        assert(compact(token@) =~= short@);
        felt_from_dec_bytes(short)
    } else {
        let short: Vec<u8> = negative_of(token, start);
        assert(compact(token@) =~= short@);
        felt_from_dec_bytes(short.as_slice())
    }
}

/// The end of the token that begins at `pos`.
fn token_end(text: &[u8], pos: usize) -> (end: usize)
    requires
        pos <= text@.len(),
    ensures
        pos <= end <= text@.len(),
        end - pos == first_separator(text@.skip(pos as int)),
{
    let len: usize = text.len();
    let mut end: usize = pos;
    while end < len && text[end] != SEPARATOR
        invariant
            pos <= end <= len,
            len == text@.len(),
            forall|i: int| pos <= i < end ==> text@[i] != SEPARATOR,
        decreases len - end,
    {
        end = end + 1;
    }
    proof {
        let rest = text@.skip(pos as int);
        assert forall|i: int| 0 <= i < end - pos implies rest[i] != SEPARATOR by {
            assert(rest[i] == text@[pos + i]);
        }
        lemma_first_separator(rest, end - pos);
    }
    end
}

/// The tokens of a text from `pos` on are the token that begins there and,
/// if a separator ends it, the tokens behind that separator.
proof fn lemma_split_step(text: Seq<u8>, pos: int, end: int)
    requires
        0 <= pos <= end <= text.len(),
        end - pos == first_separator(text.skip(pos)),
    ensures
        split_tokens(text.skip(pos))[0] == text.subrange(pos, end),
        end < text.len() ==> split_tokens(text.skip(pos)).skip(1) == split_tokens(
            text.skip(end + 1),
        ),
        end == text.len() ==> split_tokens(text.skip(pos)).len() == 1,
{
    let rest = text.skip(pos);
    if end < text.len() {
        assert(rest.skip(end - pos + 1) =~= text.skip(end + 1));
        assert(rest.take(end - pos) =~= text.subrange(pos, end));
        assert(split_tokens(rest).skip(1) =~= split_tokens(text.skip(end + 1)));
    } else {
        assert(rest =~= text.subrange(pos, end));
    }
}

/// Reads one token into the arguments and the open array.
fn consume_token(
    token: &[u8],
    args: &mut Vec<FuncArg>,
    elements: &mut Vec<Felt>,
    in_array: bool,
) -> (r: Result<bool, ParseError>)
    ensures
        match read_token(
            token@,
            Progress {
                done: args_view(old(args)@),
                open: if in_array {
                    Some(felt_values(old(elements)@))
                } else {
                    None
                },
            },
        ) {
            Ok(next) => {
                &&& r matches Ok(still)
                &&& still == (next.open is Some)
                &&& args_view(final(args)@) == next.done
                &&& still ==> next.open == Some(felt_values(final(elements)@))
            },
            Err(e) => r == Err::<bool, ParseError>(e),
        },
{
    let ghost args_before = args@;
    let ghost elements_before = elements@;
    if !in_array {
        if token.len() > 0 && token[0] == OPEN {
            let digits: &[u8] = slice_subrange(token, 1, token.len());
            assert(digits@ =~= token@.skip(1));
            match parse_scalar(digits) {
                Some(v) => {
                    let mut first: Vec<Felt> = Vec::new();
                    first.push(v);
                    *elements = first;
                    assert(felt_values(elements@) =~= seq![v@]);
                    Ok(true)
                },
                None => Err(ParseError::InvalidToken),
            }
        } else {
            match parse_scalar(token) {
                Some(v) => {
                    args.push(FuncArg::Single(v));
                    proof {
                        assert(args@ == args_before.push(FuncArg::Single(v)));
                        assert(args_view(args@) =~= args_view(args_before).push(
                            ArgView::Single(v@),
                        ));
                    }
                    Ok(false)
                },
                None => Err(ParseError::InvalidToken),
            }
        }
    } else {
        if token.len() > 0 && token[token.len() - 1] == CLOSE {
            let digits: &[u8] = slice_subrange(token, 0, token.len() - 1);
            assert(digits@ =~= token@.drop_last());
            match parse_scalar(digits) {
                Some(v) => {
                    elements.push(v);
                    let ghost all = elements@;
                    let mut array: Vec<Felt> = Vec::new();
                    core::mem::swap(&mut array, elements);
                    args.push(FuncArg::Array(array));
                    proof {
                        assert(all == elements_before.push(v));
                        assert(felt_values(all) =~= felt_values(elements_before).push(v@));
                        assert(args@ == args_before.push(FuncArg::Array(array)));
                        assert(args_view(args@) =~= args_view(args_before).push(
                            ArgView::Array(felt_values(all)),
                        ));
                    }
                    Ok(false)
                },
                None => Err(ParseError::InvalidToken),
            }
        } else {
            match parse_scalar(token) {
                Some(v) => {
                    elements.push(v);
                    proof {
                        assert(elements@ == elements_before.push(v));
                        assert(felt_values(elements@) =~= felt_values(elements_before).push(v@));
                    }
                    Ok(true)
                },
                None => Err(ParseError::InvalidToken),
            }
        }
    }
}

/// Reads a list of arguments from its text: tokens separated by single
/// spaces, each a decimal scalar, where a token that begins with `[` opens
/// an array that goes on to the first later token that ends with `]`.
pub fn parse_args(value: &str) -> (r: Result<FuncArgs, ParseError>)
    ensures
        match parse_text(value.spec_bytes()) {
            Ok(args) => r matches Ok(a) && a@ == args,
            Err(e) => r == Err::<FuncArgs, ParseError>(e),
        },
{
    let text: &[u8] = value.as_bytes();
    let len: usize = text.len();
    let mut args: Vec<FuncArg> = Vec::new();
    assert(args_view(args@) =~= Seq::empty());
    if len == 0 {
        return Ok(FuncArgs(args));
    }
    let ghost tokens = split_tokens(text@);
    let ghost mut k: int = 0;
    let ghost mut progress = Progress { done: Seq::empty(), open: None };
    let mut elements: Vec<Felt> = Vec::new();
    let mut in_array: bool = false;
    let mut pos: usize = 0;
    let mut finished: bool = false;
    assert(text@.skip(0) =~= text@);
    assert(tokens.skip(0) =~= tokens);
    while !finished
        invariant
            len == text@.len(),
            len > 0,
            text@ == value.spec_bytes(),
            tokens == split_tokens(text@),
            0 <= k <= tokens.len(),
            pos <= len,
            finished ==> k == tokens.len(),
            !finished ==> tokens.skip(k) == split_tokens(text@.skip(pos as int)),
            progress.done == args_view(args@),
            in_array == (progress.open is Some),
            in_array ==> progress.open == Some(felt_values(elements@)),
            parse_tokens(tokens, k, progress) == parse_text(text@),
        decreases
                (if finished {
                    0int
                } else {
                    1int
                }),
                len - pos,
    {
        let end: usize = token_end(text, pos);
        let token: &[u8] = slice_subrange(text, pos, end);
        proof {
            lemma_split_step(text@, pos as int, end as int);
            assert(tokens[k] == tokens.skip(k)[0]);
            assert(tokens.skip(k + 1) =~= tokens.skip(k).skip(1));
        }
        match consume_token(token, &mut args, &mut elements, in_array) {
            Ok(still) => {
                in_array = still;
            },
            Err(e) => {
                return Err(e);
            },
        }
        proof {
            progress = read_token(tokens[k], progress)->Ok_0;
            k = k + 1;
        }
        if end < len {
            pos = end + 1;
        } else {
            finished = true;
        }
    }
    if in_array {
        return Err(ParseError::UnterminatedArray);
    }
    Ok(FuncArgs(args))
}

/// Reads the arguments of the main function from their text: tokens
/// separated by single spaces, each a decimal scalar, where a token that
/// begins with `[` opens an array that goes on to the first later token that
/// ends with `]`. The empty text holds no argument. Reports a token that is
/// no decimal number, and a text that ends inside an array.
pub fn process_args(value: &str) -> (r: Result<FuncArgs, String>)
    ensures
        match parse_text(value.spec_bytes()) {
            Ok(args) => r matches Ok(a) && a@ == args,
            Err(e) => r matches Err(message) && message@ == e.message_text(),
        },
{
    match parse_args(value) {
        Ok(args) => Ok(args),
        Err(e) => Err(e.message()),
    }
}

} // verus!
