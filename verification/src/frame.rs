//! The program that the engine runs: the proof-mode header, the entry code,
//! the program's own instructions and the footer, one after the other; and
//! the table that tells the engine at which offset each group of hints runs.

use vstd::prelude::*;

verus! {

/// The number of memory cells that the first `k` instructions take. An
/// instruction is given as the number of cells of its encoding and its
/// hints.
pub open spec fn offset_before<H>(stream: Seq<(usize, Vec<H>)>, k: int) -> int
    decreases k,
{
    if k <= 0 {
        0
    } else {
        offset_before(stream, k - 1) + stream[k - 1].0
    }
}

/// The hints of the instructions from the `k`-th on, each group with the
/// offset of its instruction in the program. Instructions without hints have
/// no entry.
pub open spec fn hints_from<H>(stream: Seq<(usize, Vec<H>)>, k: int) -> Seq<(usize, Vec<H>)>
    decreases stream.len() - k,
{
    if k < 0 || k >= stream.len() {
        Seq::empty()
    } else if stream[k].1@.len() > 0 {
        seq![(offset_before(stream, k) as usize, stream[k].1)] + hints_from(stream, k + 1)
    } else {
        hints_from(stream, k + 1)
    }
}

/// The hint table of a program: the hints of its instructions, each group
/// with the offset of its instruction.
pub open spec fn hint_table<H>(stream: Seq<(usize, Vec<H>)>) -> Seq<(usize, Vec<H>)> {
    hints_from(stream, 0)
}

/// The program's size is at least the offset of each of its instructions.
pub proof fn lemma_offset_monotone<H>(stream: Seq<(usize, Vec<H>)>, k: int, m: int)
    requires
        0 <= k <= m,
    ensures
        0 <= offset_before(stream, k) <= offset_before(stream, m),
    decreases m,
{
    if k < m {
        lemma_offset_monotone(stream, k, m - 1);
    } else if k > 0 {
        lemma_offset_monotone(stream, k - 1, k - 1);
    }
}

/// Puts the program together that the engine runs: the header, the entry
/// code, the program's own instructions and the footer, in this order.
pub fn assemble_stream<T>(header: Vec<T>, entry: Vec<T>, body: Vec<T>, footer: Vec<T>) -> (r: Vec<
    T,
>)
    ensures
        r@ == header@ + entry@ + body@ + footer@,
{
    let mut stream: Vec<T> = header;
    let mut entry: Vec<T> = entry;
    let mut body: Vec<T> = body;
    let mut footer: Vec<T> = footer;
    stream.append(&mut entry);
    stream.append(&mut body);
    stream.append(&mut footer);
    stream
}

/// The number of memory cells that a program takes, if a machine word can
/// hold it.
pub fn stream_size<H>(instructions: &Vec<(usize, Vec<H>)>) -> (r: Option<usize>)
    ensures
        match r {
            Some(size) => size == offset_before(instructions@, instructions@.len() as int),
            None => offset_before(instructions@, instructions@.len() as int) > usize::MAX,
        },
{
    let len: usize = instructions.len();
    let mut total: usize = 0;
    let mut i: usize = 0;
    while i < len
        invariant
            i <= len,
            len == instructions@.len(),
            total == offset_before(instructions@, i as int),
        decreases len - i,
    {
        let size: usize = instructions[i].0;
        if size > usize::MAX - total {
            proof {
                lemma_offset_monotone(instructions@, i + 1, len as int);
            }
            return None;
        }
        total = total + size;
        i = i + 1;
    }
    Some(total)
}

/// Builds the hint table of a program from its instructions, each given as
/// the number of cells of its encoding and its hints. Offsets count cells,
/// not instructions.
pub fn build_hints_vec<H>(instructions: Vec<(usize, Vec<H>)>) -> (r: Vec<(usize, Vec<H>)>)
    requires
        offset_before(instructions@, instructions@.len() as int) <= usize::MAX,
    ensures
        r@ == hint_table(instructions@),
{
    let ghost stream = instructions@;
    let mut rest: Vec<(usize, Vec<H>)> = instructions;
    let len: usize = rest.len();
    let mut total: usize = 0;
    let mut i: usize = 0;
    while i < len
        invariant
            i <= len,
            len == stream.len(),
            rest@ == stream,
            total == offset_before(stream, i as int),
            offset_before(stream, len as int) <= usize::MAX,
        decreases len - i,
    {
        proof {
            lemma_offset_monotone(stream, i + 1, len as int);
        }
        total = total + rest[i].0;
        i = i + 1;
    }
    let mut reversed: Vec<(usize, Vec<H>)> = Vec::new();
    let mut k: usize = len;
    assert(reversed@.reverse() =~= hints_from(stream, k as int));
    while k > 0
        invariant
            k <= len,
            len == stream.len(),
            rest@ == stream.take(k as int),
            total == offset_before(stream, k as int),
            reversed@.reverse() == hints_from(stream, k as int),
        decreases k,
    {
        let ghost before = reversed@;
        let entry: Option<(usize, Vec<H>)> = rest.pop();
        let (size, hints): (usize, Vec<H>) = entry.unwrap();
        proof {
            assert(stream.take(k as int).last() == stream[k - 1]);
            assert(stream.take(k as int).drop_last() =~= stream.take(k - 1));
            lemma_offset_monotone(stream, k - 1, k - 1);
        }
        total = total - size;
        k = k - 1;
        if hints.len() > 0 {
            reversed.push((total, hints));
            proof {
                assert(reversed@ == before.push((total, hints)));
                assert(reversed@.reverse() =~= seq![(total, hints)] + before.reverse());
            }
        }
    }
    let ghost table = hint_table(stream);
    let mut hints_vec: Vec<(usize, Vec<H>)> = Vec::new();
    assert(hints_vec@ + reversed@.reverse() =~= table);
    while reversed.len() > 0
        invariant
            hints_vec@ + reversed@.reverse() == table,
        decreases reversed.len(),
    {
        let ghost done = hints_vec@;
        let ghost left = reversed@;
        let entry: (usize, Vec<H>) = reversed.pop().unwrap();
        hints_vec.push(entry);
        proof {
            assert(left =~= reversed@.push(entry));
            assert(left.reverse() =~= seq![entry] + reversed@.reverse());
            assert(hints_vec@ + reversed@.reverse() =~= done + left.reverse());
        }
    }
    assert(reversed@.reverse() =~= Seq::empty());
    assert(hints_vec@ + reversed@.reverse() =~= hints_vec@);
    hints_vec
}

} // verus!
