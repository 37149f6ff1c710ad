//! The parser: from source text to the operation tree.

use vstd::prelude::*;
use vstd::slice::slice_subrange;
use crate::error::{Fault, TrainfuckError};
use crate::op::{instr_of, instrs_of, lemma_loop_model, Instr, Op};
use crate::syntax::{
    closing, continued, followed_by, lemma_closing_in_range, lemma_run_in_range, matching,
    parse_from, parse_text, run_length,
};

verus! {

/// The characters of a text, in order.
pub fn characters(source: &str) -> (chars: Vec<char>)
    ensures
        chars@ == source@,
{
    let mut chars: Vec<char> = Vec::new();
    for c in it: source.chars()
        invariant
            it.seq() == source@,
            chars@ == source@.take(it.index()),
    {
        chars.push(c);
    }
    chars
}

/// Counts how many times `target` repeats from position `start` on.
pub fn count_consecutive(chars: &[char], start: usize, target: char) -> (count: usize)
    requires
        start <= chars@.len(),
    ensures
        count == run_length(chars@, start as int, target),
        start + count <= chars@.len(),
{
    let mut end: usize = start;
    while end < chars.len() && chars[end] == target
        invariant
            start <= end <= chars@.len(),
            run_length(chars@, start as int, target) == (end - start) + run_length(
                chars@,
                end as int,
                target,
            ),
        decreases chars@.len() - end,
    {
        end += 1;
    }
    end - start
}

/// `result` is what the grammar gives: the same tree, or the same fault.
pub open spec fn parsed_as(
    result: Result<Vec<Op>, TrainfuckError>,
    expected: Result<Seq<Instr>, Fault>,
) -> bool {
    match expected {
        Ok(tree) => result matches Ok(ops) && ops.deep_view() == tree,
        Err(fault) => result matches Err(error) && error@ == fault,
    }
}

/// `result` is the loop that the grammar gives: the tree of its body with
/// the position of its closing bracket, or the fault in its body.
pub open spec fn loop_parsed_as(
    result: Result<(Vec<Op>, usize), TrainfuckError>,
    body: Result<Seq<Instr>, Fault>,
    close: int,
) -> bool {
    match body {
        Ok(tree) => result matches Ok((ops, end)) && ops.deep_view() == tree && end == close,
        Err(fault) => result matches Err(error) && error@ == fault,
    }
}

/// One more operation done: it may be counted to the operations done, or
/// put before the rest.
proof fn lemma_continued_push(done: Seq<Op>, op: Op, rest: Result<Seq<Instr>, Fault>)
    ensures
        continued(instrs_of(done), followed_by(instr_of(op), rest)) == continued(
            instrs_of(done.push(op)),
            rest,
        ),
{
    assert(instrs_of(done.push(op)) =~= instrs_of(done).push(instr_of(op)));
    if let Ok(tail) = rest {
        assert(instrs_of(done) + (seq![instr_of(op)] + tail) =~= instrs_of(done).push(instr_of(op))
            + tail);
    }
}

/// Finds the `]` that matches the `[` at position `start` by counting bracket
/// depth, and parses the text strictly between the two. Gives the loop's
/// body and the position of the `]`.
pub fn parse_loop(chars: &[char], start: usize) -> (result: Result<(Vec<Op>, usize), TrainfuckError>)
    ensures
        matching(chars@, start as int) is None ==> (result matches Err(error) && error@
            == Fault::UnmatchedOpenBracket(start as nat)),
        matching(chars@, start as int) matches Some(close) ==> loop_parsed_as(
            result,
            parse_text(chars@.subrange(start + 1, close)),
            close,
        ),
    decreases chars@.len(), 0nat,
{
    if start >= chars.len() {
        return Err(TrainfuckError::UnmatchedOpenBracket(start));
    }
    let mut depth: usize = 1;
    let mut i: usize = start + 1;
    while i < chars.len() && depth > 0
        invariant
            start < i <= chars@.len(),
            depth <= i - start,
            matching(chars@, start as int) == if depth == 0 {
                Some(i as int)
            } else {
                closing(chars@, i as int, depth as nat)
            },
        decreases chars@.len() - i + if depth > 0 { 1int } else { 0int },
    {
        let c = chars[i];
        if c == '[' {
            depth += 1;
        } else if c == ']' {
            depth -= 1;
        }
        if depth > 0 {
            i += 1;
        }
    }
    if depth != 0 {
        return Err(TrainfuckError::UnmatchedOpenBracket(start));
    }
    let inner = slice_subrange(chars, start + 1, i);
    match parse_chars(inner) {
        Ok(ops) => Ok((ops, i)),
        Err(error) => Err(error),
    }
}

/// Parses a sequence of characters into operations.
pub fn parse_chars(chars: &[char]) -> (result: Result<Vec<Op>, TrainfuckError>)
    ensures
        parsed_as(result, parse_text(chars@)),
    decreases chars@.len(), 1nat,
{
    let mut ops: Vec<Op> = Vec::new();
    let mut i: usize = 0;
    while i < chars.len()
        invariant
            i <= chars@.len(),
            parse_text(chars@) == continued(instrs_of(ops@), parse_from(chars@, i as int)),
        decreases chars@.len() - i,
    {
        let ghost done = ops@;
        let ghost here = parse_from(chars@, i as int);
        let c = chars[i];
        match c {
            '>' => {
                let count = count_consecutive(chars, i, '>');
                let op = Op::MoveRight(count);
                proof {
                    lemma_run_in_range(chars@, i as int, '>');
                    lemma_continued_push(done, op, parse_from(chars@, i + count));
                }
                ops.push(op);
                i += count;
            },
            '<' => {
                let count = count_consecutive(chars, i, '<');
                let op = Op::MoveLeft(count);
                proof {
                    lemma_run_in_range(chars@, i as int, '<');
                    lemma_continued_push(done, op, parse_from(chars@, i + count));
                }
                ops.push(op);
                i += count;
            },
            '+' => {
                let count = count_consecutive(chars, i, '+');
                let op = Op::Increment((count % 256) as u8);
                proof {
                    lemma_run_in_range(chars@, i as int, '+');
                    lemma_continued_push(done, op, parse_from(chars@, i + count));
                }
                ops.push(op);
                i += count;
            },
            '-' => {
                let count = count_consecutive(chars, i, '-');
                let op = Op::Decrement((count % 256) as u8);
                proof {
                    lemma_run_in_range(chars@, i as int, '-');
                    lemma_continued_push(done, op, parse_from(chars@, i + count));
                }
                ops.push(op);
                i += count;
            },
            '.' => {
                proof {
                    lemma_continued_push(done, Op::Output, parse_from(chars@, i + 1));
                }
                ops.push(Op::Output);
                i += 1;
            },
            ',' => {
                proof {
                    lemma_continued_push(done, Op::Input, parse_from(chars@, i + 1));
                }
                ops.push(Op::Input);
                i += 1;
            },
            '[' => {
                match parse_loop(chars, i) {
                    Err(error) => {
                        return Err(error);
                    },
                    Ok((loop_ops, end_pos)) => {
                        proof {
                            lemma_closing_in_range(chars@, i + 1, 1);
                            lemma_loop_model(loop_ops);
                            lemma_continued_push(
                                done,
                                Op::Loop(loop_ops),
                                parse_from(chars@, end_pos + 1),
                            );
                        }
                        ops.push(Op::Loop(loop_ops));
                        i = end_pos + 1;
                    },
                }
            },
            ']' => {
                return Err(TrainfuckError::UnmatchedCloseBracket(i));
            },
            '%' => {
                proof {
                    lemma_continued_push(done, Op::Connect, parse_from(chars@, i + 1));
                }
                ops.push(Op::Connect);
                i += 1;
            },
            '$' => {
                proof {
                    lemma_continued_push(done, Op::Listen, parse_from(chars@, i + 1));
                }
                ops.push(Op::Listen);
                i += 1;
            },
            '@' => {
                proof {
                    lemma_continued_push(done, Op::Accept, parse_from(chars@, i + 1));
                }
                ops.push(Op::Accept);
                i += 1;
            },
            '`' => {
                proof {
                    lemma_continued_push(done, Op::Receive, parse_from(chars@, i + 1));
                }
                ops.push(Op::Receive);
                i += 1;
            },
            '\'' => {
                proof {
                    lemma_continued_push(done, Op::Send, parse_from(chars@, i + 1));
                }
                ops.push(Op::Send);
                i += 1;
            },
            _ => {
                i += 1;
            },
        }
    }
    proof {
        assert(instrs_of(ops@) + Seq::<Instr>::empty() =~= instrs_of(ops@));
        lemma_loop_model(ops);
    }
    Ok(ops)
}

/// Parses source text into operations: runs of `>`, `<`, `+` and `-` become
/// one counted operation each, a bracket pair becomes a loop around what
/// stands between the two, and every character without a meaning is
/// skipped. A bracket without its partner is refused, with its position
/// counted in characters.
pub fn parse(source: &str) -> (result: Result<Vec<Op>, TrainfuckError>)
    ensures
        parsed_as(result, parse_text(source@)),
{
    let chars = characters(source);
    parse_chars(chars.as_slice())
}

} // verus!
