//! The grammar of the language over sequences of characters: what a source
//! text means as an operation tree, and which texts are refused.

use vstd::prelude::*;
use crate::error::Fault;
use crate::op::Instr;

verus! {

/// The characters that count: a run of one of them is one operation.
pub open spec fn is_counted(c: char) -> bool {
    c == '>' || c == '<' || c == '+' || c == '-'
}

/// The operation that a run of `n` copies of the counted character `c`
/// stands for: a move by `n` cells, or a change of the cell by `n` modulo 256.
pub open spec fn counted(c: char, n: nat) -> Instr {
    if c == '>' {
        Instr::MoveRight(n)
    } else if c == '<' {
        Instr::MoveLeft(n)
    } else if c == '+' {
        Instr::Increment(n % 256)
    } else {
        Instr::Decrement(n % 256)
    }
}

/// The operation that a character stands for by itself, if it is one of
/// these seven. Any other character that is neither counted nor a bracket
/// has no meaning.
pub open spec fn single(c: char) -> Option<Instr> {
    match c {
        '.' => Some(Instr::Output),
        ',' => Some(Instr::Input),
        '%' => Some(Instr::Connect),
        '$' => Some(Instr::Listen),
        '@' => Some(Instr::Accept),
        '`' => Some(Instr::Receive),
        '\'' => Some(Instr::Send),
        _ => None,
    }
}

/// Length of the longest run of `target` that starts at position `start`.
pub open spec fn run_length(s: Seq<char>, start: int, target: char) -> nat
    decreases s.len() - start,
{
    if 0 <= start < s.len() && s[start] == target {
        1 + run_length(s, start + 1, target)
    } else {
        0
    }
}

/// Position of the `]` that brings the bracket depth to zero, scanning from
/// `from` with `depth` brackets open: each `[` on the way opens one more,
/// each `]` closes one. `None` if the text ends first.
pub open spec fn closing(s: Seq<char>, from: int, depth: nat) -> Option<int>
    decreases s.len() - from,
{
    if from < 0 || from >= s.len() || depth == 0 {
        None
    } else if s[from] == ']' {
        if depth == 1 {
            Some(from)
        } else {
            closing(s, from + 1, (depth - 1) as nat)
        }
    } else if s[from] == '[' {
        closing(s, from + 1, depth + 1)
    } else {
        closing(s, from + 1, depth)
    }
}

/// Position of the `]` that matches the `[` at position `open`, if any.
pub open spec fn matching(s: Seq<char>, open: int) -> Option<int> {
    closing(s, open + 1, 1)
}

/// `first`, then whatever `rest` is: a fault in the rest is the fault of the
/// whole.
pub open spec fn followed_by(first: Instr, rest: Result<Seq<Instr>, Fault>) -> Result<
    Seq<Instr>,
    Fault,
> {
    match rest {
        Ok(tail) => Ok(seq![first] + tail),
        Err(fault) => Err(fault),
    }
}

/// The operations `done`, then whatever `rest` is: a fault in the rest is
/// the fault of the whole.
pub open spec fn continued(done: Seq<Instr>, rest: Result<Seq<Instr>, Fault>) -> Result<
    Seq<Instr>,
    Fault,
> {
    match rest {
        Ok(tail) => Ok(done + tail),
        Err(fault) => Err(fault),
    }
}

/// The operation tree of the text from position `at` to its end, or the
/// first fault that a scan from `at` meets. Positions count characters from
/// the start of `s`.
///
/// A counted character gives one operation for its whole run. A `[` with a
/// matching `]` gives a loop around the tree of the text strictly between
/// the two; without one it is a fault at its position. A `]` that the scan
/// meets is a fault at its position, as no `[` has claimed it. A character
/// without a meaning is passed over.
pub open spec fn parse_from(s: Seq<char>, at: int) -> Result<Seq<Instr>, Fault>
    decreases s.len(), s.len() - at,
    via parse_from_terminates
{
    if at < 0 || at >= s.len() {
        Ok(Seq::empty())
    } else if is_counted(s[at]) {
        let n = run_length(s, at, s[at]);
        followed_by(counted(s[at], n), parse_from(s, at + n))
    } else if s[at] == '[' {
        match matching(s, at) {
            None => Err(Fault::UnmatchedOpenBracket(at as nat)),
            Some(close) => match parse_from(s.subrange(at + 1, close), 0) {
                Err(fault) => Err(fault),
                Ok(body) => followed_by(Instr::Loop(body), parse_from(s, close + 1)),
            },
        }
    } else if s[at] == ']' {
        Err(Fault::UnmatchedCloseBracket(at as nat))
    } else {
        match single(s[at]) {
            Some(op) => followed_by(op, parse_from(s, at + 1)),
            None => parse_from(s, at + 1),
        }
    }
}

/// What a whole source text parses to.
pub open spec fn parse_text(s: Seq<char>) -> Result<Seq<Instr>, Fault> {
    parse_from(s, 0)
}

/// A closing bracket is found at or after the place where the scan began,
/// and inside the text.
pub proof fn lemma_closing_in_range(s: Seq<char>, from: int, depth: nat)
    ensures
        closing(s, from, depth) matches Some(close) ==> from <= close < s.len() && s[close] == ']',
    decreases s.len() - from,
{
    if from < 0 || from >= s.len() || depth == 0 {
    } else if s[from] == ']' {
        if depth > 1 {
            lemma_closing_in_range(s, from + 1, (depth - 1) as nat);
        }
    } else if s[from] == '[' {
        lemma_closing_in_range(s, from + 1, depth + 1);
    } else {
        lemma_closing_in_range(s, from + 1, depth);
    }
}

/// A run ends inside the text, and is not empty where the text holds the
/// target at its start.
pub proof fn lemma_run_in_range(s: Seq<char>, start: int, target: char)
    ensures
        0 <= start <= s.len() ==> start + run_length(s, start, target) <= s.len(),
        0 <= start < s.len() && s[start] == target ==> run_length(s, start, target) >= 1,
    decreases s.len() - start,
{
    if 0 <= start < s.len() && s[start] == target {
        lemma_run_in_range(s, start + 1, target);
    }
}

#[via_fn]
proof fn parse_from_terminates(s: Seq<char>, at: int) {
    if 0 <= at < s.len() {
        lemma_closing_in_range(s, at + 1, 1);
        lemma_run_in_range(s, at, s[at]);
    }
}

/// The text of `n` copies of `c`.
pub open spec fn repeat(c: char, n: nat) -> Seq<char> {
    Seq::new(n, |i: int| c)
}

/// Where `n` copies of `target` stand from `start` on and the next character,
/// if there is one, is another, the run from `start` has length `n`.
pub proof fn lemma_run_exact(s: Seq<char>, start: int, target: char, n: nat)
    requires
        0 <= start,
        start + n <= s.len(),
        forall|k: int| start <= k < start + n ==> s[k] == target,
        start + n == s.len() || s[start + n] != target,
    ensures
        run_length(s, start, target) == n,
    decreases n,
{
    if n > 0 {
        lemma_run_exact(s, start + 1, target, (n - 1) as nat);
    }
}

/// A text that is one run of `n >= 1` copies of `>`, `<`, `+` or `-` parses
/// to exactly one operation, counted as the run is long: a move by `n`, or a
/// change of the cell by `n` modulo 256.
pub proof fn lemma_run_is_one_operation(c: char, n: nat)
    requires
        n >= 1,
        is_counted(c),
    ensures
        parse_text(repeat(c, n)) == Ok::<Seq<Instr>, Fault>(seq![counted(c, n)]),
{
    let s = repeat(c, n);
    lemma_run_exact(s, 0, c, n);
    assert(parse_from(s, n as int) == Ok::<Seq<Instr>, Fault>(Seq::empty()));
    assert(seq![counted(c, n)] + Seq::<Instr>::empty() =~= seq![counted(c, n)]);
}

} // verus!
