//! The canonical text of an operation tree, and the law that parsing it
//! gives the tree back.

use vstd::prelude::*;
use vstd::string::StringExecFns;
use crate::balance::{balanced, depth, lemma_closing_is_first_return, lemma_depth_of_piece, weight};
use crate::error::Fault;
use crate::op::{instr_of, instrs_of, lemma_loop_model, Instr, Op};
use crate::syntax::{
    continued, counted, followed_by, is_counted, lemma_closing_in_range, lemma_run_exact,
    lemma_run_in_range, matching, parse_from, parse_text, repeat, run_length, single,
};

verus! {

/// How many characters stand for a change of the cell by `amount`: a change
/// by zero is written as a full turn of 256.
pub open spec fn turn(amount: nat) -> nat {
    if amount == 0 {
        256
    } else {
        amount
    }
}

/// The canonical text of one operation. A counted operation is its run and
/// a space, which keeps it apart from a like operation after it; a loop is
/// its body's text between brackets.
pub open spec fn render_op(op: Instr) -> Seq<char>
    decreases op,
{
    match op {
        Instr::MoveRight(n) => repeat('>', n).push(' '),
        Instr::MoveLeft(n) => repeat('<', n).push(' '),
        Instr::Increment(n) => repeat('+', turn(n)).push(' '),
        Instr::Decrement(n) => repeat('-', turn(n)).push(' '),
        Instr::Output => seq!['.'],
        Instr::Input => seq![','],
        Instr::Loop(body) => seq!['['] + render(body) + seq![']'],
        Instr::Connect => seq!['%'],
        Instr::Listen => seq!['$'],
        Instr::Accept => seq!['@'],
        Instr::Receive => seq!['`'],
        Instr::Send => seq!['\''],
    }
}

/// The canonical text of a sequence of operations: their texts in order.
pub open spec fn render(ops: Seq<Instr>) -> Seq<char>
    decreases ops,
{
    if ops.len() == 0 {
        Seq::empty()
    } else {
        render_op(ops[0]) + render(ops.drop_first())
    }
}

/// An operation as the parser makes it: a move is by at least one cell, a
/// change of the cell is by less than 256, and a loop's body is made so too.
pub open spec fn well_formed_op(op: Instr) -> bool
    decreases op,
{
    match op {
        Instr::MoveRight(n) => n >= 1,
        Instr::MoveLeft(n) => n >= 1,
        Instr::Increment(n) => n < 256,
        Instr::Decrement(n) => n < 256,
        Instr::Loop(body) => well_formed(body),
        _ => true,
    }
}

/// A sequence of operations as the parser makes them.
pub open spec fn well_formed(ops: Seq<Instr>) -> bool
    decreases ops,
{
    forall|i: int| 0 <= i < ops.len() ==> well_formed_op(#[trigger] ops[i])
}

/// A text without brackets has depth zero throughout.
proof fn lemma_flat_depth(t: Seq<char>, k: int)
    requires
        0 <= k <= t.len(),
        forall|i: int| 0 <= i < t.len() ==> t[i] != '[' && t[i] != ']',
    ensures
        depth(t, k) == 0,
    decreases k,
{
    if k > 0 {
        lemma_flat_depth(t, k - 1);
    }
}

/// Depth in two texts joined: that of the first, then that of the second on
/// top of where the first ends.
proof fn lemma_depth_of_joined(a: Seq<char>, b: Seq<char>, k: int)
    requires
        0 <= k <= a.len() + b.len(),
    ensures
        k <= a.len() ==> depth(a + b, k) == depth(a, k),
        k >= a.len() ==> depth(a + b, k) == depth(a, a.len() as int) + depth(b, k - a.len()),
{
    let s = a + b;
    assert(s.subrange(0, a.len() as int) =~= a);
    assert(s.subrange(a.len() as int, s.len() as int) =~= b);
    lemma_depth_of_piece(s, 0, a.len() as int, a.len() as int);
    if k <= a.len() {
        lemma_depth_of_piece(s, 0, a.len() as int, k);
    }
    if k >= a.len() {
        lemma_depth_of_piece(s, a.len() as int, s.len() as int, k - a.len());
    }
}

/// Two balanced texts joined are balanced.
proof fn lemma_joined_is_balanced(a: Seq<char>, b: Seq<char>)
    requires
        balanced(a),
        balanced(b),
    ensures
        balanced(a + b),
{
    assert forall|k: int| 0 <= k <= (a + b).len() implies #[trigger] depth(a + b, k) >= 0 by {
        lemma_depth_of_joined(a, b, k);
        if k <= a.len() {
            assert(depth(a, k) >= 0);
        } else {
            assert(depth(b, k - a.len()) >= 0);
        }
    }
    lemma_depth_of_joined(a, b, (a + b).len() as int);
}

/// A balanced text between brackets is balanced, and inside the pair the
/// depth is one above that of the text.
proof fn lemma_bracketed_depth(t: Seq<char>, k: int)
    requires
        0 <= k <= t.len() + 2,
    ensures
        k == 0 ==> depth(seq!['['] + t + seq![']'], k) == 0,
        1 <= k <= t.len() + 1 ==> depth(seq!['['] + t + seq![']'], k) == 1 + depth(t, k - 1),
        k == t.len() + 2 ==> depth(seq!['['] + t + seq![']'], k) == depth(t, t.len() as int),
{
    let open = seq!['['];
    let close = seq![']'];
    assert(depth(open, 1) == depth(open, 0) + weight(open[0]));
    assert(depth(close, 1) == depth(close, 0) + weight(close[0]));
    if k >= 1 {
        if k <= t.len() + 1 {
            lemma_depth_of_joined(open + t, close, k);
            lemma_depth_of_joined(open, t, k);
        } else {
            lemma_depth_of_joined(open + t, close, k);
            lemma_depth_of_joined(open, t, k - 1);
        }
    }
}

/// The canonical text of an operation is balanced.
pub proof fn lemma_render_op_balanced(op: Instr)
    ensures
        balanced(render_op(op)),
    decreases op,
{
    let text = render_op(op);
    match op {
        Instr::Loop(body) => {
            lemma_render_balanced(body);
            let inner = render(body);
            assert forall|k: int| 0 <= k <= text.len() implies #[trigger] depth(text, k) >= 0 by {
                lemma_bracketed_depth(inner, k);
                if 1 <= k <= inner.len() + 1 {
                    assert(depth(inner, k - 1) >= 0);
                }
            }
            lemma_bracketed_depth(inner, text.len() as int);
        },
        _ => {
            assert forall|k: int| 0 <= k <= text.len() implies #[trigger] depth(text, k) == 0 by {
                lemma_flat_depth(text, k);
            }
        },
    }
}

/// The canonical text of a sequence of operations is balanced.
pub proof fn lemma_render_balanced(ops: Seq<Instr>)
    ensures
        balanced(render(ops)),
    decreases ops,
{
    if ops.len() > 0 {
        lemma_render_op_balanced(ops[0]);
        lemma_render_balanced(ops.drop_first());
        lemma_joined_is_balanced(render_op(ops[0]), render(ops.drop_first()));
    }
}

/// Where a run of `n >= 1` copies of a counted character and a space stand
/// in `s` from `at`, the scan from `at` counts the run and goes on behind
/// the space.
proof fn lemma_run_scans_back(c: char, n: nat, s: Seq<char>, at: int)
    requires
        is_counted(c),
        n >= 1,
        0 <= at,
        at + n + 1 <= s.len(),
        s.subrange(at, at + n + 1) == repeat(c, n).push(' '),
    ensures
        run_length(s, at, c) == n,
        parse_from(s, at + n) == parse_from(s, at + n + 1),
        s[at] == c,
{
    let text = repeat(c, n).push(' ');
    assert forall|k: int| at <= k < at + n implies s[k] == c by {
        assert(s.subrange(at, at + n + 1)[k - at] == text[k - at]);
    }
    assert(s[at + n] == ' ') by {
        assert(s.subrange(at, at + n + 1)[n as int] == text[n as int]);
    }
    lemma_run_exact(s, at, c, n);
}

/// Where the canonical text of a well-formed operation stands in `s` from
/// `at`, the scan from `at` gives that operation, and then what it gives
/// from behind that text.
proof fn lemma_render_op_scans_back(op: Instr, s: Seq<char>, at: int)
    requires
        well_formed_op(op),
        0 <= at,
        at + render_op(op).len() <= s.len(),
        s.subrange(at, at + render_op(op).len()) == render_op(op),
    ensures
        parse_from(s, at) == followed_by(op, parse_from(s, at + render_op(op).len())),
    decreases op,
{
    let text = render_op(op);
    assert(s[at] == text[0]) by {
        assert(s.subrange(at, at + text.len())[0] == text[0]);
    }
    match op {
        Instr::MoveRight(n) => {
            lemma_run_scans_back('>', n, s, at);
        },
        Instr::MoveLeft(n) => {
            lemma_run_scans_back('<', n, s, at);
        },
        Instr::Increment(n) => {
            lemma_run_scans_back('+', turn(n), s, at);
        },
        Instr::Decrement(n) => {
            lemma_run_scans_back('-', turn(n), s, at);
        },
        Instr::Loop(body) => {
            let inner = render(body);
            let close = at + 1 + inner.len();
            assert(s[close] == ']') by {
                assert(s.subrange(at, at + text.len())[close - at] == text[close - at]);
            }
            assert(s.subrange(at + 1, close) =~= inner) by {
                assert forall|k: int| 0 <= k < inner.len() implies s.subrange(at + 1, close)[k]
                    == inner[k] by {
                    assert(s.subrange(at, at + text.len())[k + 1] == text[k + 1]);
                }
            }
            lemma_render_balanced(body);
            assert forall|k: int| at + 1 <= k <= close implies #[trigger] depth(s, k) >= depth(
                s,
                at + 1,
            ) by {
                lemma_depth_of_piece(s, at + 1, close, k - (at + 1));
                assert(depth(inner, k - (at + 1)) >= 0);
            }
            lemma_depth_of_piece(s, at + 1, close, inner.len() as int);
            assert(depth(s, close + 1) == depth(s, close) + weight(s[close]));
            lemma_closing_is_first_return(s, at + 1, 1);
            match matching(s, at) {
                None => {
                    assert(depth(s, close + 1) > depth(s, at + 1) - 1);
                },
                Some(found) => {
                    if found < close {
                        assert(depth(s, found + 1) >= depth(s, at + 1));
                    } else if found > close {
                        assert(depth(s, close + 1) > depth(s, at + 1) - 1);
                    }
                },
            }
            assert(matching(s, at) == Some(close));
            assert(inner.subrange(0, inner.len() as int) =~= inner);
            lemma_render_scans_back(body, inner, 0);
            assert(body + Seq::<Instr>::empty() =~= body);
            assert(parse_from(inner, 0) == Ok::<Seq<Instr>, Fault>(body));
        },
        _ => {},
    }
}

/// Where the canonical text of well-formed operations stands in `s` from
/// `at`, the scan from `at` gives those operations, and then what it gives
/// from behind that text.
proof fn lemma_render_scans_back(ops: Seq<Instr>, s: Seq<char>, at: int)
    requires
        well_formed(ops),
        0 <= at,
        at + render(ops).len() <= s.len(),
        s.subrange(at, at + render(ops).len()) == render(ops),
    ensures
        parse_from(s, at) == continued(ops, parse_from(s, at + render(ops).len())),
    decreases ops,
{
    let behind = parse_from(s, at + render(ops).len());
    if ops.len() == 0 {
        if let Ok(tail) = behind {
            assert(ops + tail =~= tail);
        }
    } else {
        let first = ops[0];
        let rest = ops.drop_first();
        let head = render_op(first);
        let tail = render(rest);
        let whole = s.subrange(at, at + render(ops).len());
        assert(s.subrange(at, at + head.len()) =~= head) by {
            assert forall|k: int| 0 <= k < head.len() implies s.subrange(at, at + head.len())[k]
                == head[k] by {
                assert(whole[k] == (head + tail)[k]);
            }
        }
        assert(s.subrange(at + head.len(), at + head.len() + tail.len()) =~= tail) by {
            assert forall|k: int| 0 <= k < tail.len() implies s.subrange(
                at + head.len(),
                at + head.len() + tail.len(),
            )[k] == tail[k] by {
                assert(whole[head.len() as int + k] == (head + tail)[head.len() as int + k]);
            }
        }
        assert(well_formed_op(first));
        assert(well_formed(rest)) by {
            assert forall|i: int| 0 <= i < rest.len() implies well_formed_op(
                #[trigger] rest[i],
            ) by {
                assert(rest[i] == ops[i + 1]);
            }
        }
        lemma_render_op_scans_back(first, s, at);
        lemma_render_scans_back(rest, s, at + head.len());
        if let Ok(end) = behind {
            assert(seq![first] + (rest + end) =~= ops + end);
        }
    }
}

/// The canonical text of a well-formed operation tree parses to that tree.
pub proof fn lemma_render_parses_back(ops: Seq<Instr>)
    requires
        well_formed(ops),
    ensures
        parse_text(render(ops)) == Ok::<Seq<Instr>, Fault>(ops),
{
    let text = render(ops);
    assert(text.subrange(0, text.len() as int) =~= text);
    lemma_render_scans_back(ops, text, 0);
    assert(ops + Seq::<Instr>::empty() =~= ops);
}

/// A well-formed operation before well-formed operations is well formed.
proof fn lemma_followed_by_well_formed(first: Instr, rest: Result<Seq<Instr>, Fault>)
    requires
        well_formed_op(first),
        rest matches Ok(tail) ==> well_formed(tail),
    ensures
        followed_by(first, rest) matches Ok(tree) ==> well_formed(tree),
{
    if let Ok(tail) = rest {
        let tree = seq![first] + tail;
        assert forall|i: int| 0 <= i < tree.len() implies well_formed_op(#[trigger] tree[i]) by {
            if i > 0 {
                assert(tree[i] == tail[i - 1]);
            }
        }
    }
}

/// Whatever the grammar makes of a text is well formed.
pub proof fn lemma_parsed_is_well_formed(s: Seq<char>, at: int)
    ensures
        parse_from(s, at) matches Ok(tree) ==> well_formed(tree),
    decreases s.len(), s.len() - at,
{
    if 0 <= at < s.len() {
        let c = s[at];
        if is_counted(c) {
            let n = run_length(s, at, c);
            lemma_run_in_range(s, at, c);
            lemma_parsed_is_well_formed(s, at + n);
            lemma_followed_by_well_formed(counted(c, n), parse_from(s, at + n));
        } else if c == '[' {
            lemma_closing_in_range(s, at + 1, 1);
            if let Some(close) = matching(s, at) {
                lemma_parsed_is_well_formed(s.subrange(at + 1, close), 0);
                lemma_parsed_is_well_formed(s, close + 1);
                if let Ok(body) = parse_from(s.subrange(at + 1, close), 0) {
                    lemma_followed_by_well_formed(Instr::Loop(body), parse_from(s, close + 1));
                }
            }
        } else if c != ']' {
            lemma_parsed_is_well_formed(s, at + 1);
            if let Some(op) = single(c) {
                lemma_followed_by_well_formed(op, parse_from(s, at + 1));
            }
        }
    }
}

/// Parsing is idempotent on its own canonical form: where a text parses to a
/// tree, the canonical text of that tree parses to the same tree.
pub proof fn lemma_reparse_gives_same_tree(s: Seq<char>)
    ensures
        parse_text(s) matches Ok(tree) ==> parse_text(render(tree)) == Ok::<Seq<Instr>, Fault>(
            tree,
        ),
{
    if let Ok(tree) = parse_text(s) {
        lemma_parsed_is_well_formed(s, 0);
        lemma_render_parses_back(tree);
    }
}

/// Appends `n` copies of the character `c`, which is all that `unit` holds.
fn write_run(text: &mut String, unit: &str, c: char, n: usize)
    requires
        unit@.len() == 1,
        unit@[0] == c,
    ensures
        final(text)@ == old(text)@ + repeat(c, n as nat),
{
    let mut i: usize = 0;
    assert(text@ =~= old(text)@ + repeat(c, 0));
    while i < n
        invariant
            i <= n,
            unit@.len() == 1,
            unit@[0] == c,
            text@ == old(text)@ + repeat(c, i as nat),
        decreases n - i,
    {
        text.append(unit);
        assert(old(text)@ + repeat(c, i as nat) + unit@ =~= old(text)@ + repeat(
            c,
            (i + 1) as nat,
        ));
        i += 1;
    }
}

/// Appends the canonical text of one operation.
fn write_op(op: &Op, text: &mut String)
    ensures
        final(text)@ == old(text)@ + render_op(instr_of(*op)),
    decreases op, 0nat,
{
    proof {
        reveal_strlit(">");
        reveal_strlit("<");
        reveal_strlit("+");
        reveal_strlit("-");
        reveal_strlit(" ");
        reveal_strlit(".");
        reveal_strlit(",");
        reveal_strlit("[");
        reveal_strlit("]");
        reveal_strlit("%");
        reveal_strlit("$");
        reveal_strlit("@");
        reveal_strlit("`");
        reveal_strlit("'");
    }
    let ghost before = text@;
    match op {
        Op::MoveRight(n) => {
            write_run(text, ">", '>', *n);
            text.append(" ");
            assert(text@ =~= before + render_op(instr_of(*op)));
        },
        Op::MoveLeft(n) => {
            write_run(text, "<", '<', *n);
            text.append(" ");
            assert(text@ =~= before + render_op(instr_of(*op)));
        },
        Op::Increment(n) => {
            let count: usize = if *n == 0 {
                256
            } else {
                *n as usize
            };
            write_run(text, "+", '+', count);
            text.append(" ");
            assert(text@ =~= before + render_op(instr_of(*op)));
        },
        Op::Decrement(n) => {
            let count: usize = if *n == 0 {
                256
            } else {
                *n as usize
            };
            write_run(text, "-", '-', count);
            text.append(" ");
            assert(text@ =~= before + render_op(instr_of(*op)));
        },
        Op::Output => {
            text.append(".");
        },
        Op::Input => {
            text.append(",");
        },
        Op::Loop(body) => {
            text.append("[");
            write_ops(body.as_slice(), text);
            text.append("]");
            proof {
                lemma_loop_model(*body);
                assert(text@ =~= before + render_op(instr_of(*op)));
            }
        },
        Op::Connect => {
            text.append("%");
        },
        Op::Listen => {
            text.append("$");
        },
        Op::Accept => {
            text.append("@");
        },
        Op::Receive => {
            text.append("`");
        },
        Op::Send => {
            text.append("'");
        },
    }
}

/// Appends the canonical text of a sequence of operations.
fn write_ops(ops: &[Op], text: &mut String)
    ensures
        final(text)@ == old(text)@ + render(instrs_of(ops@)),
    decreases ops@, 1nat,
{
    let ghost model = instrs_of(ops@);
    let mut i: usize = 0;
    assert(model.skip(0) =~= model);
    assert(text@ + render(model.skip(0)) =~= old(text)@ + render(model));
    while i < ops.len()
        invariant
            i <= ops.len(),
            model == instrs_of(ops@),
            text@ + render(model.skip(i as int)) == old(text)@ + render(model),
        decreases ops.len() - i,
    {
        let ghost so_far = text@;
        let ghost rest = model.skip(i as int);
        assert(rest[0] == instr_of(ops@[i as int]));
        assert(rest.drop_first() =~= model.skip(i + 1));
        write_op(&ops[i], text);
        assert(text@ + render(model.skip(i + 1)) =~= so_far + render(rest));
        i += 1;
    }
    assert(render(model.skip(i as int)) =~= Seq::<char>::empty());
    assert(text@ + Seq::<char>::empty() =~= text@);
}

/// The canonical text of a program: each operation in the characters that
/// stand for it, a counted operation followed by a space.
pub fn to_source(ops: &[Op]) -> (text: String)
    ensures
        text@ == render(ops.deep_view()),
{
    let mut text = String::new();
    write_ops(ops, &mut text);
    assert(ops.deep_view() =~= instrs_of(ops@));
    assert(Seq::<char>::empty() + render(instrs_of(ops@)) =~= render(instrs_of(ops@)));
    text
}

} // verus!
