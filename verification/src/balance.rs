//! Bracket depth, and which texts the grammar accepts: exactly the balanced
//! ones. A text that is not balanced is refused at its first stray `]`, or
//! at the first `[` that is never closed.

use vstd::prelude::*;
use crate::error::Fault;
use crate::op::Instr;
use crate::syntax::{
    closing, is_counted, lemma_run_in_range, matching, parse_from, parse_text, run_length,
};

verus! {

/// What a character adds to the bracket depth.
pub open spec fn weight(c: char) -> int {
    if c == '[' {
        1
    } else if c == ']' {
        -1
    } else {
        0
    }
}

/// Bracket depth after the first `k` characters of `s`: the `[` among them
/// less the `]`.
pub open spec fn depth(s: Seq<char>, k: int) -> int
    decreases k,
{
    if k <= 0 {
        0
    } else {
        depth(s, k - 1) + weight(s[k - 1])
    }
}

/// Every `]` closes an earlier `[`, and every `[` is closed.
pub open spec fn balanced(s: Seq<char>) -> bool {
    &&& depth(s, s.len() as int) == 0
    &&& forall|k: int| 0 <= k <= s.len() ==> #[trigger] depth(s, k) >= 0
}

/// Depth inside a piece of a text is depth in the text, counted from where
/// the piece begins.
pub proof fn lemma_depth_of_piece(s: Seq<char>, from: int, to: int, k: int)
    requires
        0 <= from <= to <= s.len(),
        0 <= k <= to - from,
    ensures
        depth(s.subrange(from, to), k) == depth(s, from + k) - depth(s, from),
    decreases k,
{
    if k > 0 {
        lemma_depth_of_piece(s, from, to, k - 1);
    }
}

/// A run of one character that is no bracket leaves the depth as it was, and
/// holds that character throughout.
proof fn lemma_run_keeps_depth(s: Seq<char>, start: int, target: char)
    requires
        0 <= start <= s.len(),
        target != '[',
        target != ']',
    ensures
        forall|k: int|
            start <= k <= start + run_length(s, start, target) ==> #[trigger] depth(s, k) == depth(
                s,
                start,
            ),
        forall|k: int| start <= k < start + run_length(s, start, target) ==> s[k] == target,
    decreases s.len() - start,
{
    if start < s.len() && s[start] == target {
        lemma_run_keeps_depth(s, start + 1, target);
        assert(depth(s, start + 1) == depth(s, start));
    }
}

/// The scan for a closing bracket stops at the first position after which
/// the depth is `open` less than it was where the scan began; it finds none
/// exactly when the depth stays above that to the end of the text.
pub proof fn lemma_closing_is_first_return(s: Seq<char>, from: int, open: nat)
    requires
        0 <= from <= s.len(),
        open >= 1,
    ensures
        closing(s, from, open) matches Some(close) ==> from <= close < s.len() && s[close] == ']'
            && depth(s, close + 1) == depth(s, from) - open,
        closing(s, from, open) matches Some(close) ==> forall|k: int|
            from <= k <= close ==> #[trigger] depth(s, k) > depth(s, from) - open,
        closing(s, from, open) is None ==> forall|k: int|
            from <= k <= s.len() ==> #[trigger] depth(s, k) > depth(s, from) - open,
    decreases s.len() - from,
{
    if from < s.len() {
        assert(depth(s, from + 1) == depth(s, from) + weight(s[from]));
        if s[from] == ']' {
            if open > 1 {
                lemma_closing_is_first_return(s, from + 1, (open - 1) as nat);
            }
        } else if s[from] == '[' {
            lemma_closing_is_first_return(s, from + 1, open + 1);
        } else {
            lemma_closing_is_first_return(s, from + 1, open);
        }
    }
}

/// Where the scan goes on after the item at position `at`: past the run for
/// a counted character, past the matching `]` for a `[`, one further for any
/// other character.
spec fn next_position(s: Seq<char>, at: int) -> int {
    let c = s[at];
    if is_counted(c) {
        at + run_length(s, at, c)
    } else if c == '[' {
        match matching(s, at) {
            Some(close) => close + 1,
            None => at + 1,
        }
    } else {
        at + 1
    }
}

/// The item at position `at` stops the scan: a `]`, or a `[` without a match.
spec fn stray_bracket(s: Seq<char>, at: int) -> bool {
    s[at] == ']' || (s[at] == '[' && matching(s, at) is None)
}

/// From where the item at `at` ends, the depth is what it was at `at`, and
/// it was not lower in between. Inside a bracket pair it is higher; a run
/// holds no bracket.
proof fn lemma_item_keeps_depth(s: Seq<char>, at: int)
    requires
        0 <= at < s.len(),
        !stray_bracket(s, at),
    ensures
        at < next_position(s, at) <= s.len(),
        depth(s, next_position(s, at)) == depth(s, at),
        forall|k: int| at <= k <= next_position(s, at) ==> #[trigger] depth(s, k) >= depth(s, at),
        s[at] == '[' ==> forall|k: int|
            at < k < next_position(s, at) ==> #[trigger] depth(s, k) > depth(s, at),
        s[at] != '[' ==> forall|k: int| at <= k < next_position(s, at) ==> s[k] == s[at],
{
    let c = s[at];
    assert(depth(s, at + 1) == depth(s, at) + weight(c));
    if is_counted(c) {
        lemma_run_in_range(s, at, c);
        lemma_run_keeps_depth(s, at, c);
    } else if c == '[' {
        lemma_closing_is_first_return(s, at + 1, 1);
    }
}

/// The text strictly inside a matched bracket pair is balanced.
proof fn lemma_inside_is_balanced(s: Seq<char>, at: int)
    requires
        0 <= at < s.len(),
        matching(s, at) is Some,
    ensures
        at < matching(s, at)->0 < s.len(),
        balanced(s.subrange(at + 1, matching(s, at)->0)),
{
    let close = matching(s, at)->0;
    lemma_closing_is_first_return(s, at + 1, 1);
    let inner = s.subrange(at + 1, close);
    assert(depth(s, close + 1) == depth(s, close) + weight(s[close]));
    assert forall|k: int| 0 <= k <= inner.len() implies #[trigger] depth(inner, k) >= 0 by {
        lemma_depth_of_piece(s, at + 1, close, k);
        assert(depth(s, at + 1 + k) > depth(s, at + 1) - 1);
    }
    lemma_depth_of_piece(s, at + 1, close, inner.len() as int);
}

/// One step of the scan: a stray bracket at `at` is the fault of the rest of
/// the text from `at`; otherwise that rest is well formed if the inside of
/// the item and the text after the item are, and else has the first of
/// their faults.
proof fn lemma_scan_step(s: Seq<char>, at: int)
    requires
        0 <= at < s.len(),
    ensures
        s[at] == ']' ==> parse_from(s, at) == Err::<Seq<Instr>, Fault>(
            Fault::UnmatchedCloseBracket(at as nat),
        ),
        s[at] == '[' && matching(s, at) is None ==> parse_from(s, at) == Err::<
            Seq<Instr>,
            Fault,
        >(Fault::UnmatchedOpenBracket(at as nat)),
        s[at] == '[' && matching(s, at) is Some ==> (match parse_text(
            s.subrange(at + 1, matching(s, at)->0),
        ) {
            Err(fault) => parse_from(s, at) == Err::<Seq<Instr>, Fault>(fault),
            Ok(_) => match parse_from(s, next_position(s, at)) {
                Err(fault) => parse_from(s, at) == Err::<Seq<Instr>, Fault>(fault),
                Ok(_) => parse_from(s, at) is Ok,
            },
        }),
        s[at] != '[' && s[at] != ']' ==> (match parse_from(s, next_position(s, at)) {
            Err(fault) => parse_from(s, at) == Err::<Seq<Instr>, Fault>(fault),
            Ok(_) => parse_from(s, at) is Ok,
        }),
{
}

/// From a position after which the depth never falls below what it is there
/// and ends as it is there, the rest of the text is well formed.
proof fn lemma_balanced_rest_parses(s: Seq<char>, at: int)
    requires
        0 <= at <= s.len(),
        depth(s, s.len() as int) == depth(s, at),
        forall|k: int| at <= k <= s.len() ==> #[trigger] depth(s, k) >= depth(s, at),
    ensures
        parse_from(s, at) is Ok,
    decreases s.len(), s.len() - at,
{
    if at < s.len() {
        assert(depth(s, at + 1) == depth(s, at) + weight(s[at]));
        if s[at] == '[' {
            lemma_closing_is_first_return(s, at + 1, 1);
        }
        assert(!stray_bracket(s, at));
        lemma_item_keeps_depth(s, at);
        lemma_scan_step(s, at);
        if s[at] == '[' {
            let close = matching(s, at)->0;
            lemma_inside_is_balanced(s, at);
            lemma_balanced_rest_parses(s.subrange(at + 1, close), 0);
        }
        lemma_balanced_rest_parses(s, next_position(s, at));
    }
}

/// A `]` at position `stray`, met at the depth at which the scan began at
/// `at` with the depth never lower in between, is the fault of the rest of
/// the text from `at`.
proof fn lemma_rest_meets_stray_close(s: Seq<char>, at: int, stray: int)
    requires
        0 <= at <= stray < s.len(),
        s[stray] == ']',
        depth(s, stray) == depth(s, at),
        forall|k: int| at <= k <= stray ==> #[trigger] depth(s, k) >= depth(s, at),
    ensures
        parse_from(s, at) == Err::<Seq<Instr>, Fault>(
            Fault::UnmatchedCloseBracket(stray as nat),
        ),
    decreases s.len() - at,
{
    lemma_scan_step(s, at);
    if at < stray {
        assert(depth(s, at + 1) == depth(s, at) + weight(s[at]));
        if s[at] == '[' {
            lemma_closing_is_first_return(s, at + 1, 1);
        }
        assert(!stray_bracket(s, at));
        lemma_item_keeps_depth(s, at);
        if s[at] == '[' {
            lemma_inside_is_balanced(s, at);
            lemma_balanced_rest_parses(s.subrange(at + 1, matching(s, at)->0), 0);
        }
        assert(next_position(s, at) <= stray);
        lemma_rest_meets_stray_close(s, next_position(s, at), stray);
    }
}

/// A `[` at position `stray`, met at the depth at which the scan began at
/// `at` with the depth never lower in between, and after which the depth
/// stays higher to the end, is the fault of the rest of the text from `at`.
proof fn lemma_rest_meets_stray_open(s: Seq<char>, at: int, stray: int)
    requires
        0 <= at <= stray < s.len(),
        s[stray] == '[',
        depth(s, stray) == depth(s, at),
        forall|k: int| at <= k <= stray ==> #[trigger] depth(s, k) >= depth(s, at),
        forall|k: int| stray < k <= s.len() ==> #[trigger] depth(s, k) > depth(s, stray),
    ensures
        parse_from(s, at) == Err::<Seq<Instr>, Fault>(
            Fault::UnmatchedOpenBracket(stray as nat),
        ),
    decreases s.len() - at,
{
    lemma_scan_step(s, at);
    assert(depth(s, at + 1) == depth(s, at) + weight(s[at]));
    lemma_closing_is_first_return(s, at + 1, 1);
    if at < stray {
        assert(!stray_bracket(s, at));
        lemma_item_keeps_depth(s, at);
        if s[at] == '[' {
            lemma_inside_is_balanced(s, at);
            lemma_balanced_rest_parses(s.subrange(at + 1, matching(s, at)->0), 0);
        }
        assert(next_position(s, at) <= stray);
        lemma_rest_meets_stray_open(s, next_position(s, at), stray);
    }
}

/// The first position at which the depth falls below zero holds a `]`, and
/// the text before it is balanced.
proof fn lemma_first_dip(s: Seq<char>, from: int, below: int) -> (stray: int)
    requires
        0 <= from < below <= s.len(),
        depth(s, below) < 0,
        forall|k: int| 0 <= k <= from ==> #[trigger] depth(s, k) >= 0,
    ensures
        from <= stray < below,
        s[stray] == ']',
        depth(s, stray) == 0,
        forall|k: int| 0 <= k <= stray ==> #[trigger] depth(s, k) >= 0,
    decreases below - from,
{
    assert(depth(s, from + 1) == depth(s, from) + weight(s[from]));
    if depth(s, from + 1) < 0 {
        from
    } else {
        assert forall|k: int| 0 <= k <= from + 1 implies #[trigger] depth(s, k) >= 0 by {}
        lemma_first_dip(s, from + 1, below)
    }
}

/// In a text whose depth is never negative and ends above zero, the last
/// position at depth zero holds a `[`.
proof fn lemma_last_ground(s: Seq<char>, upto: int) -> (stray: int)
    requires
        0 <= upto < s.len(),
        forall|k: int| 0 <= k <= s.len() ==> #[trigger] depth(s, k) >= 0,
        forall|k: int| upto < k <= s.len() ==> #[trigger] depth(s, k) > 0,
    ensures
        0 <= stray <= upto,
        s[stray] == '[',
        depth(s, stray) == 0,
        forall|k: int| stray < k <= s.len() ==> #[trigger] depth(s, k) > 0,
    decreases upto,
{
    assert(depth(s, upto + 1) == depth(s, upto) + weight(s[upto]));
    if depth(s, upto) == 0 {
        upto
    } else {
        assert(depth(s, upto) >= 0);
        assert(upto > 0);
        lemma_last_ground(s, upto - 1)
    }
}

/// The depths of the text before a position are the depths of the text.
proof fn lemma_depth_of_start(s: Seq<char>, at: int)
    requires
        0 <= at <= s.len(),
    ensures
        forall|k: int| 0 <= k <= at ==> #[trigger] depth(s.take(at), k) == depth(s, k),
{
    assert forall|k: int| 0 <= k <= at implies #[trigger] depth(s.take(at), k) == depth(s, k) by {
        lemma_depth_of_piece(s, 0, at, k);
    }
}

/// A `]` that stands after a balanced text, so that no `[` encloses it, is
/// refused, and the fault names the position of that `]`.
pub proof fn lemma_stray_close_is_the_fault(s: Seq<char>, at: int)
    requires
        0 <= at < s.len(),
        s[at] == ']',
        balanced(s.take(at)),
    ensures
        parse_text(s) == Err::<Seq<Instr>, Fault>(
            Fault::UnmatchedCloseBracket(at as nat),
        ),
{
    lemma_depth_of_start(s, at);
    assert forall|k: int| 0 <= k <= at implies #[trigger] depth(s, k) >= depth(s, 0) by {
        assert(depth(s.take(at), k) >= 0);
    }
    assert(depth(s.take(at), at) == 0);
    lemma_rest_meets_stray_close(s, 0, at);
}

/// A `[` that stands after a balanced text and has no matching `]` in the
/// rest of the text is refused, and the fault names the position of that `[`.
pub proof fn lemma_stray_open_is_the_fault(s: Seq<char>, at: int)
    requires
        0 <= at < s.len(),
        s[at] == '[',
        balanced(s.take(at)),
        matching(s, at) is None,
    ensures
        parse_text(s) == Err::<Seq<Instr>, Fault>(
            Fault::UnmatchedOpenBracket(at as nat),
        ),
{
    lemma_depth_of_start(s, at);
    assert forall|k: int| 0 <= k <= at implies #[trigger] depth(s, k) >= depth(s, 0) by {
        assert(depth(s.take(at), k) >= 0);
    }
    assert(depth(s.take(at), at) == 0);
    assert(depth(s, at + 1) == depth(s, at) + weight(s[at]));
    lemma_closing_is_first_return(s, at + 1, 1);
    assert forall|k: int| at < k <= s.len() implies #[trigger] depth(s, k) > depth(s, at) by {}
    lemma_rest_meets_stray_open(s, 0, at);
}

/// What the grammar makes of any text. It is accepted exactly when it is
/// balanced. Otherwise the fault is the first stray bracket: a `]` after a
/// balanced text, or a `[` after a balanced text that the rest never closes.
pub proof fn lemma_parse_outcome(s: Seq<char>)
    ensures
        parse_text(s) is Ok <==> balanced(s),
        parse_text(s) matches Err(fault) ==> fault is UnmatchedCloseBracket
            || fault is UnmatchedOpenBracket,
        parse_text(s) matches Err(Fault::UnmatchedCloseBracket(at)) ==> at < s.len() && s[at as int]
            == ']' && balanced(s.take(at as int)),
        parse_text(s) matches Err(Fault::UnmatchedOpenBracket(at)) ==> at < s.len() && s[at as int]
            == '[' && balanced(s.take(at as int)) && matching(s, at as int) is None,
{
    if balanced(s) {
        lemma_balanced_rest_parses(s, 0);
    } else if exists|k: int| 0 <= k <= s.len() && depth(s, k) < 0 {
        let below = choose|k: int| 0 <= k <= s.len() && depth(s, k) < 0;
        let stray = lemma_first_dip(s, 0, below);
        lemma_rest_meets_stray_close(s, 0, stray);
        lemma_depth_of_start(s, stray);
        assert(balanced(s.take(stray)));
    } else {
        assert(depth(s, s.len() as int) >= 0);
        assert(s.len() > 0);
        let stray = lemma_last_ground(s, s.len() - 1);
        assert forall|k: int| 0 <= k <= stray implies #[trigger] depth(s, k) >= depth(s, 0) by {
            assert(depth(s, k) >= 0);
        }
        lemma_rest_meets_stray_open(s, 0, stray);
        lemma_depth_of_start(s, stray);
        assert(balanced(s.take(stray)));
        assert(depth(s, stray + 1) == depth(s, stray) + weight(s[stray]));
        lemma_closing_is_first_return(s, stray + 1, 1);
        if matching(s, stray) is Some {
            let close = matching(s, stray)->0;
            assert(depth(s, close + 1) > 0);
        }
    }
}

} // verus!
