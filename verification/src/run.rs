//! The place in a program where a run stands, and how it moves with each
//! step: into a loop's body, back to the loop, and on.

use vstd::prelude::*;
use crate::machine::Machine;
use crate::op::{instrs_of, Instr, Op};

verus! {

/// A sequence of operations that is being run, and how far it has come.
pub struct Level {
    /// The operations of the sequence.
    pub ops: Seq<Instr>,
    /// How many of them are done.
    pub next: nat,
}

impl Level {
    /// A sequence of which nothing is done yet.
    pub open spec fn start(ops: Seq<Instr>) -> Level {
        Level { ops, next: 0 }
    }
}

/// The operation that the next step runs: the first that is not yet done in
/// the innermost sequence. `None` where that sequence is done, or nothing
/// is left to run.
pub open spec fn current(levels: Seq<Level>) -> Option<Instr> {
    if levels.len() > 0 && levels.last().next < levels.last().ops.len() {
        Some(levels.last().ops[levels.last().next as int])
    } else {
        None
    }
}

/// The levels with one more operation done in the innermost sequence.
pub open spec fn advanced(levels: Seq<Level>) -> Seq<Level> {
    levels.drop_last().push(Level { next: levels.last().next + 1, ..levels.last() })
}

/// Where the walk stands after a step that did not fail. A sequence that is
/// done is left, which leads back to the loop that it is the body of, or
/// ends the program. A loop is tested before each round, the first too: its
/// body is entered while the current cell is not zero, and the loop is done
/// when it is zero. Any other operation is done once it has run.
pub open spec fn next_levels(machine: Machine, levels: Seq<Level>) -> Seq<Level> {
    if levels.len() == 0 {
        levels
    } else {
        match current(levels) {
            None => levels.drop_last(),
            Some(Instr::Loop(body)) => if machine.cell() != 0 {
                levels.push(Level::start(body))
            } else {
                advanced(levels)
            },
            Some(_) => advanced(levels),
        }
    }
}

/// Every sequence but the outermost is the body of the loop at which the
/// sequence around it stands, and no sequence is further than its end.
pub open spec fn nested(levels: Seq<Level>) -> bool {
    &&& forall|i: int| 0 <= i < levels.len() ==> (#[trigger] levels[i]).next <= levels[i].ops.len()
    &&& forall|i: int|
        0 <= i < levels.len() - 1 ==> {
            &&& (#[trigger] levels[i]).next < levels[i].ops.len()
            &&& levels[i].ops[levels[i].next as int] == Instr::Loop(levels[i + 1].ops)
        }
}

/// A walk that is nested stays so with every step. So a sequence that is
/// left leads back to the very loop whose body it is.
pub proof fn lemma_step_keeps_nesting(machine: Machine, levels: Seq<Level>)
    requires
        nested(levels),
    ensures
        nested(next_levels(machine, levels)),
        levels.len() > 1 && current(levels) is None ==> current(next_levels(machine, levels))
            == Some(Instr::Loop(levels.last().ops)),
{
    let next = next_levels(machine, levels);
    if levels.len() > 0 {
        let top = levels.len() - 1;
        assert forall|i: int| 0 <= i < next.len() implies (#[trigger] next[i]).next
            <= next[i].ops.len() by {
            if i < top {
                assert(next[i] == levels[i]);
            } else if i == top {
                assert(levels[top].next <= levels[top].ops.len());
            }
        }
        assert forall|i: int| 0 <= i < next.len() - 1 implies {
            &&& (#[trigger] next[i]).next < next[i].ops.len()
            &&& next[i].ops[next[i].next as int] == Instr::Loop(next[i + 1].ops)
        } by {
            if i < top - 1 {
                assert(next[i] == levels[i]);
                assert(next[i + 1] == levels[i + 1]);
                assert(levels[i].next < levels[i].ops.len());
            } else if i == top - 1 {
                assert(next[i] == levels[i]);
                assert(levels[i].next < levels[i].ops.len());
                assert(next[i + 1].ops == levels[i + 1].ops);
            } else {
                assert(next[i] == levels[i]);
            }
        }
        if levels.len() > 1 && current(levels) is None {
            assert(levels[top - 1].next < levels[top - 1].ops.len());
            assert(next.last() == levels[top - 1]);
        }
    }
}

/// One sequence of a program that is being run.
struct Frame<'a> {
    ops: &'a [Op],
    next: usize,
}

impl<'a> Frame<'a> {
    /// The frame's model.
    spec fn level(&self) -> Level {
        Level { ops: instrs_of(self.ops@), next: self.next as nat }
    }
}

/// The place in a program where a run stands: the sequences that are being
/// run, the program itself first and the innermost loop body last.
pub struct Run<'a> {
    frames: Vec<Frame<'a>>,
}

impl<'a> View for Run<'a> {
    type V = Seq<Level>;

    closed spec fn view(&self) -> Seq<Level> {
        Seq::new(self.frames@.len(), |i: int| self.frames@[i].level())
    }
}

impl<'a> Run<'a> {
    /// A run of `ops` that stands before the first operation.
    pub fn new(ops: &'a [Op]) -> (run: Run<'a>)
        ensures
            run@ == seq![Level::start(ops.deep_view())],
            nested(run@),
    {
        let mut frames: Vec<Frame<'a>> = Vec::new();
        frames.push(Frame { ops, next: 0 });
        let run = Run { frames };
        assert(ops.deep_view() =~= instrs_of(ops@));
        assert(run@ =~= seq![Level::start(ops.deep_view())]);
        run
    }

    /// Whether the run has come to the end of the program.
    pub fn is_done(&self) -> (done: bool)
        ensures
            done == (self@.len() == 0),
    {
        self.frames.len() == 0
    }

    /// The operation that the next step runs, if the step runs one.
    pub fn current(&self) -> (op: Option<&'a Op>)
        ensures
            op matches Some(found) ==> current(self@) == Some(found.deep_view()),
            op is None ==> current(self@) is None,
    {
        let depth = self.frames.len();
        if depth == 0 {
            return None;
        }
        let top = &self.frames[depth - 1];
        assert(self@.last() == top.level());
        if top.next < top.ops.len() {
            Some(&top.ops[top.next])
        } else {
            None
        }
    }

    /// Leaves the innermost sequence.
    pub(crate) fn leave(&mut self)
        ensures
            old(self)@.len() == 0 ==> final(self)@ == old(self)@,
            old(self)@.len() > 0 ==> final(self)@ == old(self)@.drop_last(),
    {
        let _ = self.frames.pop();
        proof {
            if old(self)@.len() == 0 {
                assert(self@ =~= old(self)@);
            } else {
                assert(self@ =~= old(self)@.drop_last());
            }
        }
    }

    /// Enters a loop's body.
    pub(crate) fn enter(&mut self, body: &'a [Op])
        ensures
            final(self)@ == old(self)@.push(Level::start(instrs_of(body@))),
    {
        self.frames.push(Frame { ops: body, next: 0 });
        assert(self@ =~= old(self)@.push(Level::start(instrs_of(body@))));
    }

    /// Marks the current operation as done.
    pub(crate) fn advance(&mut self)
        requires
            current(old(self)@) is Some,
        ensures
            final(self)@ == advanced(old(self)@),
    {
        let depth = self.frames.len();
        assert(old(self)@.last() == self.frames@[depth - 1].level());
        match self.frames.pop() {
            Some(top) => {
                assert(top.level() == old(self)@.last());
                assert(top.next < top.ops.len());
                self.frames.push(Frame { ops: top.ops, next: top.next + 1 });
            },
            None => {},
        }
        assert(self@ =~= advanced(old(self)@));
    }
}

} // verus!
