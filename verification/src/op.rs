//! The operation tree that the parser builds and the machine interprets.

use vstd::prelude::*;

verus! {

/// One syntactic unit of a program.
#[derive(Debug, PartialEq)]
pub enum Op {
    /// Move the pointer right by the given number of cells.
    MoveRight(usize),
    /// Move the pointer left by the given number of cells.
    MoveLeft(usize),
    /// Add the amount to the current cell.
    Increment(u8),
    /// Subtract the amount from the current cell.
    Decrement(u8),
    /// Write the current cell to the output stream.
    Output,
    /// Read one byte from the input stream into the current cell.
    Input,
    /// Repeat the body while the current cell is not zero.
    Loop(Vec<Op>),
    /// Open an outbound connection, or close the active connection.
    Connect,
    /// Open a listener, or close the active listener.
    Listen,
    /// Take an inbound connection from the listener, or close the active connection.
    Accept,
    /// Read one byte from the connection into the current cell.
    Receive,
    /// Write the current cell to the connection.
    Send,
}

/// The mathematical value of an [`Op`]: counts are unbounded naturals and a
/// loop body is a sequence.
pub enum Instr {
    /// Move the pointer right by this many cells.
    MoveRight(nat),
    /// Move the pointer left by this many cells.
    MoveLeft(nat),
    /// Add this amount to the current cell.
    Increment(nat),
    /// Subtract this amount from the current cell.
    Decrement(nat),
    /// Write the current cell to the output stream.
    Output,
    /// Read one byte from the input stream into the current cell.
    Input,
    /// Repeat the body while the current cell is not zero.
    Loop(Seq<Instr>),
    /// Open an outbound connection, or close the active connection.
    Connect,
    /// Open a listener, or close the active listener.
    Listen,
    /// Take an inbound connection from the listener, or close the active
    /// connection.
    Accept,
    /// Read one byte from the connection into the current cell.
    Receive,
    /// Write the current cell to the connection.
    Send,
}

/// The model of one operation. A loop's model holds the models of the
/// operations in its body, in order.
pub open spec fn instr_of(op: Op) -> Instr
    decreases op,
{
    match op {
        Op::MoveRight(n) => Instr::MoveRight(n as nat),
        Op::MoveLeft(n) => Instr::MoveLeft(n as nat),
        Op::Increment(n) => Instr::Increment(n as nat),
        Op::Decrement(n) => Instr::Decrement(n as nat),
        Op::Output => Instr::Output,
        Op::Input => Instr::Input,
        Op::Loop(body) => Instr::Loop(
            Seq::new(
                body@.len(),
                |i: int|
                    if 0 <= i < body@.len() {
                        instr_of(body@[i])
                    } else {
                        // Never taken: the sequence has no such index.
                        Instr::Output
                    },
            ),
        ),
        Op::Connect => Instr::Connect,
        Op::Listen => Instr::Listen,
        Op::Accept => Instr::Accept,
        Op::Receive => Instr::Receive,
        Op::Send => Instr::Send,
    }
}

impl DeepView for Op {
    type V = Instr;

    open spec fn deep_view(&self) -> Instr {
        instr_of(*self)
    }
}

/// The model of a sequence of operations.
pub open spec fn instrs_of(ops: Seq<Op>) -> Seq<Instr> {
    Seq::new(ops.len(), |i: int| instr_of(ops[i]))
}

/// A loop's model holds the model of its body.
pub proof fn lemma_loop_model(body: Vec<Op>)
    ensures
        instr_of(Op::Loop(body)) == Instr::Loop(instrs_of(body@)),
        body.deep_view() == instrs_of(body@),
{
    assert(instr_of(Op::Loop(body))->Loop_0 =~= instrs_of(body@));
    assert(body.deep_view() =~= instrs_of(body@));
}

/// Copies a sequence of operations, loop bodies included.
fn clone_ops(ops: &Vec<Op>) -> (copy: Vec<Op>)
    ensures
        instrs_of(copy@) == instrs_of(ops@),
    decreases ops, 1nat,
{
    let mut copy: Vec<Op> = Vec::new();
    let mut i: usize = 0;
    while i < ops.len()
        invariant
            i <= ops.len(),
            copy.len() == i,
            forall|k: int| 0 <= k < i ==> instr_of(copy@[k]) == instr_of(ops@[k]),
        decreases ops.len() - i,
    {
        let item = clone_op(&ops[i]);
        copy.push(item);
        i += 1;
    }
    assert(instrs_of(copy@) =~= instrs_of(ops@));
    copy
}

/// Copies one operation, a loop's body included.
fn clone_op(op: &Op) -> (copy: Op)
    ensures
        instr_of(copy) == instr_of(*op),
    decreases op, 0nat,
{
    match op {
        Op::MoveRight(n) => Op::MoveRight(*n),
        Op::MoveLeft(n) => Op::MoveLeft(*n),
        Op::Increment(n) => Op::Increment(*n),
        Op::Decrement(n) => Op::Decrement(*n),
        Op::Output => Op::Output,
        Op::Input => Op::Input,
        Op::Loop(body) => {
            let inner = clone_ops(body);
            proof {
                lemma_loop_model(*body);
                lemma_loop_model(inner);
            }
            Op::Loop(inner)
        },
        Op::Connect => Op::Connect,
        Op::Listen => Op::Listen,
        Op::Accept => Op::Accept,
        Op::Receive => Op::Receive,
        Op::Send => Op::Send,
    }
}

impl Clone for Op {
    fn clone(&self) -> (copy: Op)
        ensures
            copy.deep_view() == self.deep_view(),
    {
        clone_op(self)
    }
}

} // verus!
