//! The machine as a mathematical object: its state, what each operation
//! asks of the outside world, and how the state changes once the outside
//! world has answered.

use vstd::prelude::*;
use crate::error::Fault;
use crate::op::Instr;
use crate::tape::{big_endian, left_of, lowered, raised, right_of, TAPE_SIZE};

verus! {

/// An IPv4 socket address as six tape cells spell it: four address bytes in
/// network order, then the port, high byte first.
#[derive(Debug, Clone, Copy, PartialEq, Eq)]
pub struct Endpoint {
    pub address: (u8, u8, u8, u8),
    pub port: u16,
}

/// Outside work that an operation needs before the machine can go on.
#[derive(Debug, Clone, Copy, PartialEq, Eq)]
pub enum Request {
    /// None: the step changes the machine only.
    Nothing,
    /// Write this byte to the output stream, and flush the stream.
    Output(u8),
    /// Read one byte from the input stream.
    Input,
    /// Open a listener bound to this endpoint.
    Bind(Endpoint),
    /// Close the listener.
    CloseListener,
    /// Wait for a peer on the listener and take its connection.
    Accept,
    /// Close the connection.
    CloseConnection,
    /// Open a connection to this endpoint.
    Connect(Endpoint),
    /// Read one byte from the connection.
    Receive,
    /// Write this byte to the connection, and flush the connection.
    Send(u8),
}

/// What came of the outside work.
#[derive(Debug)]
pub enum Reply {
    /// The work is done, or none was asked for.
    Done,
    /// A read gave this byte.
    Byte(u8),
    /// A read met the end of the stream.
    EndOfStream,
    /// A stream failed: reading the input, writing the output, or flushing.
    Failed(std::io::Error),
    /// A socket operation failed; the text says why.
    Refused(String),
}

/// The replies that answer a request.
pub open spec fn answers(reply: Reply, request: Request) -> bool {
    match request {
        Request::Nothing | Request::CloseListener | Request::CloseConnection => reply is Done,
        Request::Output(_) => reply is Done || reply is Failed,
        Request::Input => reply is Byte || reply is EndOfStream || reply is Failed,
        Request::Bind(_) | Request::Accept | Request::Connect(_) => reply is Done
            || reply is Refused,
        Request::Receive => reply is Byte || reply is EndOfStream || reply is Refused,
        Request::Send(_) => reply is Done || reply is Refused || reply is Failed,
    }
}

/// The fault that a reply to a request stands for, if it is one. A failed
/// receive is none: the machine goes on.
pub open spec fn fault_of(request: Request, reply: Reply) -> Option<Fault> {
    match (request, reply) {
        (Request::Output(_), Reply::Failed(cause)) => Some(Fault::IoError(cause)),
        (Request::Input, Reply::Failed(cause)) => Some(Fault::IoError(cause)),
        (Request::Send(_), Reply::Failed(cause)) => Some(Fault::IoError(cause)),
        (Request::Bind(_), Reply::Refused(why)) => Some(
            Fault::NetworkError("Failed to bind: "@ + why@),
        ),
        (Request::Accept, Reply::Refused(why)) => Some(
            Fault::NetworkError("Accept failed: "@ + why@),
        ),
        (Request::Connect(_), Reply::Refused(why)) => Some(
            Fault::NetworkError("Connect failed: "@ + why@),
        ),
        (Request::Send(_), Reply::Refused(why)) => Some(
            Fault::NetworkError("Send failed: "@ + why@),
        ),
        _ => None,
    }
}

/// The byte that a read leaves in the current cell: the byte read, or zero
/// where there was none to read.
pub open spec fn byte_read(reply: Reply) -> u8 {
    match reply {
        Reply::Byte(byte) => byte,
        _ => 0,
    }
}

/// The state of the machine.
pub struct Machine {
    /// The cells.
    pub tape: Seq<u8>,
    /// The index of the current cell.
    pub pointer: int,
    /// Whether a listener is open.
    pub listening: bool,
    /// Whether a connection is open.
    pub connected: bool,
}

impl Machine {
    /// The tape has its size and the pointer is on it.
    pub open spec fn wf(self) -> bool {
        &&& self.tape.len() == TAPE_SIZE
        &&& 0 <= self.pointer < TAPE_SIZE
    }

    /// A fresh machine: every cell zero, the pointer on cell 0, no socket.
    pub open spec fn fresh() -> Machine {
        Machine {
            tape: Seq::new(TAPE_SIZE as nat, |i: int| 0u8),
            pointer: 0,
            listening: false,
            connected: false,
        }
    }

    /// The value of the current cell.
    pub open spec fn cell(self) -> u8 {
        self.tape[self.pointer]
    }

    /// This machine with `value` in the current cell.
    pub open spec fn with_cell(self, value: u8) -> Machine {
        Machine { tape: self.tape.update(self.pointer, value), ..self }
    }

    /// The six cells from the pointer on are on the tape.
    pub open spec fn endpoint_on_tape(self) -> bool {
        self.pointer + 5 < TAPE_SIZE
    }

    /// The socket address that the six cells from the pointer on spell.
    pub open spec fn endpoint(self) -> Endpoint {
        Endpoint {
            address: (
                self.tape[self.pointer],
                self.tape[self.pointer + 1],
                self.tape[self.pointer + 2],
                self.tape[self.pointer + 3],
            ),
            port: big_endian(self.tape[self.pointer + 4], self.tape[self.pointer + 5]) as u16,
        }
    }

    /// The operation reads its socket address from the tape, so the six
    /// cells from the pointer on must be there.
    pub open spec fn reads_endpoint(self, op: Instr) -> bool {
        ||| op is Listen && !self.listening
        ||| op is Connect && !self.connected
    }

    /// What the operation asks of the outside world in this state. Listen,
    /// Accept and Connect close what is open and open what is not; Accept
    /// without a listener, and Receive and Send without a connection, ask
    /// nothing.
    pub open spec fn request(self, op: Instr) -> Request {
        match op {
            Instr::Output => Request::Output(self.cell()),
            Instr::Input => Request::Input,
            Instr::Listen => if self.listening {
                Request::CloseListener
            } else {
                Request::Bind(self.endpoint())
            },
            Instr::Accept => if self.connected {
                Request::CloseConnection
            } else if self.listening {
                Request::Accept
            } else {
                Request::Nothing
            },
            Instr::Connect => if self.connected {
                Request::CloseConnection
            } else {
                Request::Connect(self.endpoint())
            },
            Instr::Receive => if self.connected {
                Request::Receive
            } else {
                Request::Nothing
            },
            Instr::Send => if self.connected {
                Request::Send(self.cell())
            } else {
                Request::Nothing
            },
            _ => Request::Nothing,
        }
    }

    /// The fault with which the operation ends in this state, given the
    /// reply to its request; `None` where it succeeds.
    pub open spec fn fault(self, op: Instr, reply: Reply) -> Option<Fault> {
        fault_of(self.request(op), reply)
    }

    /// The state after the operation has succeeded in this state, given the
    /// reply to its request. A loop does not change the state by itself.
    pub open spec fn after(self, op: Instr, reply: Reply) -> Machine {
        match op {
            Instr::MoveRight(n) => Machine { pointer: right_of(self.pointer, n as int), ..self },
            Instr::MoveLeft(n) => Machine { pointer: left_of(self.pointer, n as int), ..self },
            Instr::Increment(n) => self.with_cell(raised(self.cell(), n as int)),
            Instr::Decrement(n) => self.with_cell(lowered(self.cell(), n as int)),
            Instr::Output => self,
            Instr::Input => self.with_cell(byte_read(reply)),
            Instr::Loop(_) => self,
            Instr::Listen => Machine { listening: !self.listening, ..self },
            Instr::Accept => if self.connected {
                Machine { connected: false, ..self }
            } else if self.listening {
                Machine { connected: true, ..self }
            } else {
                self
            },
            Instr::Connect => Machine { connected: !self.connected, ..self },
            Instr::Receive => self.with_cell(byte_read(reply)),
            Instr::Send => self,
        }
    }
}

/// Whether `reply` answers `request`.
pub fn answers_request(reply: &Reply, request: &Request) -> (yes: bool)
    ensures
        yes == answers(*reply, *request),
{
    match request {
        Request::Nothing | Request::CloseListener | Request::CloseConnection => match reply {
            Reply::Done => true,
            _ => false,
        },
        Request::Output(_) => match reply {
            Reply::Done | Reply::Failed(_) => true,
            _ => false,
        },
        Request::Input => match reply {
            Reply::Byte(_) | Reply::EndOfStream | Reply::Failed(_) => true,
            _ => false,
        },
        Request::Bind(_) | Request::Accept | Request::Connect(_) => match reply {
            Reply::Done | Reply::Refused(_) => true,
            _ => false,
        },
        Request::Receive => match reply {
            Reply::Byte(_) | Reply::EndOfStream | Reply::Refused(_) => true,
            _ => false,
        },
        Request::Send(_) => match reply {
            Reply::Done | Reply::Refused(_) | Reply::Failed(_) => true,
            _ => false,
        },
    }
}

/// No operation takes the pointer off the tape or changes the tape's size.
pub proof fn lemma_after_keeps_wf(machine: Machine, op: Instr, reply: Reply)
    requires
        machine.wf(),
    ensures
        machine.after(op, reply).wf(),
{
}

/// Two Connects in a row on a machine without a connection leave it without
/// one. The first asks to open a connection. Where that fails, the machine
/// stays as it was. Where it succeeds, the second asks only to close that
/// connection, cannot fail, and leaves none open: never are there two.
pub proof fn lemma_second_connect_closes(machine: Machine, first: Reply, second: Reply)
    requires
        !machine.connected,
    ensures
        machine.request(Instr::Connect) == Request::Connect(machine.endpoint()),
        machine.fault(Instr::Connect, first) is Some ==> !machine.connected,
        machine.fault(Instr::Connect, first) is None ==> machine.after(
            Instr::Connect,
            first,
        ).connected,
        machine.fault(Instr::Connect, first) is None ==> machine.after(
            Instr::Connect,
            first,
        ).request(Instr::Connect) == Request::CloseConnection,
        machine.fault(Instr::Connect, first) is None ==> machine.after(
            Instr::Connect,
            first,
        ).fault(Instr::Connect, second) is None,
        machine.fault(Instr::Connect, first) is None ==> !machine.after(
            Instr::Connect,
            first,
        ).after(Instr::Connect, second).connected,
{
}

} // verus!
