//! The virtual machine: its state, what each operation decides, and the
//! steps of a run. The machine decides and the host does the outside work:
//! the host asks what the next step needs, does it, and hands the reply to
//! the step.

use vstd::prelude::*;
use vstd::string::StringExecFns;
use crate::error::{Fault, TrainfuckError};
use crate::machine::{answers, Endpoint, Machine, Reply, Request};
use crate::op::{lemma_loop_model, Instr, Op};
use crate::run::{current, next_levels, Level, Run};
use crate::tape::{join_bytes, lower, move_left, move_right, raise, TAPE_SIZE};

verus! {

/// The virtual machine: the tape, the pointer, and which sockets are open.
/// The sockets themselves and the streams belong to the host that runs the
/// machine.
pub struct VM {
    tape: Vec<u8>,
    pointer: usize,
    listener: bool,
    connection: bool,
}

impl View for VM {
    type V = Machine;

    closed spec fn view(&self) -> Machine {
        Machine {
            tape: self.tape@,
            pointer: self.pointer as int,
            listening: self.listener,
            connected: self.connection,
        }
    }
}

/// The operation has run to its end: it failed with the fault that the
/// reply stands for and left the machine as it was, or it succeeded and left
/// the machine in the state that follows.
pub open spec fn completes(
    before: Machine,
    op: Instr,
    reply: Reply,
    after: Machine,
    result: Result<(), TrainfuckError>,
) -> bool {
    match before.fault(op, reply) {
        Some(fault) => result matches Err(error) && error@ == fault && after == before,
        None => result is Ok && after == before.after(op, reply),
    }
}

/// What the next step asks of the outside world.
pub open spec fn pending(machine: Machine, levels: Seq<Level>) -> Request {
    match current(levels) {
        Some(op) => machine.request(op),
        None => Request::Nothing,
    }
}

/// The next step finds what it reads on the tape: where it opens a socket,
/// the six cells of the address.
pub open spec fn ready(machine: Machine, levels: Seq<Level>) -> bool {
    match current(levels) {
        Some(op) => machine.reads_endpoint(op) ==> machine.endpoint_on_tape(),
        None => true,
    }
}

/// One step from `before` and `levels`: the current operation runs to its
/// end, and unless it fails the walk moves on.
pub open spec fn stepped(
    before: Machine,
    levels: Seq<Level>,
    reply: Reply,
    after: Machine,
    after_levels: Seq<Level>,
    result: Result<(), TrainfuckError>,
) -> bool {
    &&& match current(levels) {
        Some(op) => completes(before, op, reply, after, result),
        None => result is Ok && after == before,
    }
    &&& after_levels == if result is Ok {
        next_levels(before, levels)
    } else {
        levels
    }
}

/// A network error whose text is `what` and then `why`.
fn network_error(what: &str, why: String) -> (error: TrainfuckError)
    ensures
        error@ == Fault::NetworkError(what@ + why@),
{
    let mut text = String::from_str(what);
    text.append(why.as_str());
    TrainfuckError::NetworkError(text)
}

impl VM {
    /// What holds of every machine: the tape has its size, and the pointer
    /// is on it.
    #[verifier::type_invariant]
    spec fn on_tape(&self) -> bool {
        &&& self.tape@.len() == TAPE_SIZE
        &&& self.pointer < TAPE_SIZE
    }

    /// A machine with every cell zero, the pointer on cell 0 and no socket
    /// open.
    pub fn new() -> (vm: VM)
        ensures
            vm@ == Machine::fresh(),
            vm@.wf(),
    {
        let tape: Vec<u8> = vec![0u8; TAPE_SIZE];
        assert(tape@ =~= Machine::fresh().tape);
        VM { tape, pointer: 0, listener: false, connection: false }
    }

    /// The index of the current cell. It is on the tape, as it is in every
    /// state that a machine can be in.
    pub fn pointer(&self) -> (pointer: usize)
        ensures
            pointer == self@.pointer,
            self@.wf(),
    {
        proof {
            use_type_invariant(self);
        }
        self.pointer
    }

    /// The value of the current cell.
    pub fn cell(&self) -> (value: u8)
        ensures
            value == self@.cell(),
    {
        proof {
            use_type_invariant(self);
        }
        self.tape[self.pointer]
    }

    /// Puts `value` into the current cell.
    fn store(&mut self, value: u8)
        ensures
            final(self)@ == old(self)@.with_cell(value),
    {
        proof {
            use_type_invariant(&*self);
        }
        let at = self.pointer;
        self.tape[at] = value;
    }

    /// Whether a listener is open.
    pub fn is_listening(&self) -> (open: bool)
        ensures
            open == self@.listening,
    {
        self.listener
    }

    /// Whether a connection is open.
    pub fn is_connected(&self) -> (open: bool)
        ensures
            open == self@.connected,
    {
        self.connection
    }

    /// Whether the six cells from the pointer on are on the tape, so that a
    /// socket address can be read there.
    fn endpoint_on_tape(&self) -> (there: bool)
        ensures
            there == self@.endpoint_on_tape(),
    {
        proof {
            use_type_invariant(self);
        }
        self.pointer + 5 < TAPE_SIZE
    }

    /// Reads an IPv4 address from the four cells at the pointer, in network
    /// order.
    fn read_address_from_tape(&self) -> (address: (u8, u8, u8, u8))
        requires
            self@.pointer + 3 < TAPE_SIZE,
        ensures
            address == self@.endpoint().address,
    {
        proof {
            use_type_invariant(self);
        }
        (
            self.tape[self.pointer],
            self.tape[self.pointer + 1],
            self.tape[self.pointer + 2],
            self.tape[self.pointer + 3],
        )
    }

    /// Reads a port from the two cells four and five past the pointer, the
    /// high byte first.
    fn read_port_from_tape(&self) -> (port: u16)
        requires
            self@.endpoint_on_tape(),
        ensures
            port == self@.endpoint().port,
    {
        proof {
            use_type_invariant(self);
        }
        join_bytes(self.tape[self.pointer + 4], self.tape[self.pointer + 5])
    }

    /// Reads the socket address that the six cells from the pointer on spell.
    fn read_endpoint_from_tape(&self) -> (endpoint: Endpoint)
        requires
            self@.endpoint_on_tape(),
        ensures
            endpoint == self@.endpoint(),
    {
        let address = self.read_address_from_tape();
        let port = self.read_port_from_tape();
        Endpoint { address, port }
    }

    /// Whether `op` finds what it reads on the tape: an operation that opens
    /// a socket needs its address there.
    fn can_request(&self, op: &Op) -> (ready: bool)
        ensures
            ready == (self@.reads_endpoint(op.deep_view()) ==> self@.endpoint_on_tape()),
    {
        let reads = match op {
            Op::Listen => !self.listener,
            Op::Connect => !self.connection,
            _ => false,
        };
        !reads || self.endpoint_on_tape()
    }

    /// What `op` asks of the outside world in this state.
    fn request(&self, op: &Op) -> (request: Request)
        requires
            self@.reads_endpoint(op.deep_view()) ==> self@.endpoint_on_tape(),
        ensures
            request == self@.request(op.deep_view()),
    {
        match op {
            Op::Output => Request::Output(self.cell()),
            Op::Input => Request::Input,
            Op::Listen => {
                if self.listener {
                    Request::CloseListener
                } else {
                    Request::Bind(self.read_endpoint_from_tape())
                }
            },
            Op::Accept => {
                if self.connection {
                    Request::CloseConnection
                } else if self.listener {
                    Request::Accept
                } else {
                    Request::Nothing
                }
            },
            Op::Connect => {
                if self.connection {
                    Request::CloseConnection
                } else {
                    Request::Connect(self.read_endpoint_from_tape())
                }
            },
            Op::Receive => {
                if self.connection {
                    Request::Receive
                } else {
                    Request::Nothing
                }
            },
            Op::Send => {
                if self.connection {
                    Request::Send(self.cell())
                } else {
                    Request::Nothing
                }
            },
            _ => Request::Nothing,
        }
    }

    /// Listen, once the host has answered: an open listener is closed; a
    /// listener that the host has bound is open; a bind that failed is a
    /// network error.
    fn net_listen(&mut self, reply: Reply) -> (result: Result<(), TrainfuckError>)
        requires
            answers(reply, old(self)@.request(Instr::Listen)),
        ensures
            completes(old(self)@, Instr::Listen, reply, final(self)@, result),
    {
        proof {
            use_type_invariant(&*self);
        }
        if self.listener {
            self.listener = false;
            return Ok(());
        }
        match reply {
            Reply::Refused(why) => Err(network_error("Failed to bind: ", why)),
            _ => {
                self.listener = true;
                Ok(())
            },
        }
    }

    /// Accept, once the host has answered: an open connection is closed;
    /// else, with a listener, a peer's connection is open, or the failure to
    /// take one is a network error; without a listener nothing happens.
    fn net_accept(&mut self, reply: Reply) -> (result: Result<(), TrainfuckError>)
        requires
            answers(reply, old(self)@.request(Instr::Accept)),
        ensures
            completes(old(self)@, Instr::Accept, reply, final(self)@, result),
    {
        proof {
            use_type_invariant(&*self);
        }
        if self.connection {
            self.connection = false;
            return Ok(());
        }
        if self.listener {
            match reply {
                Reply::Refused(why) => {
                    return Err(network_error("Accept failed: ", why));
                },
                _ => {
                    self.connection = true;
                },
            }
        }
        Ok(())
    }

    /// Connect, once the host has answered: an open connection is closed; a
    /// connection that the host has made is open; a connect that failed is a
    /// network error.
    fn net_connect(&mut self, reply: Reply) -> (result: Result<(), TrainfuckError>)
        requires
            answers(reply, old(self)@.request(Instr::Connect)),
        ensures
            completes(old(self)@, Instr::Connect, reply, final(self)@, result),
    {
        proof {
            use_type_invariant(&*self);
        }
        if self.connection {
            self.connection = false;
            return Ok(());
        }
        match reply {
            Reply::Refused(why) => Err(network_error("Connect failed: ", why)),
            _ => {
                self.connection = true;
                Ok(())
            },
        }
    }

    /// Receive, once the host has answered: the byte read goes into the
    /// current cell; the end of the stream, a failed read and a missing
    /// connection all leave zero there. It never fails.
    fn net_receive(&mut self, reply: Reply) -> (result: Result<(), TrainfuckError>)
        requires
            answers(reply, old(self)@.request(Instr::Receive)),
        ensures
            completes(old(self)@, Instr::Receive, reply, final(self)@, result),
            result is Ok,
    {
        if self.connection {
            match reply {
                Reply::Byte(byte) => {
                    self.store(byte);
                },
                _ => {
                    self.store(0);
                },
            }
        } else {
            self.store(0);
        }
        Ok(())
    }

    /// Send, once the host has answered: a write that failed is a network
    /// error, a flush that failed an I/O error; without a connection nothing
    /// happens. The machine's state stays as it is.
    fn net_send(&mut self, reply: Reply) -> (result: Result<(), TrainfuckError>)
        requires
            answers(reply, old(self)@.request(Instr::Send)),
        ensures
            completes(old(self)@, Instr::Send, reply, final(self)@, result),
            final(self)@ == old(self)@,
    {
        if self.connection {
            match reply {
                Reply::Refused(why) => {
                    return Err(network_error("Send failed: ", why));
                },
                Reply::Failed(cause) => {
                    return Err(TrainfuckError::IoError(cause));
                },
                _ => {},
            }
        }
        Ok(())
    }

    /// Runs one operation to its end, given the host's reply to what the
    /// operation asked for. A loop is not run here: by itself it changes
    /// nothing, and the walk over the program decides whether its body is
    /// entered.
    fn execute_op(&mut self, op: &Op, reply: Reply) -> (result: Result<(), TrainfuckError>)
        requires
            answers(reply, old(self)@.request(op.deep_view())),
        ensures
            completes(old(self)@, op.deep_view(), reply, final(self)@, result),
            final(self)@.wf(),
    {
        proof {
            use_type_invariant(&*self);
        }
        match op {
            Op::MoveRight(n) => {
                self.pointer = move_right(self.pointer, *n);
            },
            Op::MoveLeft(n) => {
                self.pointer = move_left(self.pointer, *n);
            },
            Op::Increment(n) => {
                let value = raise(self.cell(), *n);
                self.store(value);
            },
            Op::Decrement(n) => {
                let value = lower(self.cell(), *n);
                self.store(value);
            },
            Op::Output => {
                match reply {
                    Reply::Failed(cause) => {
                        return Err(TrainfuckError::IoError(cause));
                    },
                    _ => {},
                }
            },
            Op::Input => {
                match reply {
                    Reply::Byte(byte) => {
                        self.store(byte);
                    },
                    Reply::Failed(cause) => {
                        return Err(TrainfuckError::IoError(cause));
                    },
                    _ => {
                        self.store(0);
                    },
                }
            },
            Op::Loop(_) => {},
            Op::Listen => {
                return self.net_listen(reply);
            },
            Op::Accept => {
                return self.net_accept(reply);
            },
            Op::Connect => {
                return self.net_connect(reply);
            },
            Op::Receive => {
                return self.net_receive(reply);
            },
            Op::Send => {
                return self.net_send(reply);
            },
        }
        Ok(())
    }

    /// Whether [`VM::pending`] may be asked for: it may not where the next
    /// step opens a socket with the pointer less than six cells from the
    /// tape's end.
    pub fn ready(&self, run: &Run) -> (yes: bool)
        ensures
            yes == ready(self@, run@),
    {
        match run.current() {
            Some(op) => self.can_request(op),
            None => true,
        }
    }

    /// What the next step of `run` asks of the outside world.
    pub fn pending(&self, run: &Run) -> (request: Request)
        requires
            ready(self@, run@),
        ensures
            request == pending(self@, run@),
    {
        match run.current() {
            Some(op) => self.request(op),
            None => Request::Nothing,
        }
    }

    /// Takes one step of `run`, given the host's reply to what the step
    /// asked for.
    pub fn step<'a>(&mut self, run: &mut Run<'a>, reply: Reply) -> (result: Result<
        (),
        TrainfuckError,
    >)
        requires
            answers(reply, pending(old(self)@, old(run)@)),
        ensures
            stepped(old(self)@, old(run)@, reply, final(self)@, final(run)@, result),
            final(self)@.wf(),
    {
        proof {
            use_type_invariant(&*self);
        }
        match run.current() {
            None => {
                run.leave();
                Ok(())
            },
            Some(op) => {
                match op {
                    Op::Loop(body) => {
                        proof {
                            lemma_loop_model(*body);
                        }
                        if self.cell() != 0 {
                            run.enter(body.as_slice());
                        } else {
                            run.advance();
                        }
                        Ok(())
                    },
                    _ => {
                        match self.execute_op(op, reply) {
                            Ok(()) => {
                                run.advance();
                                Ok(())
                            },
                            Err(error) => Err(error),
                        }
                    },
                }
            },
        }
    }
}

impl Default for VM {
    /// The same as [`VM::new`].
    fn default() -> (vm: VM)
        ensures
            vm@ == Machine::fresh(),
    {
        VM::new()
    }
}

} // verus!
