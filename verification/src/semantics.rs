//! The mathematical semantics of the machine: a small-step transition
//! function over an abstract machine state, together with the iterated form
//! used by the contracts of the executable engine.

use vstd::prelude::*;

verus! {

/// The ASCII codes of the eight operator characters.
pub const OP_RIGHT: u8 = 62;

/// `<`
pub const OP_LEFT: u8 = 60;

/// `+`
pub const OP_INC: u8 = 43;

/// `-`
pub const OP_DEC: u8 = 45;

/// `.`
pub const OP_OUT: u8 = 46;

/// `,`
pub const OP_IN: u8 = 44;

/// `[`
pub const OP_OPEN: u8 = 91;

/// `]`
pub const OP_CLOSE: u8 = 93;

/// The fatal errors a run can signal. Each carries the program position at
/// which it was detected.
#[derive(Clone, Copy, PartialEq, Eq, Structural, Debug)]
pub enum Fatal {
    /// `>` at the last cell with wrapping disabled.
    PointerOverflow(usize),
    /// `<` at cell 0 with wrapping disabled.
    PointerUnderflow(usize),
    /// Unbalanced brackets: a `[` with no matching `]`, or a `]` re-entering
    /// a loop that was never opened.
    MalformedProgram(usize),
}

/// True of the eight characters that carry meaning; every other character is
/// a comment.
pub open spec fn is_op(c: u8) -> bool {
    c == OP_RIGHT || c == OP_LEFT || c == OP_INC || c == OP_DEC || c == OP_OUT || c == OP_IN || c == OP_OPEN
        || c == OP_CLOSE
}

/// The abstract state of the machine: instruction pointer, data pointer,
/// tape, loop-return stack, remaining input, and output produced so far.
#[verifier::ext_equal]
pub ghost struct MState {
    /// Instruction pointer: an offset into the program text.
    pub i: int,
    /// Data pointer: an index into the tape.
    pub ptr: int,
    /// The memory tape of 8-bit cells.
    pub tape: Seq<u8>,
    /// Loop-return stack: for each open loop, the position just after its `[`.
    pub stack: Seq<int>,
    /// The input bytes not yet consumed by `,`.
    pub inq: Seq<u8>,
    /// The bytes written by `.` so far.
    pub out: Seq<u8>,
}

/// The outcome of one transition.
pub ghost enum StepOut {
    /// The machine took a step to a new state.
    Next(MState),
    /// The instruction pointer is past the end of the program.
    Halt,
    /// A fatal error was detected; the state is unchanged.
    Fail(Fatal),
}

/// The state of a run after a number of steps.
pub ghost enum RunState {
    Running(MState),
    Halted(MState),
    Failed(Fatal, MState),
}

/// The state a run begins in: everything at zero, the whole input pending.
pub open spec fn init_state(size: int, input: Seq<u8>) -> MState {
    MState {
        i: 0,
        ptr: 0,
        tape: Seq::new(size as nat, |k: int| 0u8),
        stack: Seq::empty(),
        inq: input,
        out: Seq::empty(),
    }
}

/// Increment with 8-bit wraparound.
pub open spec fn wrap_inc(v: u8) -> u8 {
    if v == 255 {
        0
    } else {
        (v + 1) as u8
    }
}

/// Decrement with 8-bit wraparound.
pub open spec fn wrap_dec(v: u8) -> u8 {
    if v == 0 {
        255
    } else {
        (v - 1) as u8
    }
}

/// Scan of the program from position `j` with `depth` brackets open:
/// `Some(k)` where `k` is the position just after the bracket that closes the
/// outermost of them, or `None` if the program ends first.
pub open spec fn match_fwd(prog: Seq<u8>, j: int, depth: int) -> Option<int>
    decreases prog.len() - j,
{
    if j < 0 || j >= prog.len() {
        None
    } else {
        let d = if prog[j] == OP_OPEN {
            depth + 1
        } else if prog[j] == OP_CLOSE {
            depth - 1
        } else {
            depth
        };
        if d == 0 {
            Some(j + 1)
        } else {
            match_fwd(prog, j + 1, d)
        }
    }
}

/// One transition of the machine on program `prog` with tape length `size`
/// and boundary policy `wrapping`.
pub open spec fn step(prog: Seq<u8>, wrapping: bool, size: int, s: MState) -> StepOut {
    if !(0 <= s.i < prog.len()) {
        StepOut::Halt
    } else {
        let c = prog[s.i];
        if c == OP_RIGHT {
            if s.ptr == size - 1 {
                if wrapping {
                    StepOut::Next(MState { i: s.i + 1, ptr: 0, ..s })
                } else {
                    StepOut::Fail(Fatal::PointerOverflow(s.i as usize))
                }
            } else {
                StepOut::Next(MState { i: s.i + 1, ptr: s.ptr + 1, ..s })
            }
        } else if c == OP_LEFT {
            if s.ptr == 0 {
                if wrapping {
                    StepOut::Next(MState { i: s.i + 1, ptr: size - 1, ..s })
                } else {
                    StepOut::Fail(Fatal::PointerUnderflow(s.i as usize))
                }
            } else {
                StepOut::Next(MState { i: s.i + 1, ptr: s.ptr - 1, ..s })
            }
        } else if c == OP_INC {
            StepOut::Next(
                MState { i: s.i + 1, tape: s.tape.update(s.ptr, wrap_inc(s.tape[s.ptr])), ..s },
            )
        } else if c == OP_DEC {
            StepOut::Next(
                MState { i: s.i + 1, tape: s.tape.update(s.ptr, wrap_dec(s.tape[s.ptr])), ..s },
            )
        } else if c == OP_OUT {
            StepOut::Next(MState { i: s.i + 1, out: s.out.push(s.tape[s.ptr]), ..s })
        } else if c == OP_IN {
            // At end of input, store 0 (the conventional end-of-input policy).
            if s.inq.len() > 0 {
                StepOut::Next(
                    MState {
                        i: s.i + 1,
                        tape: s.tape.update(s.ptr, s.inq[0]),
                        inq: s.inq.drop_first(),
                        ..s
                    },
                )
            } else {
                StepOut::Next(MState { i: s.i + 1, tape: s.tape.update(s.ptr, 0u8), ..s })
            }
        } else if c == OP_OPEN {
            if s.tape[s.ptr] == 0 {
                match match_fwd(prog, s.i + 1, 1) {
                    Some(j) => StepOut::Next(MState { i: j, ..s }),
                    None => StepOut::Fail(Fatal::MalformedProgram(s.i as usize)),
                }
            } else {
                StepOut::Next(MState { i: s.i + 1, stack: s.stack.push(s.i + 1), ..s })
            }
        } else if c == OP_CLOSE {
            if s.tape[s.ptr] != 0 {
                if s.stack.len() == 0 {
                    StepOut::Fail(Fatal::MalformedProgram(s.i as usize))
                } else {
                    StepOut::Next(MState { i: s.stack.last(), ..s })
                }
            } else {
                // Discard the top of the stack; on an empty stack this is a
                // plain advance, as discarding from an empty stack discards
                // nothing.
                if s.stack.len() == 0 {
                    StepOut::Next(MState { i: s.i + 1, ..s })
                } else {
                    StepOut::Next(MState { i: s.i + 1, stack: s.stack.drop_last(), ..s })
                }
            }
        } else {
            StepOut::Next(MState { i: s.i + 1, ..s })
        }
    }
}

/// The run after `fuel` transitions from `s0`: still running, halted, or
/// failed. Once halted or failed, further fuel changes nothing.
pub open spec fn advance(prog: Seq<u8>, wrapping: bool, size: int, s0: MState, fuel: nat) -> RunState
    decreases fuel,
{
    if fuel == 0 {
        RunState::Running(s0)
    } else {
        match advance(prog, wrapping, size, s0, (fuel - 1) as nat) {
            RunState::Running(s) => match step(prog, wrapping, size, s) {
                StepOut::Next(s2) => RunState::Running(s2),
                StepOut::Halt => RunState::Halted(s),
                StepOut::Fail(e) => RunState::Failed(e, s),
            },
            r => r,
        }
    }
}

/// The run from the initial state halts normally with output `out`.
pub open spec fn halts_with(
    prog: Seq<u8>,
    wrapping: bool,
    size: int,
    input: Seq<u8>,
    out: Seq<u8>,
) -> bool {
    exists|n: nat, s: MState|
        advance(prog, wrapping, size, init_state(size, input), n) == RunState::Halted(s)
            && s.out == out
}

/// The run from the initial state fails with error `e`, having produced
/// output `out` before the failure.
pub open spec fn fails_with(
    prog: Seq<u8>,
    wrapping: bool,
    size: int,
    input: Seq<u8>,
    e: Fatal,
    out: Seq<u8>,
) -> bool {
    exists|n: nat, s: MState|
        advance(prog, wrapping, size, init_state(size, input), n) == RunState::Failed(e, s)
            && s.out == out
}

} // verus!
