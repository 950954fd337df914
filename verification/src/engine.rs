//! The executable interpreter. An `Engine` holds the concrete machine; its
//! `step` method is proved to follow the transition function of
//! `crate::semantics` exactly, and `run` iterates it to completion.

use crate::semantics::{
    advance, fails_with, halts_with, init_state, is_op, match_fwd, step, wrap_dec, wrap_inc, Fatal,
    MState, RunState, StepOut, OP_CLOSE, OP_DEC, OP_IN, OP_INC, OP_LEFT, OP_OPEN, OP_OUT, OP_RIGHT,
};
use vstd::prelude::*;

verus! {

/// What one call of `Engine::step` reports.
#[derive(Clone, Copy, PartialEq, Eq, Structural, Debug)]
pub enum StepStatus {
    /// An instruction was executed (or a comment skipped); the run goes on.
    Running,
    /// The instruction pointer is past the end of the program.
    Halted,
    /// A fatal error; the machine state is unchanged.
    Failed(Fatal),
}

/// The loop-return stack as the semantics sees it.
pub open spec fn abs_stack(v: Seq<usize>) -> Seq<int> {
    v.map_values(|u: usize| u as int)
}

/// The concrete machine: program text, pending input, configuration, and the
/// mutable run state.
pub struct Engine {
    /// The program text, as bytes.
    pub program: Vec<u8>,
    /// The input bytes; those before `inpos` have been consumed by `,`.
    pub input: Vec<u8>,
    /// Boundary policy for `>` and `<`.
    pub wrapping: bool,
    /// The tape length.
    pub size: usize,
    /// Instruction pointer.
    pub i: usize,
    /// Data pointer.
    pub ptr: usize,
    /// The memory tape.
    pub tape: Vec<u8>,
    /// Loop-return stack.
    pub stack: Vec<usize>,
    /// How many input bytes have been consumed.
    pub inpos: usize,
    /// The output bytes produced so far.
    pub out: Vec<u8>,
}

impl Engine {
    /// Well-formedness: the invariant every engine operation preserves.
    pub open spec fn wf(self) -> bool {
        &&& self.size >= 1
        &&& self.tape@.len() == self.size
        &&& self.ptr < self.size
        &&& self.i <= self.program@.len()
        &&& self.inpos <= self.input@.len()
        &&& forall|k: int|
            0 <= k < self.stack@.len() ==> #[trigger] self.stack@[k] <= self.program@.len()
    }

    /// The abstract state this engine is in.
    pub open spec fn st(self) -> MState {
        MState {
            i: self.i as int,
            ptr: self.ptr as int,
            tape: self.tape@,
            stack: abs_stack(self.stack@),
            inq: self.input@.skip(self.inpos as int),
            out: self.out@,
        }
    }

    /// A fresh machine in the initial state: tape of `size` zeroed cells,
    /// both pointers at 0, the whole input pending, no output.
    pub fn new(program: Vec<u8>, input: Vec<u8>, wrapping: bool, size: usize) -> (e: Engine)
        requires
            size >= 1,
        ensures
            e.wf(),
            e.program@ == program@,
            e.wrapping == wrapping,
            e.size == size,
            e.st() == init_state(size as int, input@),
    {
        let mut tape: Vec<u8> = Vec::new();
        while tape.len() < size
            invariant
                tape@.len() <= size,
                forall|k: int| 0 <= k < tape@.len() ==> tape@[k] == 0u8,
            decreases size - tape@.len(),
        {
            tape.push(0);
        }
        let e = Engine {
            program,
            input,
            wrapping,
            size,
            i: 0,
            ptr: 0,
            tape,
            stack: Vec::new(),
            inpos: 0,
            out: Vec::new(),
        };
        proof {
            assert(e.st().tape =~= init_state(size as int, input@).tape);
            assert(e.st().stack =~= init_state(size as int, input@).stack);
            assert(e.st().inq =~= init_state(size as int, input@).inq);
            assert(e.st().out =~= init_state(size as int, input@).out);
            assert(e.st() =~= init_state(size as int, input@));
        }
        e
    }

    /// Execute one position of the program: one instruction, or one comment
    /// character. Reports whether the run goes on, has reached the end of
    /// the program, or has hit a fatal error; on `Halted` and `Failed` the
    /// machine state is unchanged.
    pub fn step(&mut self) -> (r: StepStatus)
        requires
            old(self).wf(),
        ensures
            final(self).wf(),
            final(self).program@ == old(self).program@,
            final(self).wrapping == old(self).wrapping,
            final(self).size == old(self).size,
            match r {
                StepStatus::Running => step(
                    old(self).program@,
                    old(self).wrapping,
                    old(self).size as int,
                    old(self).st(),
                ) == StepOut::Next(final(self).st()),
                StepStatus::Halted => step(
                    old(self).program@,
                    old(self).wrapping,
                    old(self).size as int,
                    old(self).st(),
                ) == StepOut::Halt && final(self).st() == old(self).st(),
                StepStatus::Failed(e) => step(
                    old(self).program@,
                    old(self).wrapping,
                    old(self).size as int,
                    old(self).st(),
                ) == StepOut::Fail(e) && final(self).st() == old(self).st(),
            },
    {
        let ghost pre = self.st();
        if self.i >= self.program.len() {
            return StepStatus::Halted;
        }
        let c = self.program[self.i];
        if c == OP_RIGHT {
            if self.ptr == self.size - 1 {
                if self.wrapping {
                    self.ptr = 0;
                    self.i = self.i + 1;
                    proof {
                        assert(self.st() =~= (MState { i: pre.i + 1, ptr: 0, ..pre }));
                    }
                    return StepStatus::Running;
                } else {
                    return StepStatus::Failed(Fatal::PointerOverflow(self.i));
                }
            } else {
                self.ptr = self.ptr + 1;
                self.i = self.i + 1;
                proof {
                    assert(self.st() =~= (MState { i: pre.i + 1, ptr: pre.ptr + 1, ..pre }));
                }
                return StepStatus::Running;
            }
        } else if c == OP_LEFT {
            if self.ptr == 0 {
                if self.wrapping {
                    self.ptr = self.size - 1;
                    self.i = self.i + 1;
                    proof {
                        assert(self.st() =~= (MState {
                            i: pre.i + 1,
                            ptr: self.size - 1,
                            ..pre
                        }));
                    }
                    return StepStatus::Running;
                } else {
                    return StepStatus::Failed(Fatal::PointerUnderflow(self.i));
                }
            } else {
                self.ptr = self.ptr - 1;
                self.i = self.i + 1;
                proof {
                    assert(self.st() =~= (MState { i: pre.i + 1, ptr: pre.ptr - 1, ..pre }));
                }
                return StepStatus::Running;
            }
        } else if c == OP_INC {
            let v = self.tape[self.ptr];
            let w: u8 = if v == 255 {
                0
            } else {
                v + 1
            };
            self.tape.set(self.ptr, w);
            self.i = self.i + 1;
            proof {
                assert(self.st() =~= (MState {
                    i: pre.i + 1,
                    tape: pre.tape.update(pre.ptr, wrap_inc(pre.tape[pre.ptr])),
                    ..pre
                }));
            }
            return StepStatus::Running;
        } else if c == OP_DEC {
            let v = self.tape[self.ptr];
            let w: u8 = if v == 0 {
                255
            } else {
                v - 1
            };
            self.tape.set(self.ptr, w);
            self.i = self.i + 1;
            proof {
                assert(self.st() =~= (MState {
                    i: pre.i + 1,
                    tape: pre.tape.update(pre.ptr, wrap_dec(pre.tape[pre.ptr])),
                    ..pre
                }));
            }
            return StepStatus::Running;
        } else if c == OP_OUT {
            let v = self.tape[self.ptr];
            self.out.push(v);
            self.i = self.i + 1;
            proof {
                assert(self.st() =~= (MState {
                    i: pre.i + 1,
                    out: pre.out.push(pre.tape[pre.ptr]),
                    ..pre
                }));
            }
            return StepStatus::Running;
        } else if c == OP_IN {
            if self.inpos < self.input.len() {
                let b = self.input[self.inpos];
                self.tape.set(self.ptr, b);
                self.inpos = self.inpos + 1;
                self.i = self.i + 1;
                proof {
                    assert(pre.inq[0] == b);
                    assert(self.st().inq =~= pre.inq.drop_first());
                    assert(self.st() =~= (MState {
                        i: pre.i + 1,
                        tape: pre.tape.update(pre.ptr, pre.inq[0]),
                        inq: pre.inq.drop_first(),
                        ..pre
                    }));
                }
                return StepStatus::Running;
            } else {
                self.tape.set(self.ptr, 0);
                self.i = self.i + 1;
                proof {
                    assert(pre.inq.len() == 0);
                    assert(self.st() =~= (MState {
                        i: pre.i + 1,
                        tape: pre.tape.update(pre.ptr, 0u8),
                        ..pre
                    }));
                }
                return StepStatus::Running;
            }
        } else if c == OP_OPEN {
            if self.tape[self.ptr] == 0 {
                match scan_forward(&self.program, self.i + 1) {
                    Some(j) => {
                        self.i = j;
                        proof {
                            assert(self.st() =~= (MState { i: j as int, ..pre }));
                        }
                        return StepStatus::Running;
                    },
                    None => {
                        return StepStatus::Failed(Fatal::MalformedProgram(self.i));
                    },
                }
            } else {
                let m = self.i + 1;
                self.stack.push(m);
                self.i = self.i + 1;
                proof {
                    assert(self.st().stack =~= pre.stack.push(pre.i + 1));
                    assert(self.st() =~= (MState {
                        i: pre.i + 1,
                        stack: pre.stack.push(pre.i + 1),
                        ..pre
                    }));
                }
                return StepStatus::Running;
            }
        } else if c == OP_CLOSE {
            if self.tape[self.ptr] != 0 {
                if self.stack.len() == 0 {
                    return StepStatus::Failed(Fatal::MalformedProgram(self.i));
                } else {
                    let t = self.stack[self.stack.len() - 1];
                    self.i = t;
                    proof {
                        assert(pre.stack.last() == t as int);
                        assert(self.st() =~= (MState { i: pre.stack.last(), ..pre }));
                    }
                    return StepStatus::Running;
                }
            } else {
                if self.stack.len() > 0 {
                    self.stack.pop();
                    self.i = self.i + 1;
                    proof {
                        assert(self.st().stack =~= pre.stack.drop_last());
                        assert(self.st() =~= (MState {
                            i: pre.i + 1,
                            stack: pre.stack.drop_last(),
                            ..pre
                        }));
                    }
                    return StepStatus::Running;
                } else {
                    self.i = self.i + 1;
                    proof {
                        assert(self.st() =~= (MState { i: pre.i + 1, ..pre }));
                    }
                    return StepStatus::Running;
                }
            }
        } else {
            self.i = self.i + 1;
            proof {
                assert(!is_op(c));
                assert(self.st() =~= (MState { i: pre.i + 1, ..pre }));
            }
            return StepStatus::Running;
        }
    }

    /// Run the machine for at most `budget` further positions, stopping
    /// early when it halts or fails. `Running` means the budget ran out with
    /// the program still going; the caller may simply call again. The
    /// reported outcome and the final state are exactly those the semantics
    /// reaches from the state the engine started in.
    #[verifier::loop_isolation(false)]
    pub fn run_for(&mut self, budget: usize) -> (r: StepStatus)
        requires
            old(self).wf(),
        ensures
            final(self).wf(),
            final(self).program@ == old(self).program@,
            final(self).wrapping == old(self).wrapping,
            final(self).size == old(self).size,
            match r {
                StepStatus::Running => advance(
                    old(self).program@,
                    old(self).wrapping,
                    old(self).size as int,
                    old(self).st(),
                    budget as nat,
                ) == RunState::Running(final(self).st()),
                StepStatus::Halted => exists|n: nat|
                    n <= budget && advance(
                        old(self).program@,
                        old(self).wrapping,
                        old(self).size as int,
                        old(self).st(),
                        n,
                    ) == RunState::Halted(final(self).st()),
                StepStatus::Failed(e) => exists|n: nat|
                    n <= budget && advance(
                        old(self).program@,
                        old(self).wrapping,
                        old(self).size as int,
                        old(self).st(),
                        n,
                    ) == RunState::Failed(e, final(self).st()),
            },
    {
        let ghost s0 = self.st();
        let ghost prog0 = self.program@;
        let ghost wrapping0 = self.wrapping;
        let ghost size0 = self.size;
        let mut k: usize = 0;
        while k < budget
            invariant
                self.wf(),
                self.program@ == prog0,
                self.wrapping == wrapping0,
                self.size == size0,
                k <= budget,
                advance(prog0, wrapping0, size0 as int, s0, k as nat) == RunState::Running(
                    self.st(),
                ),
            decreases budget - k,
        {
            let status = self.step();
            k = k + 1;
            match status {
                StepStatus::Running => {},
                StepStatus::Halted => {
                    proof {
                        assert(advance(prog0, wrapping0, size0 as int, s0, k as nat)
                            == RunState::Halted(self.st()));
                    }
                    return StepStatus::Halted;
                },
                StepStatus::Failed(e) => {
                    proof {
                        assert(advance(prog0, wrapping0, size0 as int, s0, k as nat)
                            == RunState::Failed(e, self.st()));
                    }
                    return StepStatus::Failed(e);
                },
            }
        }
        StepStatus::Running
    }

    /// The output produced so far.
    pub fn output(&self) -> (r: &Vec<u8>)
        ensures
            r@ == self.st().out,
    {
        &self.out
    }

    /// The output, surrendering the machine.
    pub fn into_output(self) -> (r: Vec<u8>)
        ensures
            r@ == self.st().out,
    {
        self.out
    }

    /// The instruction pointer.
    pub fn position(&self) -> (r: usize)
        ensures
            r as int == self.st().i,
    {
        self.i
    }

    /// The data pointer.
    pub fn pointer(&self) -> (r: usize)
        ensures
            r as int == self.st().ptr,
    {
        self.ptr
    }

    /// The memory tape.
    pub fn tape_cells(&self) -> (r: &Vec<u8>)
        ensures
            r@ == self.st().tape,
    {
        &self.tape
    }

    /// The value of the cell under the data pointer.
    pub fn cell(&self) -> (r: u8)
        requires
            self.wf(),
        ensures
            r == self.st().tape[self.st().ptr],
    {
        self.tape[self.ptr]
    }

    /// Whether the instruction pointer has reached the end of the program.
    pub fn finished(&self) -> (r: bool)
        requires
            self.wf(),
        ensures
            r == (self.st().i == self.program@.len()),
    {
        self.i >= self.program.len()
    }

    /// How many input bytes are still pending.
    pub fn input_remaining(&self) -> (r: usize)
        requires
            self.wf(),
        ensures
            r as int == self.st().inq.len(),
    {
        self.input.len() - self.inpos
    }

    /// Append a byte to the pending input; everything else is untouched.
    pub fn push_input(&mut self, b: u8)
        requires
            old(self).wf(),
        ensures
            final(self).wf(),
            final(self).program@ == old(self).program@,
            final(self).wrapping == old(self).wrapping,
            final(self).size == old(self).size,
            final(self).st() == (MState { inq: old(self).st().inq.push(b), ..old(self).st() }),
    {
        let ghost pre = self.st();
        self.input.push(b);
        proof {
            assert(self.st().inq =~= pre.inq.push(b));
            assert(self.st() =~= (MState { inq: pre.inq.push(b), ..pre }));
        }
    }
}

/// Whether `c` is one of the eight operator characters.
pub fn is_operator(c: u8) -> (r: bool)
    ensures
        r == is_op(c),
{
    c == OP_RIGHT || c == OP_LEFT || c == OP_INC || c == OP_DEC || c == OP_OUT || c == OP_IN
        || c == OP_OPEN || c == OP_CLOSE
}

/// Scan for the bracket that closes the loop opened just before `start`:
/// the executable form of `match_fwd(program, start, 1)`.
#[verifier::loop_isolation(false)]
fn scan_forward(program: &Vec<u8>, start: usize) -> (r: Option<usize>)
    requires
        1 <= start <= program@.len(),
    ensures
        match r {
            Some(j) => match_fwd(program@, start as int, 1) == Some(j as int) && start < j
                <= program@.len(),
            None => match_fwd(program@, start as int, 1) is None,
        },
{
    let mut j: usize = start;
    let mut depth: usize = 1;
    loop
        invariant
            start <= j <= program@.len(),
            1 <= depth,
            depth <= 1 + j - start,
            match_fwd(program@, start as int, 1) == match_fwd(program@, j as int, depth as int),
        decreases program@.len() - j,
    {
        if j >= program.len() {
            return None;
        }
        let c = program[j];
        let d: usize = if c == OP_OPEN {
            depth + 1
        } else if c == OP_CLOSE {
            depth - 1
        } else {
            depth
        };
        if d == 0 {
            return Some(j + 1);
        }
        j = j + 1;
        depth = d;
    }
}

/// Run a program: build the machine, drive it for at most `budget`
/// positions, and hand back the output bytes together with the outcome. The
/// pair is exactly what the semantics reaches from the initial state:
/// `Halted` and `Failed` are final; `Running` means the budget ran out
/// first.
pub fn interpret(program: Vec<u8>, input: Vec<u8>, wrapping: bool, size: usize, budget: usize) -> (r: (
    Vec<u8>,
    StepStatus,
))
    requires
        size >= 1,
    ensures
        r.1 == StepStatus::Halted ==> halts_with(program@, wrapping, size as int, input@, r.0@),
        r.1 matches StepStatus::Failed(e) ==> fails_with(
            program@,
            wrapping,
            size as int,
            input@,
            e,
            r.0@,
        ),
        r.1 == StepStatus::Running ==> exists|s: MState|
            advance(program@, wrapping, size as int, init_state(size as int, input@), budget as nat)
                == RunState::Running(s) && s.out == r.0@,
{
    let ghost prog0 = program@;
    let ghost input0 = input@;
    let mut engine = Engine::new(program, input, wrapping, size);
    let outcome = engine.run_for(budget);
    proof {
        let s1 = engine.st();
        match outcome {
            StepStatus::Running => {},
            StepStatus::Halted => {
                let n = choose|n: nat|
                    n <= budget && advance(
                        prog0,
                        wrapping,
                        size as int,
                        init_state(size as int, input0),
                        n,
                    ) == RunState::Halted(s1);
                assert(advance(prog0, wrapping, size as int, init_state(size as int, input0), n)
                    == RunState::Halted(s1));
            },
            StepStatus::Failed(e) => {
                let n = choose|n: nat|
                    n <= budget && advance(
                        prog0,
                        wrapping,
                        size as int,
                        init_state(size as int, input0),
                        n,
                    ) == RunState::Failed(e, s1);
                assert(advance(prog0, wrapping, size as int, init_state(size as int, input0), n)
                    == RunState::Failed(e, s1));
            },
        }
    }
    let out = engine.into_output();
    (out, outcome)
}

} // verus!
