//! General properties of the semantics, stated and proved once and for all:
//! comment-only programs do nothing, cell arithmetic is cyclic with period
//! 256, pointer motion with wrapping is cyclic with period `size` and fails
//! at the edges without it, and the loop brackets branch exactly on the
//! current cell.

use crate::semantics::{
    advance, fails_with, halts_with, init_state, is_op, match_fwd, step, Fatal, MState, RunState,
    StepOut, OP_CLOSE, OP_DEC, OP_INC, OP_LEFT, OP_OPEN, OP_RIGHT,
};
use vstd::prelude::*;

verus! {

/// A program with no operator characters never fails, writes nothing, and
/// leaves tape, pointer, stack and input exactly as they started: every
/// state it reaches differs from the initial state at most in the
/// instruction pointer.
pub proof fn lemma_comments_only(prog: Seq<u8>, wrapping: bool, size: int, input: Seq<u8>, n: nat)
    requires
        forall|j: int| 0 <= j < prog.len() ==> !is_op(#[trigger] prog[j]),
    ensures
        match advance(prog, wrapping, size, init_state(size, input), n) {
            RunState::Running(s) => s == (MState { i: s.i, ..init_state(size, input) }),
            RunState::Halted(s) => s == (MState { i: s.i, ..init_state(size, input) }),
            RunState::Failed(e, s) => false,
        },
    decreases n,
{
    if n > 0 {
        lemma_comments_only(prog, wrapping, size, input, (n - 1) as nat);
    }
}

/// A program with no operator characters that halts has produced no output.
pub proof fn lemma_comments_only_output(
    prog: Seq<u8>,
    wrapping: bool,
    size: int,
    input: Seq<u8>,
    out: Seq<u8>,
)
    requires
        forall|j: int| 0 <= j < prog.len() ==> !is_op(#[trigger] prog[j]),
        halts_with(prog, wrapping, size, input, out),
    ensures
        out == Seq::<u8>::empty(),
{
    let (n, s) = choose|n: nat, s: MState|
        advance(prog, wrapping, size, init_state(size, input), n) == RunState::Halted(s)
            && s.out == out;
    lemma_comments_only(prog, wrapping, size, input, n);
}

/// The cell value after `n` increments of `v`: addition modulo 256, written
/// with a single conditional since `n` never exceeds 256 here.
pub open spec fn inc_n(v: u8, n: nat) -> u8
    recommends
        n <= 256,
{
    if v + n < 256 {
        (v + n) as u8
    } else {
        (v + n - 256) as u8
    }
}

/// The cell value after `n` decrements of `v`.
pub open spec fn dec_n(v: u8, n: nat) -> u8
    recommends
        n <= 256,
{
    if v >= n {
        (v - n) as u8
    } else {
        (v + 256 - n) as u8
    }
}

/// Running `n <= 256` consecutive `+` instructions adds `n` to the current
/// cell modulo 256 and moves nothing else.
pub proof fn lemma_inc_run(prog: Seq<u8>, wrapping: bool, size: int, s: MState, n: nat)
    requires
        0 <= s.ptr < s.tape.len(),
        0 <= s.i,
        s.i + n <= prog.len(),
        forall|j: int| s.i <= j < s.i + n ==> #[trigger] prog[j] == OP_INC,
        n <= 256,
    ensures
        advance(prog, wrapping, size, s, n) == RunState::Running(
            (MState { i: s.i + n, tape: s.tape.update(s.ptr, inc_n(s.tape[s.ptr], n)), ..s }),
        ),
    decreases n,
{
    if n == 0 {
        assert(s.tape.update(s.ptr, inc_n(s.tape[s.ptr], 0)) =~= s.tape);
        assert((MState { i: s.i + 0, tape: s.tape.update(s.ptr, inc_n(s.tape[s.ptr], 0)), ..s })
            =~= s);
    } else {
        lemma_inc_run(prog, wrapping, size, s, (n - 1) as nat);
        let prev = MState {
            i: s.i + (n - 1),
            tape: s.tape.update(s.ptr, inc_n(s.tape[s.ptr], (n - 1) as nat)),
            ..s
        };
        assert(prog[prev.i] == OP_INC);
        assert(prev.tape[prev.ptr] == inc_n(s.tape[s.ptr], (n - 1) as nat));
        assert(prev.tape.update(prev.ptr, inc_n(s.tape[s.ptr], n)) =~= s.tape.update(
            s.ptr,
            inc_n(s.tape[s.ptr], n),
        ));
        assert(step(prog, wrapping, size, prev) == StepOut::Next(
            (MState { i: s.i + n, tape: s.tape.update(s.ptr, inc_n(s.tape[s.ptr], n)), ..s }),
        ));
    }
}

/// Running `n <= 256` consecutive `-` instructions subtracts `n` from the
/// current cell modulo 256 and moves nothing else.
pub proof fn lemma_dec_run(prog: Seq<u8>, wrapping: bool, size: int, s: MState, n: nat)
    requires
        0 <= s.ptr < s.tape.len(),
        0 <= s.i,
        s.i + n <= prog.len(),
        forall|j: int| s.i <= j < s.i + n ==> #[trigger] prog[j] == OP_DEC,
        n <= 256,
    ensures
        advance(prog, wrapping, size, s, n) == RunState::Running(
            (MState { i: s.i + n, tape: s.tape.update(s.ptr, dec_n(s.tape[s.ptr], n)), ..s }),
        ),
    decreases n,
{
    if n == 0 {
        assert(s.tape.update(s.ptr, dec_n(s.tape[s.ptr], 0)) =~= s.tape);
        assert((MState { i: s.i + 0, tape: s.tape.update(s.ptr, dec_n(s.tape[s.ptr], 0)), ..s })
            =~= s);
    } else {
        lemma_dec_run(prog, wrapping, size, s, (n - 1) as nat);
        let prev = MState {
            i: s.i + (n - 1),
            tape: s.tape.update(s.ptr, dec_n(s.tape[s.ptr], (n - 1) as nat)),
            ..s
        };
        assert(prog[prev.i] == OP_DEC);
        assert(prev.tape[prev.ptr] == dec_n(s.tape[s.ptr], (n - 1) as nat));
        assert(prev.tape.update(prev.ptr, dec_n(s.tape[s.ptr], n)) =~= s.tape.update(
            s.ptr,
            dec_n(s.tape[s.ptr], n),
        ));
        assert(step(prog, wrapping, size, prev) == StepOut::Next(
            (MState { i: s.i + n, tape: s.tape.update(s.ptr, dec_n(s.tape[s.ptr], n)), ..s }),
        ));
    }
}

/// 256 `+` instructions return the cell to its original value: the whole
/// state but the instruction pointer is as it was.
pub proof fn lemma_plus_256_identity(prog: Seq<u8>, wrapping: bool, size: int, s: MState)
    requires
        0 <= s.ptr < s.tape.len(),
        0 <= s.i,
        s.i + 256 <= prog.len(),
        forall|j: int| s.i <= j < s.i + 256 ==> #[trigger] prog[j] == OP_INC,
    ensures
        advance(prog, wrapping, size, s, 256) == RunState::Running((MState { i: s.i + 256, ..s })),
{
    lemma_inc_run(prog, wrapping, size, s, 256);
    assert(inc_n(s.tape[s.ptr], 256) == s.tape[s.ptr]);
    assert(s.tape.update(s.ptr, s.tape[s.ptr]) =~= s.tape);
    assert((MState { i: s.i + 256, tape: s.tape.update(s.ptr, inc_n(s.tape[s.ptr], 256)), ..s })
        =~= (MState { i: s.i + 256, ..s }));
}

/// 256 `-` instructions return the cell to its original value.
pub proof fn lemma_minus_256_identity(prog: Seq<u8>, wrapping: bool, size: int, s: MState)
    requires
        0 <= s.ptr < s.tape.len(),
        0 <= s.i,
        s.i + 256 <= prog.len(),
        forall|j: int| s.i <= j < s.i + 256 ==> #[trigger] prog[j] == OP_DEC,
    ensures
        advance(prog, wrapping, size, s, 256) == RunState::Running((MState { i: s.i + 256, ..s })),
{
    lemma_dec_run(prog, wrapping, size, s, 256);
    assert(dec_n(s.tape[s.ptr], 256) == s.tape[s.ptr]);
    assert(s.tape.update(s.ptr, s.tape[s.ptr]) =~= s.tape);
    assert((MState { i: s.i + 256, tape: s.tape.update(s.ptr, dec_n(s.tape[s.ptr], 256)), ..s })
        =~= (MState { i: s.i + 256, ..s }));
}

/// Running `n <= size` consecutive `>` instructions with wrapping enabled
/// moves the pointer `n` cells to the right modulo the tape size.
pub proof fn lemma_right_run(prog: Seq<u8>, size: int, s: MState, n: nat)
    requires
        size >= 1,
        0 <= s.ptr < size,
        0 <= s.i,
        s.i + n <= prog.len(),
        forall|j: int| s.i <= j < s.i + n ==> #[trigger] prog[j] == OP_RIGHT,
        n <= size,
    ensures
        advance(prog, true, size, s, n) == RunState::Running(
            (MState {
                i: s.i + n,
                ptr: if s.ptr + n < size {
                    s.ptr + n
                } else {
                    s.ptr + n - size
                },
                ..s
            }),
        ),
    decreases n,
{
    if n == 0 {
        assert((MState { i: s.i + 0, ptr: s.ptr, ..s }) =~= s);
    } else {
        lemma_right_run(prog, size, s, (n - 1) as nat);
        let prev = MState {
            i: s.i + (n - 1),
            ptr: if s.ptr + (n - 1) < size {
                s.ptr + (n - 1)
            } else {
                s.ptr + (n - 1) - size
            },
            ..s
        };
        assert(prog[prev.i] == OP_RIGHT);
        assert(step(prog, true, size, prev) == StepOut::Next(
            (MState {
                i: s.i + n,
                ptr: if s.ptr + n < size {
                    s.ptr + n
                } else {
                    s.ptr + n - size
                },
                ..s
            }),
        ));
    }
}

/// With wrapping enabled, `size` consecutive `>` instructions return the
/// pointer to where it started.
pub proof fn lemma_right_full_cycle(prog: Seq<u8>, size: int, s: MState)
    requires
        size >= 1,
        0 <= s.ptr < size,
        0 <= s.i,
        s.i + size <= prog.len(),
        forall|j: int| s.i <= j < s.i + size ==> #[trigger] prog[j] == OP_RIGHT,
    ensures
        advance(prog, true, size, s, size as nat) == RunState::Running(
            (MState { i: s.i + size, ..s }),
        ),
{
    lemma_right_run(prog, size, s, size as nat);
    assert((MState {
        i: s.i + size,
        ptr: if s.ptr + size < size {
            s.ptr + size
        } else {
            s.ptr + size - size
        },
        ..s
    }) =~= (MState { i: s.i + size, ..s }));
}

/// With wrapping disabled, `>` at the last cell fails at once with
/// `PointerOverflow` at the current position.
pub proof fn lemma_overflow_at_edge(prog: Seq<u8>, size: int, s: MState)
    requires
        0 <= s.i < prog.len(),
        prog[s.i] == OP_RIGHT,
        s.ptr == size - 1,
    ensures
        step(prog, false, size, s) == StepOut::Fail(Fatal::PointerOverflow(s.i as usize)),
{
}

/// With wrapping disabled, `<` at cell 0 fails at once with
/// `PointerUnderflow` at the current position.
pub proof fn lemma_underflow_at_edge(prog: Seq<u8>, size: int, s: MState)
    requires
        0 <= s.i < prog.len(),
        prog[s.i] == OP_LEFT,
        s.ptr == 0,
    ensures
        step(prog, false, size, s) == StepOut::Fail(Fatal::PointerUnderflow(s.i as usize)),
{
}

/// `[` with a zero current cell executes none of the loop body: control
/// jumps straight past the matching `]`, and nothing else changes — or the
/// run fails as malformed when no matching `]` exists.
pub proof fn lemma_loop_skip(prog: Seq<u8>, wrapping: bool, size: int, s: MState)
    requires
        0 <= s.i < prog.len(),
        prog[s.i] == OP_OPEN,
        0 <= s.ptr < s.tape.len(),
        s.tape[s.ptr] == 0,
    ensures
        match match_fwd(prog, s.i + 1, 1) {
            Some(j) => step(prog, wrapping, size, s) == StepOut::Next((MState { i: j, ..s })),
            None => step(prog, wrapping, size, s) == StepOut::Fail(
                Fatal::MalformedProgram(s.i as usize),
            ),
        },
{
}

/// `[` with a nonzero current cell enters the loop body, remembering the
/// position after the `[` so that the matching `]` can return there.
pub proof fn lemma_loop_enter(prog: Seq<u8>, wrapping: bool, size: int, s: MState)
    requires
        0 <= s.i < prog.len(),
        prog[s.i] == OP_OPEN,
        0 <= s.ptr < s.tape.len(),
        s.tape[s.ptr] != 0,
    ensures
        step(prog, wrapping, size, s) == StepOut::Next(
            (MState { i: s.i + 1, stack: s.stack.push(s.i + 1), ..s }),
        ),
{
}

/// `]` re-tests the current cell: while it is nonzero, control returns to
/// the instruction after the most recent open `[` and the body runs again.
pub proof fn lemma_loop_repeat(prog: Seq<u8>, wrapping: bool, size: int, s: MState)
    requires
        0 <= s.i < prog.len(),
        prog[s.i] == OP_CLOSE,
        0 <= s.ptr < s.tape.len(),
        s.tape[s.ptr] != 0,
        s.stack.len() > 0,
    ensures
        step(prog, wrapping, size, s) == StepOut::Next((MState { i: s.stack.last(), ..s })),
{
}

/// `]` with a zero current cell leaves the loop: the return position is
/// discarded and control falls through.
pub proof fn lemma_loop_exit(prog: Seq<u8>, wrapping: bool, size: int, s: MState)
    requires
        0 <= s.i < prog.len(),
        prog[s.i] == OP_CLOSE,
        0 <= s.ptr < s.tape.len(),
        s.tape[s.ptr] == 0,
        s.stack.len() > 0,
    ensures
        step(prog, wrapping, size, s) == StepOut::Next(
            (MState { i: s.i + 1, stack: s.stack.drop_last(), ..s }),
        ),
{
}

/// Once a run has halted or failed, more fuel changes nothing: the outcome
/// at any larger fuel is the same.
pub proof fn lemma_outcome_stable(
    prog: Seq<u8>,
    wrapping: bool,
    size: int,
    s0: MState,
    n: nat,
    m: nat,
)
    requires
        n <= m,
        !(advance(prog, wrapping, size, s0, n) matches RunState::Running(_)),
    ensures
        advance(prog, wrapping, size, s0, m) == advance(prog, wrapping, size, s0, n),
    decreases m,
{
    if m > n {
        lemma_outcome_stable(prog, wrapping, size, s0, n, (m - 1) as nat);
    }
}

/// The machine is deterministic: whatever two fuels each carry a run past
/// its end show the same outcome. A program cannot both halt and fail, nor
/// produce two different outputs.
pub proof fn lemma_outcome_unique(
    prog: Seq<u8>,
    wrapping: bool,
    size: int,
    s0: MState,
    n1: nat,
    n2: nat,
)
    requires
        !(advance(prog, wrapping, size, s0, n1) matches RunState::Running(_)),
        !(advance(prog, wrapping, size, s0, n2) matches RunState::Running(_)),
    ensures
        advance(prog, wrapping, size, s0, n1) == advance(prog, wrapping, size, s0, n2),
{
    if n1 <= n2 {
        lemma_outcome_stable(prog, wrapping, size, s0, n1, n2);
    } else {
        lemma_outcome_stable(prog, wrapping, size, s0, n2, n1);
    }
}

/// A program halts with one output only: two halting observations agree,
/// and a halting run cannot also fail.
pub proof fn lemma_run_outcome_unique(
    prog: Seq<u8>,
    wrapping: bool,
    size: int,
    input: Seq<u8>,
    out1: Seq<u8>,
    out2: Seq<u8>,
)
    requires
        halts_with(prog, wrapping, size, input, out1),
    ensures
        halts_with(prog, wrapping, size, input, out2) ==> out1 == out2,
        forall|e: Fatal| !fails_with(prog, wrapping, size, input, e, out2),
{
    let s0 = init_state(size, input);
    let (n1, s1) = choose|n: nat, s: MState|
        advance(prog, wrapping, size, s0, n) == RunState::Halted(s) && s.out == out1;
    if halts_with(prog, wrapping, size, input, out2) {
        let (n2, s2) = choose|n: nat, s: MState|
            advance(prog, wrapping, size, s0, n) == RunState::Halted(s) && s.out == out2;
        lemma_outcome_unique(prog, wrapping, size, s0, n1, n2);
    }
    assert forall|e: Fatal| !fails_with(prog, wrapping, size, input, e, out2) by {
        if fails_with(prog, wrapping, size, input, e, out2) {
            let (n2, s2) = choose|n: nat, s: MState|
                advance(prog, wrapping, size, s0, n) == RunState::Failed(e, s) && s.out == out2;
            lemma_outcome_unique(prog, wrapping, size, s0, n1, n2);
        }
    }
}

/// Runs compose: `a` steps to an intermediate state, then `b` more, is
/// `a + b` steps from the start.
pub proof fn lemma_advance_add(
    prog: Seq<u8>,
    wrapping: bool,
    size: int,
    s0: MState,
    s1: MState,
    a: nat,
    b: nat,
)
    requires
        advance(prog, wrapping, size, s0, a) == RunState::Running(s1),
    ensures
        advance(prog, wrapping, size, s0, a + b) == advance(prog, wrapping, size, s1, b),
    decreases b,
{
    if b > 0 {
        lemma_advance_add(prog, wrapping, size, s0, s1, a, (b - 1) as nat);
    }
}

/// The body of a clearing loop, `-]` entered with the return position on the
/// stack, decrements and re-tests until the cell reaches zero, then leaves
/// the loop with the stack as it was before entry.
proof fn lemma_clear_loop_body(prog: Seq<u8>, wrapping: bool, size: int, k: int, t: MState)
    requires
        0 <= k,
        k + 3 <= prog.len(),
        prog[k + 1] == OP_DEC,
        prog[k + 2] == OP_CLOSE,
        t.i == k + 1,
        0 <= t.ptr < t.tape.len(),
        t.tape[t.ptr] != 0,
        t.stack.len() >= 1,
        t.stack.last() == k + 1,
    ensures
        exists|n: nat|
            advance(prog, wrapping, size, t, n) == RunState::Running(
                (MState {
                    i: k + 3,
                    tape: t.tape.update(t.ptr, 0u8),
                    stack: t.stack.drop_last(),
                    ..t
                }),
            ),
    decreases t.tape[t.ptr],
{
    reveal_with_fuel(advance, 3);
    let v = t.tape[t.ptr];
    let t2 = MState { i: k + 2, tape: t.tape.update(t.ptr, (v - 1) as u8), ..t };
    assert(step(prog, wrapping, size, t) == StepOut::Next(t2));
    assert(advance(prog, wrapping, size, t, 1) == RunState::Running(t2));
    if v == 1 {
        let t3 = MState { i: k + 3, stack: t.stack.drop_last(), ..t2 };
        assert(step(prog, wrapping, size, t2) == StepOut::Next(t3));
        assert(advance(prog, wrapping, size, t, 2) == RunState::Running(t3));
        assert(t3 =~= (MState {
            i: k + 3,
            tape: t.tape.update(t.ptr, 0u8),
            stack: t.stack.drop_last(),
            ..t
        }));
    } else {
        let t3 = MState { i: k + 1, ..t2 };
        assert(step(prog, wrapping, size, t2) == StepOut::Next(t3));
        assert(advance(prog, wrapping, size, t, 2) == RunState::Running(t3));
        assert(t3.tape[t3.ptr] == v - 1);
        lemma_clear_loop_body(prog, wrapping, size, k, t3);
        let target3 = MState {
            i: k + 3,
            tape: t3.tape.update(t3.ptr, 0u8),
            stack: t3.stack.drop_last(),
            ..t3
        };
        let m = choose|m: nat|
            advance(prog, wrapping, size, t3, m) == RunState::Running(target3);
        lemma_advance_add(prog, wrapping, size, t, t3, 2, m);
        assert(advance(prog, wrapping, size, t, 2 + m) == RunState::Running(target3));
        assert(target3 =~= (MState {
            i: k + 3,
            tape: t.tape.update(t.ptr, 0u8),
            stack: t.stack.drop_last(),
            ..t
        }));
    }
}

/// The clearing loop `[-]` always terminates: whatever the current cell
/// holds, the body runs once per unit of its value, the cell is re-tested at
/// each `]`, and control leaves the loop with the cell at zero and all else
/// as it was.
pub proof fn lemma_clear_loop(prog: Seq<u8>, wrapping: bool, size: int, s: MState)
    requires
        0 <= s.i,
        s.i + 3 <= prog.len(),
        prog[s.i] == OP_OPEN,
        prog[s.i + 1] == OP_DEC,
        prog[s.i + 2] == OP_CLOSE,
        0 <= s.ptr < s.tape.len(),
    ensures
        exists|n: nat|
            advance(prog, wrapping, size, s, n) == RunState::Running(
                (MState { i: s.i + 3, tape: s.tape.update(s.ptr, 0u8), ..s }),
            ),
{
    reveal_with_fuel(advance, 2);
    if s.tape[s.ptr] == 0 {
        assert(match_fwd(prog, s.i + 2, 1) == Some(s.i + 3));
        assert(match_fwd(prog, s.i + 1, 1) == Some(s.i + 3));
        let t = MState { i: s.i + 3, ..s };
        assert(step(prog, wrapping, size, s) == StepOut::Next(t));
        assert(advance(prog, wrapping, size, s, 1) == RunState::Running(t));
        assert(t =~= (MState { i: s.i + 3, tape: s.tape.update(s.ptr, 0u8), ..s }));
    } else {
        let t1 = MState { i: s.i + 1, stack: s.stack.push(s.i + 1), ..s };
        assert(step(prog, wrapping, size, s) == StepOut::Next(t1));
        assert(advance(prog, wrapping, size, s, 1) == RunState::Running(t1));
        lemma_clear_loop_body(prog, wrapping, size, s.i, t1);
        let target = MState {
            i: s.i + 3,
            tape: t1.tape.update(t1.ptr, 0u8),
            stack: t1.stack.drop_last(),
            ..t1
        };
        let m = choose|m: nat| advance(prog, wrapping, size, t1, m) == RunState::Running(target);
        lemma_advance_add(prog, wrapping, size, s, t1, 1, m);
        assert(advance(prog, wrapping, size, s, 1 + m) == RunState::Running(target));
        assert(target =~= (MState { i: s.i + 3, tape: s.tape.update(s.ptr, 0u8), ..s }));
    }
}

} // verus!
