//! The mathematical model of the machine: its state, the transition taken by
//! one fetch-decode-execute step, and the laws that hold of it.

use vstd::prelude::*;

use crate::error::MachineError;
use crate::operator::Operator;
use crate::plate::{
    decode_spec, field_b, field_c, lemma_fields_in_range, opcode_of, wrap_add, wrap_mul,
};

verus! {

/// The machine's state: eight registers, the segment table (segment 0 is the
/// running program), the program counter, and the pool of abandoned handles.
#[verifier::ext_equal]
pub struct State {
    /// The eight general-purpose registers.
    pub regs: Seq<u32>,
    /// The segment table; each entry is one segment's cells.
    pub mem: Seq<Seq<u32>>,
    /// Index into segment 0 of the next word to fetch.
    pub pc: u32,
    /// Previously abandoned segment handles, reused last-in first-out.
    pub pool: Seq<u32>,
}

/// A well-formed state: exactly eight registers, a segment table that holds
/// segment 0 and fits 32-bit handles, every segment short enough for 32-bit
/// offsets, and a pool that names only allocated, non-zero handles.
pub open spec fn state_wf(s: State) -> bool {
    &&& s.regs.len() == 8
    &&& 1 <= s.mem.len() <= 0x1_0000_0000
    &&& forall|i: int| 0 <= i < s.mem.len() ==> (#[trigger] s.mem[i]).len() <= 0xFFFF_FFFF
    &&& forall|i: int| 0 <= i < s.pool.len() ==> 0 < #[trigger] s.pool[i] < s.mem.len()
}

/// A zero-filled run of cells, as a fresh segment starts.
pub open spec fn zero_words(n: nat) -> Seq<u32> {
    Seq::new(n, |i: int| 0u32)
}

/// What one step of the machine does: move to a new state, move and emit an
/// output byte, stop, or fail.
#[verifier::ext_equal]
pub enum StepOutcome {
    /// Execution continues in the given state.
    Next(State),
    /// Execution continues in the given state, emitting one output byte.
    Emit(State, u8),
    /// The machine halted; its state does not change.
    Stop,
    /// A fatal fault; the machine's state does not change.
    Fail(MachineError),
}

/// The given state with the program counter advanced by one word.
pub open spec fn advance(s: State) -> State {
    State { regs: s.regs, mem: s.mem, pc: (s.pc + 1) as u32, pool: s.pool }
}

/// The effect of one decoded instruction on a state. `input` is the byte the
/// external source offers (`None` when it is exhausted); only the Input
/// instruction reads it, and on `None` it stores the all-ones end-of-input
/// sentinel rather than faulting.
///
/// Abandoning segment 0 or a handle that was never allocated is a fault;
/// abandoning a handle twice is permitted, and merely lets it be reused
/// twice, each time with freshly zeroed contents. An Allocation that finds
/// the pool empty and the segment table already holding 2^32 entries faults,
/// since no further handle fits a 32-bit register.
pub open spec fn apply_op(pre: State, op: Operator, input: Option<u8>) -> StepOutcome {
    match op {
        Operator::ConditionalMove(d) => StepOutcome::Next(
            advance(
                State {
                    regs: if pre.regs[d.c as int] != 0 {
                        pre.regs.update(d.a as int, pre.regs[d.b as int])
                    } else {
                        pre.regs
                    },
                    mem: pre.mem,
                    pc: pre.pc,
                    pool: pre.pool,
                },
            ),
        ),
        Operator::ArrayIndex(d) => {
            let handle = pre.regs[d.b as int];
            let offset = pre.regs[d.c as int];
            if handle >= pre.mem.len() {
                StepOutcome::Fail(MachineError::OutOfBounds { addr: handle })
            } else if offset >= pre.mem[handle as int].len() {
                StepOutcome::Fail(MachineError::OutOfBounds { addr: offset })
            } else {
                StepOutcome::Next(
                    advance(
                        State {
                            regs: pre.regs.update(
                                d.a as int,
                                pre.mem[handle as int][offset as int],
                            ),
                            mem: pre.mem,
                            pc: pre.pc,
                            pool: pre.pool,
                        },
                    ),
                )
            }
        },
        Operator::ArrayAmendment(d) => {
            let handle = pre.regs[d.a as int];
            let offset = pre.regs[d.b as int];
            if handle >= pre.mem.len() {
                StepOutcome::Fail(MachineError::OutOfBounds { addr: handle })
            } else if offset >= pre.mem[handle as int].len() {
                StepOutcome::Fail(MachineError::OutOfBounds { addr: offset })
            } else {
                StepOutcome::Next(
                    advance(
                        State {
                            regs: pre.regs,
                            mem: pre.mem.update(
                                handle as int,
                                pre.mem[handle as int].update(
                                    offset as int,
                                    pre.regs[d.c as int],
                                ),
                            ),
                            pc: pre.pc,
                            pool: pre.pool,
                        },
                    ),
                )
            }
        },
        Operator::Addition(d) => StepOutcome::Next(
            advance(
                State {
                    regs: pre.regs.update(
                        d.a as int,
                        wrap_add(pre.regs[d.b as int], pre.regs[d.c as int]),
                    ),
                    mem: pre.mem,
                    pc: pre.pc,
                    pool: pre.pool,
                },
            ),
        ),
        Operator::Multiplication(d) => StepOutcome::Next(
            advance(
                State {
                    regs: pre.regs.update(
                        d.a as int,
                        wrap_mul(pre.regs[d.b as int], pre.regs[d.c as int]),
                    ),
                    mem: pre.mem,
                    pc: pre.pc,
                    pool: pre.pool,
                },
            ),
        ),
        Operator::Division(d) => {
            if pre.regs[d.c as int] == 0 {
                StepOutcome::Fail(MachineError::DivideByZero)
            } else {
                StepOutcome::Next(
                    advance(
                        State {
                            regs: pre.regs.update(
                                d.a as int,
                                (pre.regs[d.b as int] / pre.regs[d.c as int]) as u32,
                            ),
                            mem: pre.mem,
                            pc: pre.pc,
                            pool: pre.pool,
                        },
                    ),
                )
            }
        },
        Operator::NotAnd(d) => StepOutcome::Next(
            advance(
                State {
                    regs: pre.regs.update(
                        d.a as int,
                        !(pre.regs[d.b as int] & pre.regs[d.c as int]),
                    ),
                    mem: pre.mem,
                    pc: pre.pc,
                    pool: pre.pool,
                },
            ),
        ),
        Operator::Halt => StepOutcome::Stop,
        Operator::Allocation(d) => {
            let size = pre.regs[d.c as int];
            if pre.pool.len() > 0 {
                let handle = pre.pool.last();
                StepOutcome::Next(
                    advance(
                        State {
                            regs: pre.regs.update(d.b as int, handle),
                            mem: pre.mem.update(handle as int, zero_words(size as nat)),
                            pc: pre.pc,
                            pool: pre.pool.drop_last(),
                        },
                    ),
                )
            } else if pre.mem.len() > 0xFFFF_FFFF {
                StepOutcome::Fail(MachineError::OutOfBounds { addr: 0xFFFF_FFFF })
            } else {
                let handle = pre.mem.len() as u32;
                StepOutcome::Next(
                    advance(
                        State {
                            regs: pre.regs.update(d.b as int, handle),
                            mem: pre.mem.push(zero_words(size as nat)),
                            pc: pre.pc,
                            pool: pre.pool,
                        },
                    ),
                )
            }
        },
        Operator::Abandonment(d) => {
            let handle = pre.regs[d.c as int];
            if handle == 0 || handle >= pre.mem.len() {
                StepOutcome::Fail(MachineError::OutOfBounds { addr: handle })
            } else {
                StepOutcome::Next(
                    advance(
                        State {
                            regs: pre.regs,
                            mem: pre.mem,
                            pc: pre.pc,
                            pool: pre.pool.push(handle),
                        },
                    ),
                )
            }
        },
        Operator::Output(d) => StepOutcome::Emit(advance(pre), (pre.regs[d.c as int] % 256) as u8),
        Operator::Input(d) => {
            let value: u32 = match input {
                Option::Some(b) => b as u32,
                Option::None => 0xFFFF_FFFF,
            };
            StepOutcome::Next(
                advance(
                    State {
                        regs: pre.regs.update(d.c as int, value),
                        mem: pre.mem,
                        pc: pre.pc,
                        pool: pre.pool,
                    },
                ),
            )
        },
        Operator::LoadProgram(d) => {
            let source = pre.regs[d.b as int];
            if source != 0 && source >= pre.mem.len() {
                StepOutcome::Fail(MachineError::OutOfBounds { addr: source })
            } else {
                StepOutcome::Next(
                    State {
                        regs: pre.regs,
                        mem: if source != 0 {
                            pre.mem.update(0, pre.mem[source as int])
                        } else {
                            pre.mem
                        },
                        pc: pre.regs[d.c as int],
                        pool: pre.pool,
                    },
                )
            }
        },
        Operator::Orthography(o) => StepOutcome::Next(
            advance(
                State {
                    regs: pre.regs.update(o.a as int, o.data),
                    mem: pre.mem,
                    pc: pre.pc,
                    pool: pre.pool,
                },
            ),
        ),
    }
}

/// One full machine step: fetch the word at the program counter from segment
/// 0, decode it, and apply it.
pub open spec fn machine_step(pre: State, input: Option<u8>) -> StepOutcome {
    if pre.pc >= pre.mem[0].len() {
        StepOutcome::Fail(MachineError::OutOfBounds { addr: pre.pc })
    } else {
        let p = pre.mem[0][pre.pc as int];
        match decode_spec(p) {
            Result::Ok(op) => apply_op(pre, op, input),
            Result::Err(e) => StepOutcome::Fail(MachineError::Decode { word: p, pc: pre.pc }),
        }
    }
}

/// Whether the next step would execute an Input instruction and so consume a
/// byte from the external source.
pub open spec fn spec_needs_input(s: State) -> bool {
    s.pc < s.mem[0].len() && opcode_of(s.mem[0][s.pc as int]) == 11
}

/// What one step reports to its caller.
#[derive(Clone, Copy, Debug, PartialEq, Eq, Structural)]
pub enum Effect {
    /// An instruction executed; the machine can take another step.
    Continue,
    /// An instruction executed and emitted one byte for the output sink.
    Output(u8),
    /// The machine reached Halt and is in its terminal state.
    Halted,
}

/// How an executable step must relate its old state, its new state and its
/// result to the one transition the model allows.
pub open spec fn step_rel(
    pre: State,
    input: Option<u8>,
    post: State,
    r: Result<Effect, MachineError>,
) -> bool {
    match machine_step(pre, input) {
        StepOutcome::Next(s) => post == s && r == Ok::<Effect, MachineError>(Effect::Continue),
        StepOutcome::Emit(s, b) => post == s && r == Ok::<Effect, MachineError>(Effect::Output(b)),
        StepOutcome::Stop => post == pre && r == Ok::<Effect, MachineError>(Effect::Halted),
        StepOutcome::Fail(e) => post == pre && r == Err::<Effect, MachineError>(e),
    }
}

/// Why a bounded run ended.
#[derive(Clone, Copy, Debug, PartialEq, Eq, Structural)]
pub enum RunOutcome {
    /// The machine executed Halt.
    Halted,
    /// The step budget ran out before the machine halted or failed.
    OutOfFuel,
    /// A fatal fault stopped the machine.
    Failed(MachineError),
}

/// What a bounded run leaves behind: the final state, the bytes emitted in
/// order, and why it ended.
#[verifier::ext_equal]
pub struct RunTrace {
    /// The machine's state when the run ended.
    pub state: State,
    /// Every byte emitted by Output instructions, oldest first.
    pub output: Seq<u8>,
    /// Why the run ended.
    pub outcome: RunOutcome,
}

/// Runs the machine for at most `fuel` steps against a finite input, one
/// byte of which is consumed each time an Input instruction executes while
/// any remains; once the input is exhausted, Input reads the end-of-input
/// sentinel. The state is left unchanged by the step that halts or faults.
pub open spec fn run_spec(pre: State, input: Seq<u8>, fuel: nat) -> RunTrace
    decreases fuel,
{
    if fuel == 0 {
        RunTrace { state: pre, output: Seq::empty(), outcome: RunOutcome::OutOfFuel }
    } else {
        let consumes = spec_needs_input(pre) && input.len() > 0;
        let inb = if consumes {
            Option::Some(input[0])
        } else {
            Option::None
        };
        let rest = if consumes {
            input.drop_first()
        } else {
            input
        };
        match machine_step(pre, inb) {
            StepOutcome::Next(s) => run_spec(s, rest, (fuel - 1) as nat),
            StepOutcome::Emit(s, b) => {
                let t = run_spec(s, rest, (fuel - 1) as nat);
                RunTrace { state: t.state, output: seq![b] + t.output, outcome: t.outcome }
            },
            StepOutcome::Stop => RunTrace {
                state: pre,
                output: Seq::empty(),
                outcome: RunOutcome::Halted,
            },
            StepOutcome::Fail(e) => RunTrace {
                state: pre,
                output: Seq::empty(),
                outcome: RunOutcome::Failed(e),
            },
        }
    }
}

/// A step taken from a well-formed state leaves a well-formed state.
pub proof fn lemma_step_preserves_wf(pre: State, input: Option<u8>)
    requires
        state_wf(pre),
    ensures
        machine_step(pre, input) matches StepOutcome::Next(post) ==> state_wf(post),
        machine_step(pre, input) matches StepOutcome::Emit(post, b) ==> state_wf(post),
{
    if pre.pc < pre.mem[0].len() {
        let p = pre.mem[0][pre.pc as int];
        lemma_fields_in_range(p);
        match decode_spec(p) {
            Result::Ok(op) => {
                match op {
                    Operator::ArrayAmendment(d) => {
                        let handle = pre.regs[d.a as int];
                        let offset = pre.regs[d.b as int];
                        if handle < pre.mem.len() && offset < pre.mem[handle as int].len() {
                            let m2 = pre.mem.update(
                                handle as int,
                                pre.mem[handle as int].update(offset as int, pre.regs[d.c as int]),
                            );
                            assert forall|i: int| 0 <= i < m2.len() implies (#[trigger] m2[i]).len() <= 0xFFFF_FFFF by {
                                assert(pre.mem[i].len() <= 0xFFFF_FFFF);
                            };
                        }
                    },
                    Operator::Allocation(d) => {
                        let size = pre.regs[d.c as int];
                        if pre.pool.len() > 0 {
                            let handle = pre.pool.last();
                            assert(pre.pool[pre.pool.len() - 1] == handle);
                            assert(0 < handle < pre.mem.len());
                            let m2 = pre.mem.update(handle as int, zero_words(size as nat));
                            assert forall|i: int| 0 <= i < m2.len() implies (#[trigger] m2[i]).len() <= 0xFFFF_FFFF by {
                                assert(pre.mem[i].len() <= 0xFFFF_FFFF);
                            };
                            let p2 = pre.pool.drop_last();
                            assert forall|i: int| 0 <= i < p2.len() implies 0 < #[trigger] p2[i]
                                < m2.len() by {
                                assert(p2[i] == pre.pool[i]);
                            };
                        } else if pre.mem.len() <= 0xFFFF_FFFF {
                            let m2 = pre.mem.push(zero_words(size as nat));
                            assert forall|i: int| 0 <= i < m2.len() implies (#[trigger] m2[i]).len() <= 0xFFFF_FFFF by {
                                if i < pre.mem.len() {
                                    assert(m2[i] == pre.mem[i]);
                                    assert(pre.mem[i].len() <= 0xFFFF_FFFF);
                                } else {
                                    assert(m2[i] == zero_words(size as nat));
                                }
                            };
                        }
                    },
                    Operator::Abandonment(d) => {
                        let handle = pre.regs[d.c as int];
                        if 0 < handle < pre.mem.len() {
                            let p2 = pre.pool.push(handle);
                            assert forall|i: int| 0 <= i < p2.len() implies 0 < #[trigger] p2[i]
                                < pre.mem.len() by {
                                if i < pre.pool.len() {
                                    assert(p2[i] == pre.pool[i]);
                                } else {
                                    assert(p2[i] == handle);
                                }
                            };
                        }
                    },
                    Operator::LoadProgram(d) => {
                        let source = pre.regs[d.b as int];
                        if source != 0 && source < pre.mem.len() {
                            let m2 = pre.mem.update(0, pre.mem[source as int]);
                            assert forall|i: int| 0 <= i < m2.len() implies (#[trigger] m2[i]).len() <= 0xFFFF_FFFF by {
                                assert(pre.mem[i].len() <= 0xFFFF_FFFF);
                                assert(pre.mem[source as int].len() <= 0xFFFF_FFFF);
                            };
                        }
                    },
                    _ => {},
                }
            },
            Result::Err(_) => {},
        }
    }
}

/// Program-counter discipline: every instruction that lets execution
/// continue advances the program counter by exactly one, except Load
/// Program, which sets it to the value read from its C operand and does not
/// also advance it.
pub proof fn lemma_pc_discipline(pre: State, input: Option<u8>)
    requires
        state_wf(pre),
    ensures
        machine_step(pre, input) matches StepOutcome::Next(post) ==> ({
            let p = pre.mem[0][pre.pc as int];
            &&& opcode_of(p) == 12 ==> post.pc == pre.regs[field_c(p) as int]
            &&& opcode_of(p) != 12 ==> post.pc == pre.pc + 1
        }),
        machine_step(pre, input) matches StepOutcome::Emit(post, b) ==> post.pc == pre.pc + 1,
{
}

/// A successful Allocation leaves, at the handle it writes into register B,
/// a segment of exactly the requested length with every cell zero — never
/// stale contents — and takes the handle from the pool, most recently
/// abandoned first, before growing the table.
pub proof fn lemma_allocation_zeroed(pre: State, input: Option<u8>)
    requires
        state_wf(pre),
        pre.pc < pre.mem[0].len(),
        opcode_of(pre.mem[0][pre.pc as int]) == 8,
        pre.pool.len() > 0 || pre.mem.len() <= 0xFFFF_FFFF,
    ensures
        machine_step(pre, input) is Next,
        machine_step(pre, input) matches StepOutcome::Next(post) ==> ({
            let p = pre.mem[0][pre.pc as int];
            let size = pre.regs[field_c(p) as int];
            let handle = post.regs[field_b(p) as int];
            &&& post.mem[handle as int].len() == size
            &&& forall|j: int| 0 <= j < size ==> post.mem[handle as int][j] == 0
            &&& pre.pool.len() > 0 ==> handle == pre.pool.last() && post.pool
                == pre.pool.drop_last()
            &&& pre.pool.len() == 0 ==> handle == pre.mem.len() && post.mem.len() == pre.mem.len()
                + 1
        }),
{
    let p = pre.mem[0][pre.pc as int];
    lemma_fields_in_range(p);
    if pre.pool.len() > 0 {
        assert(pre.pool[pre.pool.len() - 1] == pre.pool.last());
        assert(0 < pre.pool.last() < pre.mem.len());
    }
}

/// Abandoning a handle and allocating in the very next step reuses that same
/// handle, and the reused segment comes back freshly zeroed at the length
/// the allocation asked for.
pub proof fn lemma_abandon_then_allocate_reuses(pre: State, i1: Option<u8>, i2: Option<u8>)
    requires
        state_wf(pre),
        pre.pc + 1 < pre.mem[0].len(),
        opcode_of(pre.mem[0][pre.pc as int]) == 9,
        opcode_of(pre.mem[0][pre.pc as int + 1]) == 8,
        0 < pre.regs[field_c(pre.mem[0][pre.pc as int]) as int] < pre.mem.len(),
    ensures
        machine_step(pre, i1) is Next,
        machine_step(pre, i1) matches StepOutcome::Next(mid) ==> ({
            &&& machine_step(mid, i2) is Next
            &&& machine_step(mid, i2) matches StepOutcome::Next(post) ==> ({
                let abandoned = pre.regs[field_c(pre.mem[0][pre.pc as int]) as int];
                let p2 = pre.mem[0][pre.pc as int + 1];
                let size = pre.regs[field_c(p2) as int];
                &&& post.regs[field_b(p2) as int] == abandoned
                &&& post.mem[abandoned as int].len() == size
                &&& forall|j: int| 0 <= j < size ==> post.mem[abandoned as int][j] == 0
            })
        }),
{
    let p1 = pre.mem[0][pre.pc as int];
    let abandoned = pre.regs[field_c(p1) as int];
    lemma_fields_in_range(p1);
    match machine_step(pre, i1) {
        StepOutcome::Next(mid) => {
            assert(mid.pool.last() == abandoned);
            lemma_step_preserves_wf(pre, i1);
            let p2 = mid.mem[0][mid.pc as int];
            lemma_fields_in_range(p2);
        },
        _ => {},
    }
}

} // verus!
