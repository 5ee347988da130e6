//! The executable machine, proved to follow the model's transition function.

use vstd::prelude::*;

use crate::error::MachineError;
use crate::operator::Operator;
use crate::plate::{lemma_fields_in_range, Plate};
use crate::semantics::{
    machine_step, run_spec, spec_needs_input, state_wf, step_rel, zero_words, Effect, RunOutcome,
    State, StepOutcome,
};

verus! {

/// The raw values of a run of words.
pub open spec fn words_of(s: Seq<Plate>) -> Seq<u32> {
    s.map(|i: int, p: Plate| p@)
}

/// The raw cell values of every segment in a table.
pub open spec fn segs_of(m: Seq<Vec<Plate>>) -> Seq<Seq<u32>> {
    Seq::new(m.len(), |i: int| words_of(m[i]@))
}

/// The machine: eight registers, the segment table (segment 0 holds the
/// running program), the program counter, and the pool of abandoned segment
/// handles. Its view is the model state it stands for.
#[derive(Debug)]
pub struct Machine {
    registers: Vec<Plate>,
    memory: Vec<Vec<Plate>>,
    pointer_finger: u32,
    free_addr: Vec<u32>,
}

impl View for Machine {
    type V = State;

    closed spec fn view(&self) -> State {
        State {
            regs: words_of(self.registers@),
            mem: segs_of(self.memory@),
            pc: self.pointer_finger,
            pool: self.free_addr@,
        }
    }
}

/// A zero-filled segment of the given length.
fn zero_segment(size: u32) -> (v: Vec<Plate>)
    ensures
        words_of(v@) == zero_words(size as nat),
{
    let mut v: Vec<Plate> = Vec::new();
    let mut k: u32 = 0;
    while k < size
        invariant
            k <= size,
            v@.len() == k,
            forall|i: int| 0 <= i < k ==> (#[trigger] v@[i])@ == 0,
        decreases size - k,
    {
        v.push(Plate::from(0));
        k = k + 1;
    }
    proof {
        assert(words_of(v@) =~= zero_words(size as nat));
    }
    v
}

/// A fresh copy of a segment's words.
fn copy_segment(src: &Vec<Plate>) -> (v: Vec<Plate>)
    ensures
        v@ == src@,
{
    let mut v: Vec<Plate> = Vec::new();
    let mut k: usize = 0;
    while k < src.len()
        invariant
            k <= src@.len(),
            v@ == src@.subrange(0, k as int),
        decreases src@.len() - k,
    {
        v.push(src[k]);
        proof {
            assert(v@ =~= src@.subrange(0, k + 1));
        }
        k = k + 1;
    }
    proof {
        assert(v@ =~= src@);
    }
    v
}

impl Machine {
    /// The machine's state is well formed.
    pub open spec fn wf(&self) -> bool {
        state_wf(self@)
    }

    /// Builds a machine around a program image: registers zeroed, the image
    /// as segment 0, the program counter at its start, and an empty pool.
    /// The image must fit 32-bit addressing.
    pub fn new(program: Vec<Plate>) -> (m: Machine)
        requires
            program@.len() <= 0xFFFF_FFFF,
        ensures
            m.wf(),
            m@.regs == zero_words(8),
            m@.mem == seq![words_of(program@)],
            m@.pc == 0,
            m@.pool == Seq::<u32>::empty(),
    {
        let registers = zero_segment(8);
        let mut memory: Vec<Vec<Plate>> = Vec::new();
        memory.push(program);
        let m = Machine { registers, memory, pointer_finger: 0, free_addr: Vec::new() };
        proof {
            assert(m@.mem =~= seq![words_of(m.memory@[0]@)]);
        }
        m
    }

    /// The program counter.
    pub fn pc(&self) -> (r: u32)
        ensures
            r == self@.pc,
    {
        self.pointer_finger
    }

    /// The value held in one of the eight registers.
    pub fn reg_get(&self, index: u32) -> (r: Plate)
        requires
            self.wf(),
            index < 8,
        ensures
            r@ == self@.regs[index as int],
    {
        self.registers[index as usize]
    }

    /// Stores a value into one of the eight registers.
    pub fn reg_set(&mut self, index: u32, value: Plate)
        requires
            old(self).wf(),
            index < 8,
        ensures
            final(self).wf(),
            final(self)@ == (State {
                regs: old(self)@.regs.update(index as int, value@),
                ..old(self)@
            }),
    {
        self.registers[index as usize] = value;
        proof {
            assert(self@.regs =~= old(self)@.regs.update(index as int, value@));
        }
    }

    /// Copies one register's value into another.
    pub fn reg_mov(&mut self, source: u32, dest: u32)
        requires
            old(self).wf(),
            source < 8,
            dest < 8,
        ensures
            final(self).wf(),
            final(self)@ == (State {
                regs: old(self)@.regs.update(dest as int, old(self)@.regs[source as int]),
                ..old(self)@
            }),
    {
        let data = self.reg_get(source);
        self.reg_set(dest, data);
    }

    /// Reads one cell of one segment.
    pub fn get_data(&self, index: u32, offset: u32) -> (r: Plate)
        requires
            self.wf(),
            index < self@.mem.len(),
            offset < self@.mem[index as int].len(),
        ensures
            r@ == self@.mem[index as int][offset as int],
    {
        self.memory[index as usize][offset as usize]
    }

    /// Writes one cell of one segment.
    pub fn set_data(&mut self, index: u32, offset: u32, value: Plate)
        requires
            old(self).wf(),
            index < old(self)@.mem.len(),
            offset < old(self)@.mem[index as int].len(),
        ensures
            final(self).wf(),
            final(self)@ == (State {
                mem: old(self)@.mem.update(
                    index as int,
                    old(self)@.mem[index as int].update(offset as int, value@),
                ),
                ..old(self)@
            }),
    {
        self.memory[index as usize][offset as usize] = value;
        proof {
            assert(words_of(self.memory@[index as int]@) =~= old(self)@.mem[index as int].update(
                offset as int,
                value@,
            ));
            assert(self@.mem =~= old(self)@.mem.update(
                index as int,
                old(self)@.mem[index as int].update(offset as int, value@),
            ));
            assert forall|i: int| 0 <= i < self@.mem.len() implies (#[trigger] self@.mem[i]).len()
                <= 0xFFFF_FFFF by {
                assert(old(self)@.mem[i].len() <= 0xFFFF_FFFF);
            };
        }
    }

    /// Whether the next step would execute an Input instruction, so that the
    /// external source should be asked for a byte before stepping.
    pub fn needs_input(&self) -> (r: bool)
        requires
            self.wf(),
        ensures
            r == spec_needs_input(self@),
    {
        let pc = self.pointer_finger;
        if (pc as usize) < self.memory[0].len() {
            let p = self.memory[0][pc as usize];
            (p.unwrap() >> 28) & 0xF == 11
        } else {
            false
        }
    }

    /// One fetch-decode-execute step. `input` is the byte the external
    /// source offers (`None` once it is exhausted); it is read only when the
    /// fetched instruction is Input. The machine takes exactly the
    /// transition the model prescribes, and a fault leaves it unchanged.
    pub fn step(&mut self, input: Option<u8>) -> (r: Result<Effect, MachineError>)
        requires
            old(self).wf(),
        ensures
            final(self).wf(),
            step_rel(old(self)@, input, final(self)@, r),
    {
        let pc = self.pointer_finger;
        if !((pc as usize) < self.memory[0].len()) {
            return Err(MachineError::OutOfBounds { addr: pc });
        }
        let plate = self.memory[0][pc as usize];
        proof {
            lemma_fields_in_range(plate@);
            assert(old(self)@.mem[0].len() <= 0xFFFF_FFFF);
        }
        let op = match plate.get_operator_data() {
            Ok(o) => o,
            Err(e) => {
                return Err(MachineError::Decode { word: e.word, pc });
            },
        };
        match op {
            Operator::ConditionalMove(d) => {
                if self.reg_get(d.c).unwrap() != 0 {
                    self.reg_mov(d.b, d.a);
                }
                self.pointer_finger = pc + 1;
                proof {
                    assert(machine_step(old(self)@, input) matches StepOutcome::Next(st) && self@
                        =~~= st);
                }
                Ok(Effect::Continue)
            },
            Operator::ArrayIndex(d) => {
                let handle = self.reg_get(d.b).unwrap();
                let offset = self.reg_get(d.c).unwrap();
                if !((handle as usize) < self.memory.len()) {
                    return Err(MachineError::OutOfBounds { addr: handle });
                }
                if !((offset as usize) < self.memory[handle as usize].len()) {
                    return Err(MachineError::OutOfBounds { addr: offset });
                }
                let value = self.get_data(handle, offset);
                self.reg_set(d.a, value);
                self.pointer_finger = pc + 1;
                proof {
                    assert(machine_step(old(self)@, input) matches StepOutcome::Next(st) && self@
                        =~~= st);
                }
                Ok(Effect::Continue)
            },
            Operator::ArrayAmendment(d) => {
                let handle = self.reg_get(d.a).unwrap();
                let offset = self.reg_get(d.b).unwrap();
                if !((handle as usize) < self.memory.len()) {
                    return Err(MachineError::OutOfBounds { addr: handle });
                }
                if !((offset as usize) < self.memory[handle as usize].len()) {
                    return Err(MachineError::OutOfBounds { addr: offset });
                }
                let value = self.reg_get(d.c);
                self.set_data(handle, offset, value);
                self.pointer_finger = pc + 1;
                proof {
                    assert(machine_step(old(self)@, input) matches StepOutcome::Next(st) && self@
                        =~~= st);
                }
                Ok(Effect::Continue)
            },
            Operator::Addition(d) => {
                let rb = self.reg_get(d.b);
                let rc = self.reg_get(d.c);
                self.reg_set(d.a, rb.add(&rc));
                self.pointer_finger = pc + 1;
                proof {
                    assert(machine_step(old(self)@, input) matches StepOutcome::Next(st) && self@
                        =~~= st);
                }
                Ok(Effect::Continue)
            },
            Operator::Multiplication(d) => {
                let rb = self.reg_get(d.b);
                let rc = self.reg_get(d.c);
                self.reg_set(d.a, rb.mul(&rc));
                self.pointer_finger = pc + 1;
                proof {
                    assert(machine_step(old(self)@, input) matches StepOutcome::Next(st) && self@
                        =~~= st);
                }
                Ok(Effect::Continue)
            },
            Operator::Division(d) => {
                let rb = self.reg_get(d.b);
                let rc = self.reg_get(d.c);
                match rb.div(&rc) {
                    Ok(q) => {
                        self.reg_set(d.a, q);
                        self.pointer_finger = pc + 1;
                        proof {
                            assert(machine_step(old(self)@, input) matches StepOutcome::Next(st)
                                && self@ =~~= st);
                        }
                        Ok(Effect::Continue)
                    },
                    Err(e) => Err(e),
                }
            },
            Operator::NotAnd(d) => {
                let rb = self.reg_get(d.b);
                let rc = self.reg_get(d.c);
                self.reg_set(d.a, rb.bitand(&rc).not());
                self.pointer_finger = pc + 1;
                proof {
                    assert(machine_step(old(self)@, input) matches StepOutcome::Next(st) && self@
                        =~~= st);
                }
                Ok(Effect::Continue)
            },
            Operator::Halt => Ok(Effect::Halted),
            Operator::Allocation(d) => {
                let size = self.reg_get(d.c).unwrap();
                if self.free_addr.len() > 0 {
                    proof {
                        assert(old(self)@.pool[old(self)@.pool.len() - 1]
                            == old(self)@.pool.last());
                    }
                    let handle = self.free_addr.pop().unwrap();
                    let seg = zero_segment(size);
                    self.memory[handle as usize] = seg;
                    proof {
                        assert(self@.mem =~= old(self)@.mem.update(
                            handle as int,
                            zero_words(size as nat),
                        ));
                        assert forall|i: int| 0 <= i < self@.mem.len() implies (#[trigger] self@.mem[i]).len() <= 0xFFFF_FFFF by {
                            assert(old(self)@.mem[i].len() <= 0xFFFF_FFFF);
                        };
                        assert forall|i: int| 0 <= i < self@.pool.len() implies 0 < #[trigger] self@.pool[i] < self@.mem.len() by {
                            assert(self@.pool[i] == old(self)@.pool[i]);
                        };
                    }
                    self.reg_set(d.b, Plate::from(handle));
                    self.pointer_finger = pc + 1;
                    proof {
                        assert(self@.mem =~= old(self)@.mem.update(
                            handle as int,
                            zero_words(size as nat),
                        ));
                        assert(machine_step(old(self)@, input) matches StepOutcome::Next(st)
                            && self@ =~~= st);
                    }
                    Ok(Effect::Continue)
                } else {
                    if self.memory.len() > (u32::MAX as usize) {
                        return Err(MachineError::OutOfBounds { addr: u32::MAX });
                    }
                    let handle = self.memory.len() as u32;
                    let seg = zero_segment(size);
                    self.memory.push(seg);
                    proof {
                        assert(self@.mem =~= old(self)@.mem.push(zero_words(size as nat)));
                        assert forall|i: int| 0 <= i < self@.mem.len() implies (#[trigger] self@.mem[i]).len() <= 0xFFFF_FFFF by {
                            if i < old(self)@.mem.len() {
                                assert(self@.mem[i] == old(self)@.mem[i]);
                                assert(old(self)@.mem[i].len() <= 0xFFFF_FFFF);
                            }
                        };
                        assert forall|i: int| 0 <= i < self@.pool.len() implies 0 < #[trigger] self@.pool[i] < self@.mem.len() by {
                            assert(0 < old(self)@.pool[i] < old(self)@.mem.len());
                        };
                    }
                    self.reg_set(d.b, Plate::from(handle));
                    self.pointer_finger = pc + 1;
                    proof {
                        assert(self@.mem =~= old(self)@.mem.push(zero_words(size as nat)));
                        assert(machine_step(old(self)@, input) matches StepOutcome::Next(st)
                            && self@ =~~= st);
                    }
                    Ok(Effect::Continue)
                }
            },
            Operator::Abandonment(d) => {
                let handle = self.reg_get(d.c).unwrap();
                if handle == 0 || !((handle as usize) < self.memory.len()) {
                    return Err(MachineError::OutOfBounds { addr: handle });
                }
                self.free_addr.push(handle);
                self.pointer_finger = pc + 1;
                proof {
                    assert(machine_step(old(self)@, input) matches StepOutcome::Next(st) && self@
                        =~~= st);
                }
                Ok(Effect::Continue)
            },
            Operator::Output(d) => {
                let value = self.reg_get(d.c).unwrap();
                self.pointer_finger = pc + 1;
                proof {
                    assert(machine_step(old(self)@, input) matches StepOutcome::Emit(st, b)
                        && self@ =~~= st);
                }
                Ok(Effect::Output((value % 256) as u8))
            },
            Operator::Input(d) => {
                let value: u32 = match input {
                    Some(b) => b as u32,
                    None => 0xFFFF_FFFF,
                };
                self.reg_set(d.c, Plate::from(value));
                self.pointer_finger = pc + 1;
                proof {
                    assert(machine_step(old(self)@, input) matches StepOutcome::Next(st) && self@
                        =~~= st);
                }
                Ok(Effect::Continue)
            },
            Operator::LoadProgram(d) => {
                let source = self.reg_get(d.b).unwrap();
                let target = self.reg_get(d.c).unwrap();
                if source != 0 {
                    if !((source as usize) < self.memory.len()) {
                        return Err(MachineError::OutOfBounds { addr: source });
                    }
                    let seg = copy_segment(&self.memory[source as usize]);
                    self.memory[0] = seg;
                }
                self.pointer_finger = target;
                proof {
                    if source != 0 {
                        assert(self@.mem =~= old(self)@.mem.update(
                            0,
                            old(self)@.mem[source as int],
                        ));
                    }
                    assert(machine_step(old(self)@, input) matches StepOutcome::Next(st) && self@
                        =~~= st);
                }
                Ok(Effect::Continue)
            },
            Operator::Orthography(o) => {
                self.reg_set(o.a, Plate::from(o.data));
                self.pointer_finger = pc + 1;
                proof {
                    assert(machine_step(old(self)@, input) matches StepOutcome::Next(st) && self@
                        =~~= st);
                }
                Ok(Effect::Continue)
            },
        }
    }

    /// Runs the machine for at most `fuel` steps against a finite input,
    /// collecting the emitted bytes in order, exactly as the model's bounded
    /// run prescribes.
    #[verifier::loop_isolation(false)]
    pub fn run(&mut self, input: &Vec<u8>, fuel: u64) -> (r: (RunOutcome, Vec<u8>))
        requires
            old(self).wf(),
        ensures
            final(self).wf(),
            ({
                let t = run_spec(old(self)@, input@, fuel as nat);
                &&& final(self)@ == t.state
                &&& r.0 == t.outcome
                &&& r.1@ == t.output
            }),
    {
        let mut out: Vec<u8> = Vec::new();
        let mut pos: usize = 0;
        let mut left: u64 = fuel;
        let ghost t0 = run_spec(old(self)@, input@, fuel as nat);
        proof {
            assert(input@.skip(0) =~= input@);
            assert(Seq::<u8>::empty() + t0.output =~= t0.output);
        }
        loop
            invariant
                self.wf(),
                pos <= input@.len(),
                ({
                    let t = run_spec(self@, input@.skip(pos as int), left as nat);
                    &&& t0.state == t.state
                    &&& t0.outcome == t.outcome
                    &&& t0.output == out@ + t.output
                }),
            decreases left,
        {
            if left == 0 {
                proof {
                    assert(t0.output =~= out@);
                }
                return (RunOutcome::OutOfFuel, out);
            }
            let ghost prev = self@;
            let ghost prev_pos = pos as int;
            let inb: Option<u8> = if self.needs_input() && pos < input.len() {
                let b = input[pos];
                pos = pos + 1;
                Some(b)
            } else {
                None
            };
            proof {
                if spec_needs_input(prev) && input@.skip(prev_pos).len() > 0 {
                    assert(input@.skip(prev_pos)[0] == input@[prev_pos]);
                    assert(input@.skip(prev_pos).drop_first() =~= input@.skip(prev_pos + 1));
                }
            }
            let res = self.step(inb);
            match res {
                Ok(Effect::Continue) => {},
                Ok(Effect::Output(b)) => {
                    out.push(b);
                    proof {
                        let t = run_spec(self@, input@.skip(pos as int), (left - 1) as nat);
                        assert(out@ + t.output =~= (out@.drop_last() + (seq![b] + t.output)));
                    }
                },
                Ok(Effect::Halted) => {
                    proof {
                        assert(t0.output =~= out@);
                    }
                    return (RunOutcome::Halted, out);
                },
                Err(e) => {
                    proof {
                        assert(t0.output =~= out@);
                    }
                    return (RunOutcome::Failed(e), out);
                },
            }
            left = left - 1;
        }
    }
}

} // verus!
