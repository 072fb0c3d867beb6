//! The tree-walking interpreter: the reference engine. Every public and
//! private step is pinned, exactly, to the fueled semantics in
//! `crate::semantics`.

use vstd::prelude::*;

use crate::program::{Instruction, Program};
use crate::semantics::{
    cur, run_instr, run_seq, step_debug, step_decrement, step_increment, step_input, step_left,
    step_output, step_right, state_wf, wrap_dec, wrap_inc, MachineState, RunConfig, RunOutcome,
    RuntimeError,
};
use crate::EofBehaviour;

verus! {

broadcast use {vstd::seq::group_seq_axioms, vstd::std_specs::vec::group_vec_axioms};

/// How a fueled run ended: normal completion, a fatal bounds fault, or an
/// exhausted step budget (the run may need more fuel, never a different
/// outcome — see `semantics`).
#[derive(Clone, Copy, PartialEq, Eq, Structural, Debug)]
pub enum RunStatus {
    Done,
    Failed(RuntimeError),
    OutOfSteps,
}

/// One diagnostic dump: the full tape and the cursor at the moment a
/// `Debug` instruction ran.
#[derive(Debug)]
pub struct Snapshot {
    pub array: Vec<u8>,
    pub pointer: usize,
}

/// The interpreter state: configuration, the growable tape with its cursor,
/// the input stream with a read position, and the two output streams.
#[derive(Debug)]
pub struct Interpreter {
    pub max_array_size: usize,
    pub eof_behaviour: EofBehaviour,
    pub array: Vec<u8>,
    pub pointer: usize,
    pub input: Vec<u8>,
    pub in_pos: usize,
    pub output: Vec<u8>,
    pub dumps: Vec<Snapshot>,
}

pub open spec fn dumps_view(d: Seq<Snapshot>) -> Seq<(Seq<u8>, int)> {
    d.map_values(|snap: Snapshot| (snap.array@, snap.pointer as int))
}

/// An exec status `r` together with a final machine state matches a spec
/// outcome when they carry the same verdict and the same state.
pub open spec fn outcome_matches(res: RunOutcome, r: RunStatus, fin: MachineState) -> bool {
    match r {
        RunStatus::Done => res == RunOutcome::Done(fin),
        RunStatus::Failed(e) => res == RunOutcome::Failed(e, fin),
        RunStatus::OutOfSteps => res == RunOutcome::OutOfSteps(fin),
    }
}

impl Interpreter {
    /// The run configuration this interpreter embodies.
    pub open spec fn cfg(&self) -> RunConfig {
        RunConfig {
            max: self.max_array_size as int,
            eof: self.eof_behaviour,
            input: self.input@,
        }
    }

    /// The machine state this interpreter currently holds.
    pub open spec fn mstate(&self) -> MachineState {
        MachineState {
            tape: self.array@,
            ptr: self.pointer as int,
            in_pos: self.in_pos as int,
            out: self.output@,
            dumps: dumps_view(self.dumps@),
        }
    }

    pub open spec fn wf(&self) -> bool {
        state_wf(self.cfg(), self.mstate())
    }

    /// Same configuration: the tape bound, the policy and the input stream
    /// are fixed for the whole run.
    pub open spec fn same_cfg(&self, other: &Interpreter) -> bool {
        &&& self.max_array_size == other.max_array_size
        &&& self.eof_behaviour == other.eof_behaviour
        &&& self.input@ == other.input@
    }

    /// A fresh interpreter: a one-cell zeroed tape with the cursor on it.
    pub fn new(max_array_size: usize, eof_behaviour: EofBehaviour) -> (r: Interpreter)
        requires
            1 <= max_array_size,
        ensures
            r.wf(),
            r.max_array_size == max_array_size,
            r.eof_behaviour == eof_behaviour,
            r.array@ == seq![0u8],
            r.pointer == 0,
            r.input@ == Seq::<u8>::empty(),
            r.mstate().out == Seq::<u8>::empty(),
            r.mstate().dumps == Seq::<(Seq<u8>, int)>::empty(),
    {
        let r = Interpreter {
            max_array_size,
            eof_behaviour,
            array: vec![0u8],
            pointer: 0,
            input: Vec::new(),
            in_pos: 0,
            output: Vec::new(),
            dumps: Vec::new(),
        };
        proof {
            assert(dumps_view(r.dumps@) =~= Seq::<(Seq<u8>, int)>::empty());
        }
        r
    }

    /// Run a whole program against a fresh input stream, with a step budget
    /// spent only on loop iterations. The returned status, the final state
    /// of `self`, and the output stream are exactly what the fueled
    /// reference semantics says for this program, input and fuel.
    pub fn run(&mut self, program: &Program, input: Vec<u8>, fuel: u64) -> (r: RunStatus)
        requires
            old(self).wf(),
        ensures
            final(self).wf(),
            final(self).max_array_size == old(self).max_array_size,
            final(self).eof_behaviour == old(self).eof_behaviour,
            final(self).input@ == input@,
            ({
                let c = RunConfig {
                    max: old(self).max_array_size as int,
                    eof: old(self).eof_behaviour,
                    input: input@,
                };
                let s0 = MachineState {
                    tape: old(self).array@,
                    ptr: old(self).pointer as int,
                    in_pos: 0,
                    out: Seq::<u8>::empty(),
                    dumps: Seq::<(Seq<u8>, int)>::empty(),
                };
                outcome_matches(run_seq(c, s0, program.instructions@, fuel as nat), r, final(self).mstate())
            }),
    {
        self.input = input;
        self.in_pos = 0;
        self.output = Vec::new();
        self.dumps = Vec::new();
        proof {
            assert(dumps_view(self.dumps@) =~= Seq::<(Seq<u8>, int)>::empty());
        }
        self.execute_all(&program.instructions, fuel)
    }

    /// Execute a sequence of instructions in order, as `run_seq` says.
    #[verifier::loop_isolation(false)]
    fn execute_all(&mut self, instrs: &Vec<Instruction>, fuel: u64) -> (r: RunStatus)
        requires
            old(self).wf(),
        ensures
            final(self).wf(),
            final(self).same_cfg(old(self)),
            outcome_matches(
                run_seq(old(self).cfg(), old(self).mstate(), instrs@, fuel as nat),
                r,
                final(self).mstate(),
            ),
        decreases instrs, 0int,
    {
        let ghost c = self.cfg();
        let ghost s0 = self.mstate();
        proof {
            assert(instrs@.subrange(0, instrs@.len() as int) =~= instrs@);
        }
        let mut idx: usize = 0;
        while idx < instrs.len()
            invariant
                self.wf(),
                self.cfg() == c,
                self.same_cfg(old(self)),
                0 <= idx <= instrs.len(),
                run_seq(c, s0, instrs@, fuel as nat) == run_seq(
                    c,
                    self.mstate(),
                    instrs@.subrange(idx as int, instrs@.len() as int),
                    fuel as nat,
                ),
            decreases instrs.len() - idx,
        {
            let ghost before = self.mstate();
            let ghost rest = instrs@.subrange(idx as int, instrs@.len() as int);
            let r = self.execute_instruction(&instrs[idx], fuel);
            proof {
                assert(rest.len() > 0);
                assert(rest[0] == instrs@[idx as int]);
                assert(rest.subrange(1, rest.len() as int) =~= instrs@.subrange(
                    idx as int + 1,
                    instrs@.len() as int,
                ));
            }
            match r {
                RunStatus::Done => {},
                RunStatus::Failed(e) => {
                    return RunStatus::Failed(e);
                },
                RunStatus::OutOfSteps => {
                    return RunStatus::OutOfSteps;
                },
            }
            idx = idx + 1;
        }
        proof {
            assert(instrs@.subrange(idx as int, instrs@.len() as int) =~= Seq::<
                Instruction,
            >::empty());
        }
        RunStatus::Done
    }

    /// Execute one instruction, as `run_instr` says.
    fn execute_instruction(&mut self, instruction: &Instruction, fuel: u64) -> (r: RunStatus)
        requires
            old(self).wf(),
        ensures
            final(self).wf(),
            final(self).same_cfg(old(self)),
            outcome_matches(
                run_instr(old(self).cfg(), old(self).mstate(), *instruction, fuel as nat),
                r,
                final(self).mstate(),
            ),
        decreases instruction, 2int,
    {
        match instruction {
            Instruction::Debug => {
                self.debug_dump();
                RunStatus::Done
            },
            Instruction::Increment => {
                self.increment();
                RunStatus::Done
            },
            Instruction::Decrement => {
                self.decrement();
                RunStatus::Done
            },
            Instruction::Right => {
                match self.right() {
                    Ok(()) => RunStatus::Done,
                    Err(e) => RunStatus::Failed(e),
                }
            },
            Instruction::Left => {
                match self.left() {
                    Ok(()) => RunStatus::Done,
                    Err(e) => RunStatus::Failed(e),
                }
            },
            Instruction::Output => {
                self.output();
                RunStatus::Done
            },
            Instruction::Input => {
                self.input();
                RunStatus::Done
            },
            Instruction::Loop(instructions) => self.loop_(instructions, fuel),
        }
    }

    /// Repeat a loop body while the current byte is nonzero, spending one
    /// unit of fuel per iteration, as the `Loop` case of `run_instr` says.
    #[verifier::loop_isolation(false)]
    fn loop_(&mut self, instructions: &Vec<Instruction>, fuel: u64) -> (r: RunStatus)
        requires
            old(self).wf(),
        ensures
            final(self).wf(),
            final(self).same_cfg(old(self)),
            outcome_matches(
                run_instr(
                    old(self).cfg(),
                    old(self).mstate(),
                    Instruction::Loop(*instructions),
                    fuel as nat,
                ),
                r,
                final(self).mstate(),
            ),
            (cur(old(self).mstate()) == 0 ==> *final(self) == *old(self) && r == RunStatus::Done),
        decreases instructions, 1int,
    {
        let ghost c = self.cfg();
        let ghost s_entry = self.mstate();
        let ghost li = Instruction::Loop(*instructions);
        // a loop whose current byte is zero runs its body zero times and
        // leaves everything, the step budget included, untouched
        let b0 = self.current();
        if b0 == 0 {
            proof {
                assert(run_instr(c, s_entry, li, fuel as nat) == RunOutcome::Done(s_entry));
            }
            return RunStatus::Done;
        }
        let mut g: u64 = fuel;
        while self.current() != 0
            invariant
                self.wf(),
                self.cfg() == c,
                self.same_cfg(old(self)),
                run_instr(c, s_entry, li, fuel as nat) == run_instr(c, self.mstate(), li, g as nat),
            decreases g,
        {
            let ghost before = self.mstate();
            if g == 0 {
                proof {
                    assert(run_instr(c, before, li, 0nat) == RunOutcome::OutOfSteps(before));
                }
                return RunStatus::OutOfSteps;
            }
            g = g - 1;
            let r = self.execute_all(instructions, g);
            proof {
                assert(cur(before) != 0);
                assert(run_instr(c, before, li, (g + 1) as nat) == (
                match run_seq(c, before, instructions@, g as nat) {
                    RunOutcome::Done(s1) => run_instr(c, s1, li, g as nat),
                    rr => rr,
                }));
            }
            match r {
                RunStatus::Done => {},
                RunStatus::Failed(e) => {
                    return RunStatus::Failed(e);
                },
                RunStatus::OutOfSteps => {
                    return RunStatus::OutOfSteps;
                },
            }
        }
        proof {
            assert(run_instr(c, self.mstate(), li, g as nat) == RunOutcome::Done(self.mstate()));
        }
        RunStatus::Done
    }

    /// The byte under the cursor.
    fn current(&self) -> (b: u8)
        requires
            self.wf(),
        ensures
            b == cur(self.mstate()),
    {
        self.array[self.pointer]
    }

    /// Increment the current byte with eight-bit wraparound.
    fn increment(&mut self)
        requires
            old(self).wf(),
        ensures
            final(self).wf(),
            final(self).same_cfg(old(self)),
            final(self).mstate() == step_increment(old(self).mstate()),
            final(self).array@ == old(self).array@.update(
                old(self).pointer as int,
                wrap_inc(old(self).array@[old(self).pointer as int]),
            ),
            final(self).pointer == old(self).pointer,
    {
        let b = self.current();
        let nb = b.wrapping_add(1);
        self.array[self.pointer] = nb;
    }

    /// Decrement the current byte with eight-bit wraparound.
    fn decrement(&mut self)
        requires
            old(self).wf(),
        ensures
            final(self).wf(),
            final(self).same_cfg(old(self)),
            final(self).mstate() == step_decrement(old(self).mstate()),
            final(self).array@ == old(self).array@.update(
                old(self).pointer as int,
                wrap_dec(old(self).array@[old(self).pointer as int]),
            ),
            final(self).pointer == old(self).pointer,
    {
        let b = self.current();
        let nb = b.wrapping_sub(1);
        self.array[self.pointer] = nb;
    }

    /// Move the cursor right, failing at the configured maximum and growing
    /// the tape (doubling, capped, zero-filled) when the cursor leaves the
    /// last allocated cell.
    #[verifier::loop_isolation(false)]
    fn right(&mut self) -> (r: Result<(), RuntimeError>)
        requires
            old(self).wf(),
        ensures
            final(self).wf(),
            final(self).same_cfg(old(self)),
            match r {
                Ok(()) => step_right(old(self).cfg(), old(self).mstate()) == RunOutcome::Done(
                    final(self).mstate(),
                ),
                Err(e) => step_right(old(self).cfg(), old(self).mstate()) == RunOutcome::Failed(
                    e,
                    final(self).mstate(),
                ),
            },
            (r matches Ok(()) ==> {
                &&& final(self).pointer == old(self).pointer + 1
                &&& old(self).array@.len() <= final(self).array@.len()
                &&& forall|j: int|
                    0 <= j < old(self).array@.len() ==> final(self).array@[j] == old(self).array@[j]
                &&& forall|j: int|
                    old(self).array@.len() <= j < final(self).array@.len() ==> final(self).array@[j] == 0u8
            }),
    {
        let index = self.pointer + 1;
        if index >= self.max_array_size {
            return Err(RuntimeError::MovedRightOutOfBounds);
        }
        let current_size = self.array.len();
        if self.pointer == current_size - 1 && current_size < self.max_array_size {
            let new_size = if current_size <= self.max_array_size / 2 {
                current_size * 2
            } else {
                self.max_array_size
            };
            let ghost old_tape = self.array@;
            let ghost pre = *self;
            proof {
                assert(self.array@.subrange(0, old_tape.len() as int) =~= old_tape);
            }
            while self.array.len() < new_size
                invariant
                    old_tape.len() <= self.array@.len() <= new_size,
                    self.array@.subrange(0, old_tape.len() as int) == old_tape,
                    forall|j: int|
                        old_tape.len() <= j < self.array@.len() ==> self.array@[j] == 0u8,
                    self.pointer == pre.pointer,
                    self.max_array_size == pre.max_array_size,
                    self.eof_behaviour == pre.eof_behaviour,
                    self.input@ == pre.input@,
                    self.in_pos == pre.in_pos,
                    self.output@ == pre.output@,
                    self.dumps@ == pre.dumps@,
                decreases new_size - self.array.len(),
            {
                self.array.push(0u8);
                proof {
                    assert(self.array@.subrange(0, old_tape.len() as int) =~= old_tape);
                }
            }
        }
        self.pointer = index;
        proof {
            assert(self.mstate().tape =~= crate::semantics::grown_tape(
                old(self).mstate(),
                old(self).cfg().max,
            ));
        }
        Ok(())
    }

    /// Move the cursor left, failing below index zero.
    fn left(&mut self) -> (r: Result<(), RuntimeError>)
        requires
            old(self).wf(),
        ensures
            final(self).wf(),
            final(self).same_cfg(old(self)),
            match r {
                Ok(()) => step_left(old(self).mstate()) == RunOutcome::Done(final(self).mstate()),
                Err(e) => step_left(old(self).mstate()) == RunOutcome::Failed(e, final(self).mstate()),
            },
    {
        if self.pointer == 0 {
            return Err(RuntimeError::MovedLeftOutOfBounds);
        }
        self.pointer = self.pointer - 1;
        Ok(())
    }

    /// Append the byte under the cursor to the output stream.
    fn output(&mut self)
        requires
            old(self).wf(),
        ensures
            final(self).wf(),
            final(self).same_cfg(old(self)),
            final(self).mstate() == step_output(old(self).mstate()),
    {
        let b = self.current();
        self.output.push(b);
    }

    /// Read one byte from the input stream into the current cell; at
    /// end-of-stream apply the configured policy.
    fn input(&mut self)
        requires
            old(self).wf(),
        ensures
            final(self).wf(),
            final(self).same_cfg(old(self)),
            final(self).mstate() == step_input(old(self).cfg(), old(self).mstate()),
    {
        if self.in_pos < self.input.len() {
            let b = self.input[self.in_pos];
            self.array[self.pointer] = b;
            self.in_pos = self.in_pos + 1;
        } else {
            match self.eof_behaviour {
                EofBehaviour::Ignore => {},
                EofBehaviour::Zero => {
                    self.array[self.pointer] = 0;
                },
            }
        }
    }

    /// Record a diagnostic dump of the full tape and the cursor.
    fn debug_dump(&mut self)
        requires
            old(self).wf(),
        ensures
            final(self).wf(),
            final(self).same_cfg(old(self)),
            final(self).mstate() == step_debug(old(self).mstate()),
    {
        let snap = Snapshot { array: clone_bytes(&self.array), pointer: self.pointer };
        self.dumps.push(snap);
        proof {
            assert(dumps_view(self.dumps@) =~= dumps_view(old(self).dumps@).push(
                (old(self).array@, old(self).pointer as int),
            ));
        }
    }
}

/// A by-value copy of a byte vector.
#[verifier::loop_isolation(false)]
fn clone_bytes(v: &Vec<u8>) -> (r: Vec<u8>)
    ensures
        r@ == v@,
{
    let mut r: Vec<u8> = Vec::new();
    proof {
        assert(r@ =~= v@.subrange(0, 0));
    }
    let mut i: usize = 0;
    while i < v.len()
        invariant
            i <= v.len(),
            r@ == v@.subrange(0, i as int),
        decreases v.len() - i,
    {
        r.push(v[i]);
        proof {
            assert(r@ =~= v@.subrange(0, i as int + 1));
        }
        i = i + 1;
    }
    proof {
        assert(v@.subrange(0, v@.len() as int) =~= v@);
    }
    r
}

} // verus!

