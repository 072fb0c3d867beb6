//! The reference semantics: a fueled, deterministic big-step evaluator over
//! a mathematical machine state. The interpreter's contracts are stated
//! against `run_seq` and `run_instr`; fuel is consumed only when a loop
//! re-enters its body, so for any terminating run some fuel suffices and
//! the outcome is the same for every sufficient fuel (`lemma_run_instr_fuel_mono`).

use vstd::prelude::*;

use crate::program::Instruction;
use crate::EofBehaviour;

verus! {

broadcast use {vstd::seq::group_seq_axioms, vstd::std_specs::vec::group_vec_axioms};

/// A fatal bounds fault: the cursor was asked to move below index zero or
/// to reach the configured maximum tape size.
#[derive(Clone, Copy, PartialEq, Eq, Structural, Debug)]
pub enum RuntimeError {
    MovedRightOutOfBounds,
    MovedLeftOutOfBounds,
}

/// The run-wide configuration: the maximum tape size, the end-of-stream
/// policy, and the whole input stream as a sequence of bytes.
pub struct RunConfig {
    pub max: int,
    pub eof: EofBehaviour,
    pub input: Seq<u8>,
}

/// The mathematical state of one run: the tape, the cursor, how much of the
/// input stream has been consumed, the bytes written so far, and the
/// diagnostic dumps (tape and cursor) taken so far.
#[verifier::ext_equal]
pub struct MachineState {
    pub tape: Seq<u8>,
    pub ptr: int,
    pub in_pos: int,
    pub out: Seq<u8>,
    pub dumps: Seq<(Seq<u8>, int)>,
}

/// The result of a fueled run: normal completion, a bounds fault, or fuel
/// exhaustion, each carrying the machine state it stopped in.
pub enum RunOutcome {
    Done(MachineState),
    Failed(RuntimeError, MachineState),
    OutOfSteps(MachineState),
}

pub open spec fn state_wf(c: RunConfig, s: MachineState) -> bool {
    &&& 1 <= c.max
    &&& 0 <= s.ptr < s.tape.len() <= c.max
    &&& 0 <= s.in_pos <= c.input.len()
}

/// The byte under the cursor.
pub open spec fn cur(s: MachineState) -> u8 {
    s.tape[s.ptr]
}

/// Eight-bit increment with wraparound: 255 goes to 0.
pub open spec fn wrap_inc(b: u8) -> u8 {
    if b == 255 {
        0u8
    } else {
        (b + 1) as u8
    }
}

/// Eight-bit decrement with wraparound: 0 goes to 255.
pub open spec fn wrap_dec(b: u8) -> u8 {
    if b == 0 {
        255u8
    } else {
        (b - 1) as u8
    }
}

pub open spec fn step_increment(s: MachineState) -> MachineState {
    MachineState { tape: s.tape.update(s.ptr, wrap_inc(cur(s))), ..s }
}

pub open spec fn step_decrement(s: MachineState) -> MachineState {
    MachineState { tape: s.tape.update(s.ptr, wrap_dec(cur(s))), ..s }
}

/// The tape after a rightward move: when the cursor sits on the last
/// allocated cell and the maximum has not been reached, the tape doubles
/// (capped at the maximum) and the new cells are zero.
pub open spec fn grown_tape(s: MachineState, max: int) -> Seq<u8> {
    if s.ptr == s.tape.len() - 1 && s.tape.len() < max {
        let new_len = if 2 * s.tape.len() <= max {
            2 * s.tape.len() as int
        } else {
            max
        };
        s.tape + Seq::new((new_len - s.tape.len()) as nat, |i: int| 0u8)
    } else {
        s.tape
    }
}

pub open spec fn step_right(c: RunConfig, s: MachineState) -> RunOutcome {
    if s.ptr + 1 >= c.max {
        RunOutcome::Failed(RuntimeError::MovedRightOutOfBounds, s)
    } else {
        RunOutcome::Done(MachineState { tape: grown_tape(s, c.max), ptr: s.ptr + 1, ..s })
    }
}

pub open spec fn step_left(s: MachineState) -> RunOutcome {
    if s.ptr == 0 {
        RunOutcome::Failed(RuntimeError::MovedLeftOutOfBounds, s)
    } else {
        RunOutcome::Done(MachineState { ptr: s.ptr - 1, ..s })
    }
}

/// Output appends the raw byte under the cursor to the output stream.
pub open spec fn step_output(s: MachineState) -> MachineState {
    MachineState { out: s.out.push(cur(s)), ..s }
}

/// Input overwrites the current cell with the next input byte; at
/// end-of-stream the configured policy decides between leaving the cell
/// unchanged and zeroing it.
pub open spec fn step_input(c: RunConfig, s: MachineState) -> MachineState {
    if s.in_pos < c.input.len() {
        MachineState {
            tape: s.tape.update(s.ptr, c.input[s.in_pos]),
            in_pos: s.in_pos + 1,
            ..s
        }
    } else {
        match c.eof {
            EofBehaviour::Ignore => s,
            EofBehaviour::Zero => MachineState { tape: s.tape.update(s.ptr, 0u8), ..s },
        }
    }
}

/// Debug records the full tape and the cursor; it alters nothing else.
pub open spec fn step_debug(s: MachineState) -> MachineState {
    MachineState { dumps: s.dumps.push((s.tape, s.ptr)), ..s }
}

/// Run one instruction. Fuel is spent only when a loop whose current byte
/// is nonzero enters an iteration; every other instruction is a single step.
pub open spec fn run_instr(c: RunConfig, s: MachineState, i: Instruction, fuel: nat) -> RunOutcome
    decreases fuel, i,
{
    match i {
        Instruction::Increment => RunOutcome::Done(step_increment(s)),
        Instruction::Decrement => RunOutcome::Done(step_decrement(s)),
        Instruction::Right => step_right(c, s),
        Instruction::Left => step_left(s),
        Instruction::Output => RunOutcome::Done(step_output(s)),
        Instruction::Input => RunOutcome::Done(step_input(c, s)),
        Instruction::Debug => RunOutcome::Done(step_debug(s)),
        Instruction::Loop(body) => {
            if cur(s) == 0 {
                RunOutcome::Done(s)
            } else if fuel == 0 {
                RunOutcome::OutOfSteps(s)
            } else {
                match run_seq(c, s, body@, (fuel - 1) as nat) {
                    RunOutcome::Done(s1) => run_instr(c, s1, i, (fuel - 1) as nat),
                    r => r,
                }
            }
        },
    }
}

/// Run a sequence of instructions strictly in order, stopping at the first
/// fault or fuel exhaustion.
pub open spec fn run_seq(c: RunConfig, s: MachineState, instrs: Seq<Instruction>, fuel: nat) -> RunOutcome
    decreases fuel, instrs,
{
    if instrs.len() == 0 {
        RunOutcome::Done(s)
    } else {
        match run_instr(c, s, instrs[0], fuel) {
            RunOutcome::Done(s1) => run_seq(c, s1, instrs.subrange(1, instrs.len() as int), fuel),
            r => r,
        }
    }
}

pub open spec fn out_of_steps(r: RunOutcome) -> bool {
    r matches RunOutcome::OutOfSteps(_)
}

/// Law: eight-bit increment then decrement on the same byte is the
/// identity, across the wraparound at 255 and 0.
pub proof fn lemma_wrap_round_trip(b: u8)
    ensures
        wrap_dec(wrap_inc(b)) == b,
        wrap_inc(wrap_dec(b)) == b,
{
}

/// Law, semantic form: running `Increment` then `Decrement` from any
/// well-formed state gives back exactly the starting state, whatever the fuel.
pub proof fn lemma_increment_decrement_noop(c: RunConfig, s: MachineState, fuel: nat)
    requires
        state_wf(c, s),
    ensures
        run_seq(c, s, seq![Instruction::Increment, Instruction::Decrement], fuel)
            == RunOutcome::Done(s),
{
    let prog = seq![Instruction::Increment, Instruction::Decrement];
    let s1 = step_increment(s);
    let s2 = step_decrement(s1);
    assert(cur(s1) == wrap_inc(cur(s)));
    lemma_wrap_round_trip(cur(s));
    assert(s2.tape =~= s.tape);
    assert(s2 =~= s);
    let rest = prog.subrange(1, 2);
    assert(rest[0] == Instruction::Decrement);
    assert(rest.subrange(1, 1) =~= Seq::<Instruction>::empty());
    assert(run_seq(c, s2, rest.subrange(1, 1), fuel) == RunOutcome::Done(s2));
    assert(prog[0] == Instruction::Increment);
    assert(run_instr(c, s, Instruction::Increment, fuel) == RunOutcome::Done(s1));
    assert(run_instr(c, s1, Instruction::Decrement, fuel) == RunOutcome::Done(s2));
    assert(run_seq(c, s1, rest, fuel) == RunOutcome::Done(s2));
    assert(run_seq(c, s, prog, fuel) == RunOutcome::Done(s2));
}

/// Law: a rightward move never discards tape contents. When it succeeds,
/// every previously allocated cell keeps its byte (growth only appends
/// zeroed cells), so a byte written at an index is still there after any
/// number of growth steps.
pub proof fn lemma_right_preserves_tape(c: RunConfig, s: MachineState)
    requires
        state_wf(c, s),
    ensures
        (step_right(c, s) matches RunOutcome::Done(s1) ==> {
            &&& s.tape.len() <= s1.tape.len()
            &&& forall|j: int| 0 <= j < s.tape.len() ==> s1.tape[j] == s.tape[j]
        }),
{
}

/// Law: a loop whose current byte is zero executes its body zero times:
/// it returns the state unchanged, for any body and any fuel.
pub proof fn lemma_loop_at_zero(c: RunConfig, s: MachineState, body: Vec<Instruction>, fuel: nat)
    requires
        cur(s) == 0,
    ensures
        run_instr(c, s, Instruction::Loop(body), fuel) == RunOutcome::Done(s),
{
}

/// Law: a read past the end of the input stream leaves the machine state
/// exactly as it was under policy Ignore, and under policy Zero changes
/// nothing but the current cell, which becomes zero.
pub proof fn lemma_eof_policies(c: RunConfig, s: MachineState)
    requires
        state_wf(c, s),
        s.in_pos >= c.input.len(),
    ensures
        c.eof == EofBehaviour::Ignore ==> step_input(c, s) == s,
        c.eof == EofBehaviour::Zero ==> step_input(c, s)
            == (MachineState { tape: s.tape.update(s.ptr, 0u8), ..s }),
{
}

/// Law, observable form: once the input stream is drained, `Input` then
/// `Output` emits the pre-read byte under policy Ignore and the byte 0
/// under policy Zero.
pub proof fn lemma_eof_input_output(c: RunConfig, s: MachineState, fuel: nat)
    requires
        state_wf(c, s),
        s.in_pos >= c.input.len(),
    ensures
        run_seq(c, s, seq![Instruction::Input, Instruction::Output], fuel)
            == RunOutcome::Done(step_output(step_input(c, s))),
        c.eof == EofBehaviour::Ignore ==> step_output(step_input(c, s)).out
            == s.out.push(cur(s)),
        c.eof == EofBehaviour::Zero ==> step_output(step_input(c, s)).out == s.out.push(0u8),
{
    let prog = seq![Instruction::Input, Instruction::Output];
    let s1 = step_input(c, s);
    let s2 = step_output(s1);
    let rest = prog.subrange(1, 2);
    assert(rest[0] == Instruction::Output);
    assert(rest.subrange(1, 1) =~= Seq::<Instruction>::empty());
    assert(run_seq(c, s2, rest.subrange(1, 1), fuel) == RunOutcome::Done(s2));
    assert(prog[0] == Instruction::Input);
    assert(run_instr(c, s, Instruction::Input, fuel) == RunOutcome::Done(s1));
    assert(run_instr(c, s1, Instruction::Output, fuel) == RunOutcome::Done(s2));
    assert(run_seq(c, s1, rest, fuel) == RunOutcome::Done(s2));
    assert(run_seq(c, s, prog, fuel) == RunOutcome::Done(s2));
}

/// Law: fuel only decides whether a run finishes; it never changes the
/// verdict or the final state. Any two fuels sufficient for an instruction
/// give the same outcome.
pub proof fn lemma_run_instr_fuel_mono(
    c: RunConfig,
    s: MachineState,
    i: Instruction,
    f1: nat,
    f2: nat,
)
    requires
        f1 <= f2,
        !out_of_steps(run_instr(c, s, i, f1)),
    ensures
        run_instr(c, s, i, f2) == run_instr(c, s, i, f1),
    decreases f1, i,
{
    match i {
        Instruction::Loop(body) => {
            if cur(s) != 0 {
                assert(f1 > 0);
                let r1 = run_seq(c, s, body@, (f1 - 1) as nat);
                match r1 {
                    RunOutcome::Done(s1) => {
                        lemma_run_seq_fuel_mono(c, s, body@, (f1 - 1) as nat, (f2 - 1) as nat);
                        lemma_run_instr_fuel_mono(c, s1, i, (f1 - 1) as nat, (f2 - 1) as nat);
                    },
                    RunOutcome::Failed(_, _) => {
                        lemma_run_seq_fuel_mono(c, s, body@, (f1 - 1) as nat, (f2 - 1) as nat);
                    },
                    RunOutcome::OutOfSteps(_) => {},
                }
            }
        },
        _ => {},
    }
}

/// Law: the semantics is deterministic. Any two step budgets under which a
/// program finishes give exactly the same verdict, final state and output
/// stream — so for a given program and input stream there is one observable
/// behaviour, the one both engines are held to.
pub proof fn lemma_run_deterministic(
    c: RunConfig,
    s: MachineState,
    instrs: Seq<Instruction>,
    f1: nat,
    f2: nat,
)
    requires
        !out_of_steps(run_seq(c, s, instrs, f1)),
        !out_of_steps(run_seq(c, s, instrs, f2)),
    ensures
        run_seq(c, s, instrs, f1) == run_seq(c, s, instrs, f2),
{
    if f1 <= f2 {
        lemma_run_seq_fuel_mono(c, s, instrs, f1, f2);
    } else {
        lemma_run_seq_fuel_mono(c, s, instrs, f2, f1);
    }
}

/// Law: as `lemma_run_instr_fuel_mono`, for instruction sequences.
pub proof fn lemma_run_seq_fuel_mono(
    c: RunConfig,
    s: MachineState,
    instrs: Seq<Instruction>,
    f1: nat,
    f2: nat,
)
    requires
        f1 <= f2,
        !out_of_steps(run_seq(c, s, instrs, f1)),
    ensures
        run_seq(c, s, instrs, f2) == run_seq(c, s, instrs, f1),
    decreases f1, instrs,
{
    if instrs.len() > 0 {
        let r0 = run_instr(c, s, instrs[0], f1);
        match r0 {
            RunOutcome::Done(s1) => {
                lemma_run_instr_fuel_mono(c, s, instrs[0], f1, f2);
                lemma_run_seq_fuel_mono(
                    c,
                    s1,
                    instrs.subrange(1, instrs.len() as int),
                    f1,
                    f2,
                );
            },
            RunOutcome::Failed(_, _) => {
                lemma_run_instr_fuel_mono(c, s, instrs[0], f1, f2);
            },
            RunOutcome::OutOfSteps(_) => {},
        }
    }
}

} // verus!
