//! The abstract program tree shared by both engines.

use vstd::prelude::*;

verus! {

/// One instruction of the language. `Loop` is the only recursive variant:
/// its body is an ordered, possibly empty sequence of instructions, and it
/// repeats that body while the byte under the cursor is nonzero.
#[derive(Debug)]
pub enum Instruction {
    Increment,
    Decrement,
    Right,
    Left,
    Output,
    Input,
    Loop(Vec<Instruction>),
    Debug,
}

/// An ordered sequence of top-level instructions, immutable once built.
#[derive(Debug)]
pub struct Program {
    pub instructions: Vec<Instruction>,
}


/// The nine instruction bytes and the line separator, as ASCII codes.
pub const PLUS: u8 = 43;
pub const MINUS: u8 = 45;
pub const GREATER: u8 = 62;
pub const LESS: u8 = 60;
pub const DOT: u8 = 46;
pub const COMMA: u8 = 44;
pub const OPEN: u8 = 91;
pub const CLOSE: u8 = 93;
pub const HASH: u8 = 35;
pub const NEWLINE: u8 = 10;

/// The canonical source rendering of one instruction: its token byte, with
/// a loop rendered as `[`, its body, `]`.
pub open spec fn flatten_instr(i: Instruction) -> Seq<u8>
    decreases i,
{
    match i {
        Instruction::Increment => seq![PLUS],
        Instruction::Decrement => seq![MINUS],
        Instruction::Right => seq![GREATER],
        Instruction::Left => seq![LESS],
        Instruction::Output => seq![DOT],
        Instruction::Input => seq![COMMA],
        Instruction::Debug => seq![HASH],
        Instruction::Loop(body) => seq![OPEN] + flatten_instrs(body@) + seq![CLOSE],
    }
}

/// The canonical source rendering of an instruction sequence.
pub open spec fn flatten_instrs(s: Seq<Instruction>) -> Seq<u8>
    decreases s,
{
    if s.len() == 0 {
        Seq::empty()
    } else {
        flatten_instr(s[0]) + flatten_instrs(s.subrange(1, s.len() as int))
    }
}

/// Appending an instruction appends its rendering.
pub proof fn lemma_flatten_instrs_push(s: Seq<Instruction>, x: Instruction)
    ensures
        flatten_instrs(s.push(x)) == flatten_instrs(s) + flatten_instr(x),
    decreases s.len(),
{
    broadcast use vstd::seq::group_seq_axioms;

    if s.len() == 0 {
        assert(s.push(x).subrange(1, 1) =~= Seq::<Instruction>::empty());
        assert(s.push(x)[0] == x);
        assert(flatten_instrs(s.push(x).subrange(1, 1)) == Seq::<u8>::empty());
        assert(flatten_instrs(s.push(x)) == flatten_instr(x) + flatten_instrs(
            s.push(x).subrange(1, 1),
        ));
        assert(flatten_instrs(s) == Seq::<u8>::empty());
        assert(flatten_instr(x) + Seq::<u8>::empty() =~= Seq::<u8>::empty() + flatten_instr(x));
        assert(flatten_instrs(s.push(x)) == flatten_instrs(s) + flatten_instr(x));
    } else {
        assert(s.push(x).subrange(1, s.len() as int + 1) =~= s.subrange(1, s.len() as int).push(x));
        lemma_flatten_instrs_push(s.subrange(1, s.len() as int), x);
        assert(s.push(x)[0] == s[0]);
        assert(flatten_instrs(s.push(x)) == flatten_instr(s[0]) + flatten_instrs(
            s.subrange(1, s.len() as int).push(x),
        ));
        let f0 = flatten_instr(s[0]);
        let fr = flatten_instrs(s.subrange(1, s.len() as int));
        let fx = flatten_instr(x);
        assert(flatten_instrs(s) == f0 + fr);
        assert(f0 + (fr + fx) =~= (f0 + fr) + fx);
        assert(flatten_instrs(s.push(x)) == flatten_instrs(s) + flatten_instr(x));
    }
}

} // verus!
