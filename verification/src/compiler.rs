//! The compiler driver: it declares the one exported entry symbol and the
//! four imported runtime symbols, then builds the entry function — allocate
//! the whole tape zero-initialized, lower the program with the allocation
//! base as the initial cursor, free the original base (never the advanced
//! cursor), and return status 0. A target backend turns the resulting
//! `CompiledUnit` into object bytes.

use vstd::prelude::*;

use crate::ir::{
    lemma_seq_cost_prefix, lemma_seq_cost_push, lemma_traces_ok_push, seq_cost,
    t_post, t_pre, trace_ok, traces_ok, unit_blocks_wf, BlockParam, BuildError, Emitter, Op,
    Terminator, Trace, ValType, VALUE_CAP,
};
use crate::program::{Instruction, Program};
use crate::EofBehaviour;

verus! {

broadcast use {vstd::seq::group_seq_axioms, vstd::std_specs::vec::group_vec_axioms};

/// The five linkage-level names of a compiled program.
#[derive(Clone, Copy, PartialEq, Eq, Structural, Debug)]
pub enum Symbol {
    Main,
    GetChar,
    PutChar,
    Calloc,
    Free,
}

impl Symbol {
    /// The linker-visible spelling of this symbol.
    pub open spec fn spec_name(&self) -> Seq<char> {
        match self {
            Symbol::Main => "main"@,
            Symbol::GetChar => "getchar"@,
            Symbol::PutChar => "putchar"@,
            Symbol::Calloc => "calloc"@,
            Symbol::Free => "free"@,
        }
    }

    pub fn name(&self) -> (r: &'static str)
        ensures
            r@ == self.spec_name(),
    {
        match self {
            Symbol::Main => "main",
            Symbol::GetChar => "getchar",
            Symbol::PutChar => "putchar",
            Symbol::Calloc => "calloc",
            Symbol::Free => "free",
        }
    }
}

/// One symbol declaration: exported or imported, with at most two
/// parameters and an optional return, all of plain value types.
#[derive(Clone, Copy, PartialEq, Eq, Structural, Debug)]
pub struct SymbolDecl {
    pub symbol: Symbol,
    pub export: bool,
    pub param0: Option<ValType>,
    pub param1: Option<ValType>,
    pub ret: Option<ValType>,
}

/// The exported entry point: no arguments, a signed 32-bit status.
pub open spec fn main_symbol() -> SymbolDecl {
    SymbolDecl { symbol: Symbol::Main, export: true, param0: None, param1: None, ret: Some(
        ValType::I32,
    ) }
}

/// The four imported runtime symbols: byte output, byte input, the
/// zero-initializing allocator, and the deallocator.
pub open spec fn external_symbols() -> Seq<SymbolDecl> {
    seq![
        SymbolDecl {
            symbol: Symbol::PutChar,
            export: false,
            param0: Some(ValType::I32),
            param1: None,
            ret: Some(ValType::I32),
        },
        SymbolDecl {
            symbol: Symbol::GetChar,
            export: false,
            param0: None,
            param1: None,
            ret: Some(ValType::I32),
        },
        SymbolDecl {
            symbol: Symbol::Calloc,
            export: false,
            param0: Some(ValType::SizeT),
            param1: Some(ValType::SizeT),
            ret: Some(ValType::Ptr),
        },
        SymbolDecl {
            symbol: Symbol::Free,
            export: false,
            param0: Some(ValType::Ptr),
            param1: None,
            ret: None,
        },
    ]
}

/// One translation unit, ready for a target backend: the entry function's
/// control-flow graph and the symbol table. `base` names the value holding
/// the original allocation base: the deallocation argument, whatever the
/// cursor did.
#[derive(Debug)]
pub struct CompiledUnit {
    pub max_array_size: usize,
    pub eof_behaviour: EofBehaviour,
    pub blocks: Vec<crate::ir::Block>,
    pub next_value: usize,
    pub base: usize,
    pub exit: usize,
    pub symbols: Vec<SymbolDecl>,
}

/// Everything `compile` promises of a translation unit: a fully sealed and
/// terminated graph; an entry block that allocates `max_array_size`
/// zero-initialized bytes and binds the base; an exit block that frees that
/// original base — not the advanced cursor — and returns the constant 0;
/// and the exact five-symbol table.
pub open spec fn unit_ok(c: Compiler, u: CompiledUnit) -> bool {
    &&& u.max_array_size == c.max_array_size
    &&& u.eof_behaviour == c.eof_behaviour
    &&& unit_blocks_wf(u.blocks@, u.next_value as int)
    &&& u.blocks@.len() >= 1
    &&& u.blocks@[0].params@ == Seq::<BlockParam>::empty()
    &&& u.blocks@[0].ops@.len() >= 3
    &&& u.blocks@[0].ops@[0] == (Op::Iconst {
        dst: 0usize,
        ty: ValType::SizeT,
        imm: c.max_array_size as i64,
    })
    &&& u.blocks@[0].ops@[1] == (Op::Iconst { dst: 1usize, ty: ValType::SizeT, imm: 1i64 })
    &&& u.blocks@[0].ops@[2] == (Op::CallCalloc { dst: 2usize, count: 0usize, size: 1usize })
    &&& u.base == 2usize
    &&& (u.exit as int) < u.blocks@.len()
    &&& u.blocks@[u.exit as int].ops@.len() >= 2
    &&& ({
        let ops = u.blocks@[u.exit as int].ops@;
        &&& ops[ops.len() - 2] == (Op::CallFree { arg: u.base })
        &&& match u.blocks@[u.exit as int].terminator {
            Some(Terminator::Return { val }) => ops[ops.len() - 1] == (Op::Iconst {
                dst: val,
                ty: ValType::I32,
                imm: 0i64,
            }),
            _ => false,
        }
    })
    &&& u.symbols@ == seq![main_symbol()] + external_symbols()
}

/// The emitter state right after the entry prologue: one sealed, pending
/// block holding exactly the three prologue ops, with the allocation base
/// (value 2) bound as the initial cursor.
pub open spec fn prologue_state(c: Compiler, e: Emitter) -> bool {
    &&& e.blocks@.len() == 1
    &&& e.blocks@[0].params@ == Seq::<BlockParam>::empty()
    &&& e.blocks@[0].ops@ == prologue_ops(c.max_array_size as i64)
    &&& e.blocks@[0].terminator is None
    &&& e.blocks@[0].sealed
    &&& e.current == 0
    &&& e.next_value == 3
    &&& e.cursor == 2
    &&& e.eof_behaviour == c.eof_behaviour
}

/// The unit is the graph the program lowered to, plus the exit epilogue:
/// the final block gains the deallocation of the original base and the
/// status constant it returns; nothing else changes.
pub open spec fn epilogue_of(e1: Emitter, u: CompiledUnit) -> bool {
    let x = e1.current as int;
    &&& 0 <= x < e1.blocks@.len()
    &&& u.exit == e1.current
    &&& u.next_value as int == e1.next_value + 1
    &&& u.blocks@.len() == e1.blocks@.len()
    &&& forall|j: int|
        0 <= j < e1.blocks@.len() && j != x ==> #[trigger] u.blocks@[j] == e1.blocks@[j]
    &&& u.blocks@[x].params@ == e1.blocks@[x].params@
    &&& u.blocks@[x].ops@ == e1.blocks@[x].ops@ + seq![
        Op::CallFree { arg: 2usize },
        Op::Iconst { dst: e1.next_value, ty: ValType::I32, imm: 0i64 },
    ]
    &&& u.blocks@[x].terminator == Some(Terminator::Return { val: e1.next_value })
}

/// The ahead-of-time engine's configuration: the preallocated tape size and
/// the end-of-stream policy, shared with the interpreter by design.
#[derive(Clone, Copy, PartialEq, Eq, Structural, Debug)]
pub struct Compiler {
    pub max_array_size: usize,
    pub eof_behaviour: EofBehaviour,
}

impl Compiler {
    pub fn new(max_array_size: usize, eof_behaviour: EofBehaviour) -> (r: Compiler)
        ensures
            r.max_array_size == max_array_size,
            r.eof_behaviour == eof_behaviour,
    {
        Compiler { max_array_size, eof_behaviour }
    }

    /// The symbol table: the exported entry point and the four imports.
    fn declare_external_functions(&self) -> (r: Vec<SymbolDecl>)
        ensures
            r@ == seq![main_symbol()] + external_symbols(),
    {
        let mut symbols: Vec<SymbolDecl> = Vec::new();
        symbols.push(
            SymbolDecl {
                symbol: Symbol::Main,
                export: true,
                param0: None,
                param1: None,
                ret: Some(ValType::I32),
            },
        );
        symbols.push(
            SymbolDecl {
                symbol: Symbol::PutChar,
                export: false,
                param0: Some(ValType::I32),
                param1: None,
                ret: Some(ValType::I32),
            },
        );
        symbols.push(
            SymbolDecl {
                symbol: Symbol::GetChar,
                export: false,
                param0: None,
                param1: None,
                ret: Some(ValType::I32),
            },
        );
        symbols.push(
            SymbolDecl {
                symbol: Symbol::Calloc,
                export: false,
                param0: Some(ValType::SizeT),
                param1: Some(ValType::SizeT),
                ret: Some(ValType::Ptr),
            },
        );
        symbols.push(
            SymbolDecl {
                symbol: Symbol::Free,
                export: false,
                param0: Some(ValType::Ptr),
                param1: None,
                ret: None,
            },
        );
        proof {
            assert(symbols@ =~= seq![main_symbol()] + external_symbols());
        }
        symbols
    }

    /// Lower a whole program into one translation unit: on success the
    /// graph is the prologue state stepped through every instruction of
    /// the program in order (a lowering trace exists), plus the epilogue;
    /// failure happens only when the program's value-id demand exceeds the
    /// machine word.
    pub fn compile(&self, program: &Program) -> (r: Result<CompiledUnit, BuildError>)
        requires
            1 <= self.max_array_size,
            self.max_array_size as int <= i64::MAX as int,
        ensures
            (r matches Ok(u) ==> unit_ok(*self, u)),
            (r matches Ok(u) ==> exists|ts: Seq<Trace>, e0: Emitter, e1: Emitter| {
                &&& prologue_state(*self, e0)
                &&& #[trigger] traces_ok(ts, program.instructions@, e0, e1)
                &&& epilogue_of(e1, u)
            }),
            (r matches Err(_) ==> 3 + seq_cost(program.instructions@, self.eof_behaviour)
                > VALUE_CAP as int),
    {
        let mut e = Emitter::new(self.eof_behaviour);

        // entry: allocate the zeroed tape, bind the base as the cursor
        let n = e.alloc_value();
        let one = e.alloc_value();
        let base = e.alloc_value();
        e.push_op(Op::Iconst { dst: n, ty: ValType::SizeT, imm: self.max_array_size as i64 });
        e.push_op(Op::Iconst { dst: one, ty: ValType::SizeT, imm: 1 });
        e.push_op(Op::CallCalloc { dst: base, count: n, size: one });
        e.cursor = base;
        let ghost e0 = e;
        let ghost mut ts: Seq<Trace> = Seq::empty();
        proof {
            assert(e.blocks@[0].ops@ =~= prologue_ops(self.max_array_size as i64));
            assert(prologue_state(*self, e0));
            assert(program.instructions@.subrange(0, 0) =~= Seq::<Instruction>::empty());
            assert(traces_ok(ts, program.instructions@.subrange(0, 0), e0, e));
        }

        let mut idx: usize = 0;
        while idx < program.instructions.len()
            invariant
                e.wf(),
                e.cursor_ok(),
                0 <= idx <= program.instructions.len(),
                3 <= e.next_value,
                e.eof_behaviour == self.eof_behaviour,
                e.blocks@.len() >= 1,
                e.blocks@[0].params@ == Seq::<BlockParam>::empty(),
                e.blocks@[0].ops@.len() >= 3,
                e.blocks@[0].ops@.subrange(0, 3) == prologue_ops(self.max_array_size as i64),
                traces_ok(ts, program.instructions@.subrange(0, idx as int), e0, e),
                e.next_value as int <= 3 + seq_cost(
                    program.instructions@.subrange(0, idx as int),
                    self.eof_behaviour,
                ),
                forall|j: int| 0 <= j < e.blocks@.len() ==> (#[trigger] e.blocks@[j]).sealed,
                forall|j: int|
                    0 <= j < e.blocks@.len() && j != e.current as int ==> (#[trigger] e.blocks@[
                        j
                    ].terminator) is Some,
            decreases program.instructions.len() - idx,
        {
            let ghost before = e;
            let r = e.emit(&program.instructions[idx]);
            proof {
                assert(program.instructions@.subrange(0, idx as int + 1)
                    =~= program.instructions@.subrange(0, idx as int).push(
                    program.instructions@[idx as int],
                ));
                lemma_seq_cost_push(
                    program.instructions@.subrange(0, idx as int),
                    program.instructions@[idx as int],
                    self.eof_behaviour,
                );
            }
            match r {
                Ok(()) => {},
                Err(err) => {
                    proof {
                        lemma_seq_cost_prefix(
                            program.instructions@,
                            idx as int + 1,
                            self.eof_behaviour,
                        );
                    }
                    return Err(err);
                },
            }
            proof {
                let ti = choose|t: Trace|
                    #[trigger] trace_ok(t, program.instructions@[idx as int]) && t_pre(t) == before
                        && t_post(t) == e;
                lemma_traces_ok_push(
                    ts,
                    program.instructions@.subrange(0, idx as int),
                    e0,
                    before,
                    ti,
                    program.instructions@[idx as int],
                );
                ts = ts.push(ti);
                if before.current == 0 {
                    assert(e.blocks@[0].ops@.subrange(0, 3) =~= before.blocks@[0].ops@.subrange(
                        0,
                        3,
                    ));
                }
            }
            idx = idx + 1;
        }

        // exit: free the original allocation base, return status 0
        proof {
            assert(program.instructions@.subrange(0, program.instructions@.len() as int)
                =~= program.instructions@);
        }
        if e.next_value > VALUE_CAP {
            return Err(BuildError::ValueLimit);
        }
        let ghost before_exit = e;
        e.push_op(Op::CallFree { arg: base });
        let zero = e.alloc_value();
        e.push_op(Op::Iconst { dst: zero, ty: ValType::I32, imm: 0 });
        let exit = e.current;
        e.set_terminator(exit, Terminator::Return { val: zero });

        let symbols = self.declare_external_functions();
        let u = CompiledUnit {
            max_array_size: self.max_array_size,
            eof_behaviour: self.eof_behaviour,
            blocks: e.blocks,
            next_value: e.next_value,
            base,
            exit,
            symbols,
        };
        proof {
            let ops = u.blocks@[u.exit as int].ops@;
            assert(ops[ops.len() - 2] == (Op::CallFree { arg: base }));
            assert(u.blocks@[u.exit as int].ops@ =~= before_exit.blocks@[before_exit.current as int].ops@
                + seq![
                Op::CallFree { arg: 2usize },
                Op::Iconst { dst: before_exit.next_value, ty: ValType::I32, imm: 0i64 },
            ]);
            assert(epilogue_of(before_exit, u));
            assert(traces_ok(ts, program.instructions@, e0, before_exit));
            assert(u.blocks@[0].ops@.subrange(0, 3) == prologue_ops(self.max_array_size as i64));
            assert(u.blocks@[0].ops@[0] == prologue_ops(self.max_array_size as i64)[0]);
            assert(u.blocks@[0].ops@[1] == prologue_ops(self.max_array_size as i64)[1]);
            assert(u.blocks@[0].ops@[2] == prologue_ops(self.max_array_size as i64)[2]);
            assert forall|j: int| 0 <= j < u.blocks@.len() implies {
                &&& crate::ir::block_wf(#[trigger] u.blocks@[j], u.next_value as int, u.blocks@)
                &&& u.blocks@[j].sealed
                &&& u.blocks@[j].terminator is Some
            } by {
                assert(crate::ir::block_wf(
                    before_exit.blocks@[j],
                    before_exit.next_value as int,
                    before_exit.blocks@,
                ));
                crate::ir::lemma_block_wf_grow(
                    before_exit.blocks@[j],
                    before_exit.next_value as int,
                    u.next_value as int,
                    before_exit.blocks@,
                    u.blocks@,
                );
            }
        }
        Ok(u)
    }
}

/// The three entry ops: the tape size, the unit cell size, the allocation.
pub open spec fn prologue_ops(max_imm: i64) -> Seq<Op> {
    seq![
        Op::Iconst { dst: 0usize, ty: ValType::SizeT, imm: max_imm },
        Op::Iconst { dst: 1usize, ty: ValType::SizeT, imm: 1i64 },
        Op::CallCalloc { dst: 2usize, count: 0usize, size: 1usize },
    ]
}

} // verus!
