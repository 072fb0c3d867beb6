//! The control-flow-graph intermediate representation and its builder.
//!
//! The tape cursor is never a mutable variable here: it is a value passed as
//! a parameter into every block and merged again at every join point. Blocks
//! carry an explicit sealed/pending status: a branch may target only a block
//! whose predecessor set is still open, and a finished function has every
//! block sealed and terminated (`unit_blocks_wf`). A target backend walks
//! this graph and the symbol table (`crate::compiler::SymbolDecl`) to emit
//! the object bytes.

use vstd::prelude::*;

use crate::program::Instruction;
use crate::EofBehaviour;

verus! {

broadcast use {vstd::seq::group_seq_axioms, vstd::std_specs::vec::group_vec_axioms};

/// The value types a block parameter or constant can have; the backend maps
/// `SizeT` and `Ptr` to the target's pointer-sized integer.
#[derive(Clone, Copy, PartialEq, Eq, Structural, Debug)]
pub enum ValType {
    I8,
    I32,
    SizeT,
    Ptr,
}

/// One non-branching instruction of the graph, in static single assignment
/// form: `dst` names a fresh value. The four runtime calls are the only
/// calls the language needs: byte input, byte output, a zero-initializing
/// allocator, and the deallocator.
#[derive(Clone, Copy, PartialEq, Eq, Structural, Debug)]
pub enum Op {
    Iconst { dst: usize, ty: ValType, imm: i64 },
    IaddImm { dst: usize, src: usize, imm: i64 },
    LoadByte { dst: usize, addr: usize },
    SloadByte { dst: usize, addr: usize },
    StoreByte { val: usize, addr: usize },
    IcmpEq { dst: usize, a: usize, b: usize },
    CallGetChar { dst: usize },
    CallPutChar { arg: usize },
    CallCalloc { dst: usize, count: usize, size: usize },
    CallFree { arg: usize },
}

/// A block parameter: a fresh value of a given type, bound on every entry.
#[derive(Clone, Copy, PartialEq, Eq, Structural, Debug)]
pub struct BlockParam {
    pub val: usize,
    pub ty: ValType,
}

/// How a block ends. Every edge hands the target its parameter values
/// explicitly; there is no fallthrough.
#[derive(Debug)]
pub enum Terminator {
    Jump { target: usize, args: Vec<usize> },
    BranchNonZero {
        cond: usize,
        then_target: usize,
        then_args: Vec<usize>,
        else_target: usize,
        else_args: Vec<usize>,
    },
    Return { val: usize },
}

/// One block: parameters, straight-line ops, an optional terminator, and
/// the sealed flag (true once all predecessors are known).
#[derive(Debug)]
pub struct Block {
    pub params: Vec<BlockParam>,
    pub ops: Vec<Op>,
    pub terminator: Option<Terminator>,
    pub sealed: bool,
}

/// Lowering fails only when the value-id counter would no longer fit the
/// machine word: a machine limit, not a property of any program.
#[derive(Clone, Copy, PartialEq, Eq, Structural, Debug)]
pub enum BuildError {
    ValueLimit,
}

/// Ids this close to the top of `usize` are never handed out.
pub const VALUE_CAP: usize = usize::MAX - 16;

pub open spec fn op_wf(op: Op, nv: int) -> bool {
    match op {
        Op::Iconst { dst, ty, imm } => dst < nv,
        Op::IaddImm { dst, src, imm } => dst < nv && src < nv,
        Op::LoadByte { dst, addr } => dst < nv && addr < nv,
        Op::SloadByte { dst, addr } => dst < nv && addr < nv,
        Op::StoreByte { val, addr } => val < nv && addr < nv,
        Op::IcmpEq { dst, a, b } => dst < nv && a < nv && b < nv,
        Op::CallGetChar { dst } => dst < nv,
        Op::CallPutChar { arg } => arg < nv,
        Op::CallCalloc { dst, count, size } => dst < nv && count < nv && size < nv,
        Op::CallFree { arg } => arg < nv,
    }
}

pub open spec fn args_wf(args: Seq<usize>, nv: int) -> bool {
    forall|k: int| 0 <= k < args.len() ==> (#[trigger] args[k]) < nv
}

/// An edge is well formed when its target exists and receives exactly one
/// argument per declared parameter.
pub open spec fn edge_wf(target: usize, args: Seq<usize>, nv: int, blocks: Seq<Block>) -> bool {
    &&& target < blocks.len()
    &&& args_wf(args, nv)
    &&& args.len() == blocks[target as int].params@.len()
}

pub open spec fn term_wf(t: Terminator, nv: int, blocks: Seq<Block>) -> bool {
    match t {
        Terminator::Jump { target, args } => edge_wf(target, args@, nv, blocks),
        Terminator::BranchNonZero { cond, then_target, then_args, else_target, else_args } => {
            &&& cond < nv
            &&& edge_wf(then_target, then_args@, nv, blocks)
            &&& edge_wf(else_target, else_args@, nv, blocks)
        },
        Terminator::Return { val } => val < nv,
    }
}

pub open spec fn block_wf(b: Block, nv: int, blocks: Seq<Block>) -> bool {
    &&& forall|k: int| 0 <= k < b.params@.len() ==> (#[trigger] b.params@[k]).val < nv
    &&& forall|k: int| 0 <= k < b.ops@.len() ==> op_wf(#[trigger] b.ops@[k], nv)
    &&& match b.terminator {
        Some(t) => term_wf(t, nv, blocks),
        None => true,
    }
}

/// A finished function: every block is sealed, terminated, and refers only
/// to existing values and blocks.
pub open spec fn unit_blocks_wf(blocks: Seq<Block>, nv: int) -> bool {
    forall|j: int|
        0 <= j < blocks.len() ==> {
            &&& block_wf(#[trigger] blocks[j], nv, blocks)
            &&& blocks[j].sealed
            &&& blocks[j].terminator is Some
        }
}

/// The lowering context: the blocks built so far, the block under
/// construction, the next fresh value id, and the value currently holding
/// the tape cursor. The current block is always sealed (its predecessors
/// are all known by the time it is entered) and not yet terminated; the
/// only other unterminated blocks are the pending exit blocks of loops
/// whose bodies are still being lowered (`closes`).
#[derive(Debug)]
pub struct Emitter {
    pub blocks: Vec<Block>,
    pub current: usize,
    pub next_value: usize,
    pub cursor: usize,
    pub eof_behaviour: EofBehaviour,
}

impl Emitter {
    pub open spec fn wf(&self) -> bool {
        &&& (self.current as int) < self.blocks@.len()
        &&& forall|j: int|
            0 <= j < self.blocks@.len() ==> block_wf(
                #[trigger] self.blocks@[j],
                self.next_value as int,
                self.blocks@,
            )
        &&& self.blocks@[self.current as int].terminator is None
        &&& self.blocks@[self.current as int].sealed
    }

    /// Lowering never leaves stray unterminated blocks: afterwards, a block
    /// without a terminator is the new current block or was already pending
    /// before (the exit block of an enclosing loop still being built).
    pub open spec fn closes(&self, o: &Emitter) -> bool {
        forall|j: int|
            0 <= j < self.blocks@.len() && (#[trigger] self.blocks@[j].terminator) is None ==> {
                ||| j == self.current as int
                ||| (j < o.blocks@.len() && j != o.current as int && o.blocks@[j].terminator
                    is None)
            }
    }

    /// The cursor names an existing value.
    pub open spec fn cursor_ok(&self) -> bool {
        (self.cursor as int) < self.next_value as int
    }

    /// Blocks other than the one under construction are never touched again
    /// by later lowering steps.
    pub open spec fn frames(&self, o: &Emitter) -> bool {
        &&& o.blocks@.len() <= self.blocks@.len()
        &&& forall|j: int|
            0 <= j < o.blocks@.len() && j != o.current as int ==> #[trigger] self.blocks@[j]
                == o.blocks@[j]
        &&& self.blocks@[o.current as int].params@ == o.blocks@[o.current as int].params@
        &&& o.next_value <= self.next_value
        &&& self.eof_behaviour == o.eof_behaviour
    }

    /// A fresh emitter: one empty, sealed entry block; no values yet.
    pub fn new(eof_behaviour: EofBehaviour) -> (r: Emitter)
        ensures
            r.wf(),
            r.blocks@.len() == 1,
            r.blocks@[0].params@ == Seq::<BlockParam>::empty(),
            r.blocks@[0].ops@ == Seq::<Op>::empty(),
            r.next_value == 0,
            r.eof_behaviour == eof_behaviour,
    {
        let entry = Block { params: Vec::new(), ops: Vec::new(), terminator: None, sealed: true };
        let mut blocks: Vec<Block> = Vec::new();
        blocks.push(entry);
        Emitter { blocks, current: 0, next_value: 0, cursor: 0, eof_behaviour }
    }

    /// A fresh value id.
    pub(crate) fn alloc_value(&mut self) -> (v: usize)
        requires
            old(self).next_value < usize::MAX,
        ensures
            v == old(self).next_value,
            *final(self) == (Emitter { next_value: (old(self).next_value + 1) as usize, ..*old(self) }),
    {
        let v = self.next_value;
        self.next_value = self.next_value + 1;
        v
    }

    /// Append one op to the block under construction.
    pub(crate) fn push_op(&mut self, op: Op)
        requires
            (old(self).current as int) < old(self).blocks@.len(),
        ensures
            final(self).blocks@.len() == old(self).blocks@.len(),
            ({
                let c = old(self).current as int;
                &&& final(self).blocks@[c].ops@ == old(self).blocks@[c].ops@.push(op)
                &&& final(self).blocks@[c].params@ == old(self).blocks@[c].params@
                &&& final(self).blocks@[c].terminator == old(self).blocks@[c].terminator
                &&& final(self).blocks@[c].sealed == old(self).blocks@[c].sealed
            }),
            forall|j: int|
                0 <= j < old(self).blocks@.len() && j != old(self).current as int
                    ==> #[trigger] final(self).blocks@[j] == old(self).blocks@[j],
            final(self).current == old(self).current,
            final(self).next_value == old(self).next_value,
            final(self).cursor == old(self).cursor,
            final(self).eof_behaviour == old(self).eof_behaviour,
    {
        let cur = self.current;
        self.blocks[cur].ops.push(op);
    }

    /// Add a new, pending (unsealed), unterminated block.
    pub(crate) fn create_block(&mut self, params: Vec<BlockParam>) -> (b: usize)
        ensures
            b == old(self).blocks@.len(),
            final(self).blocks@.len() == old(self).blocks@.len() + 1,
            forall|j: int|
                0 <= j < old(self).blocks@.len() ==> #[trigger] final(self).blocks@[j] == old(self).blocks@[j],
            final(self).blocks@[b as int].params@ == params@,
            final(self).blocks@[b as int].ops@ == Seq::<Op>::empty(),
            final(self).blocks@[b as int].terminator is None,
            !final(self).blocks@[b as int].sealed,
            final(self).current == old(self).current,
            final(self).next_value == old(self).next_value,
            final(self).cursor == old(self).cursor,
            final(self).eof_behaviour == old(self).eof_behaviour,
    {
        let b = self.blocks.len();
        self.blocks.push(Block { params, ops: Vec::new(), terminator: None, sealed: false });
        b
    }

    /// Close a block's predecessor set.
    pub(crate) fn seal_block(&mut self, b: usize)
        requires
            (b as int) < old(self).blocks@.len(),
        ensures
            final(self).blocks@.len() == old(self).blocks@.len(),
            forall|j: int|
                0 <= j < old(self).blocks@.len() && j != b as int ==> #[trigger] final(self).blocks@[j] == old(self).blocks@[j],
            final(self).blocks@[b as int].params@ == old(self).blocks@[b as int].params@,
            final(self).blocks@[b as int].ops@ == old(self).blocks@[b as int].ops@,
            final(self).blocks@[b as int].terminator == old(self).blocks@[b as int].terminator,
            final(self).blocks@[b as int].sealed,
            final(self).current == old(self).current,
            final(self).next_value == old(self).next_value,
            final(self).cursor == old(self).cursor,
            final(self).eof_behaviour == old(self).eof_behaviour,
    {
        self.blocks[b].sealed = true;
    }

    /// Terminate a block. The branch discipline lives here: every edge the
    /// terminator carries must lead to a block that is not yet sealed, so a
    /// sealed block can never gain a new predecessor.
    pub(crate) fn set_terminator(&mut self, b: usize, t: Terminator)
        requires
            (b as int) < old(self).blocks@.len(),
            old(self).blocks@[b as int].terminator is None,
            match t {
                Terminator::Jump { target, args } => !old(self).blocks@[target as int].sealed,
                Terminator::BranchNonZero {
                    cond,
                    then_target,
                    then_args,
                    else_target,
                    else_args,
                } => !old(self).blocks@[then_target as int].sealed && !old(self).blocks@[
                    else_target as int
                ].sealed,
                Terminator::Return { val } => true,
            },
            term_wf(t, old(self).next_value as int, old(self).blocks@),
        ensures
            final(self).blocks@.len() == old(self).blocks@.len(),
            forall|j: int|
                0 <= j < old(self).blocks@.len() && j != b as int ==> #[trigger] final(self).blocks@[j] == old(self).blocks@[j],
            final(self).blocks@[b as int].params@ == old(self).blocks@[b as int].params@,
            final(self).blocks@[b as int].ops@ == old(self).blocks@[b as int].ops@,
            final(self).blocks@[b as int].terminator == Some(t),
            final(self).blocks@[b as int].sealed == old(self).blocks@[b as int].sealed,
            final(self).current == old(self).current,
            final(self).next_value == old(self).next_value,
            final(self).cursor == old(self).cursor,
            final(self).eof_behaviour == old(self).eof_behaviour,
    {
        self.blocks[b].terminator = Some(t);
    }

    /// Lower one instruction at the end of the current block, as
    /// `lowered` describes case by case.
    pub fn emit(&mut self, instruction: &Instruction) -> (r: Result<(), BuildError>)
        requires
            old(self).wf(),
            old(self).cursor_ok(),
        ensures
            final(self).wf(),
            final(self).cursor_ok(),
            final(self).frames(old(self)),
            (r matches Ok(()) ==> final(self).closes(old(self))),
            old(self).blocks@[old(self).current as int].ops@.is_prefix_of(
                final(self).blocks@[old(self).current as int].ops@,
            ),
            final(self).blocks@[old(self).current as int].sealed == old(self).blocks@[old(self).current as int].sealed,
            final(self).next_value as int <= old(self).next_value + instr_cost(
                *instruction,
                old(self).eof_behaviour,
            ),
            (r matches Err(_) ==> final(self).next_value > VALUE_CAP),
            (r matches Ok(()) ==> lowered(*old(self), *final(self), *instruction)),
            (r matches Ok(()) ==> exists|t: Trace|
                #[trigger] trace_ok(t, *instruction) && t_pre(t) == *old(self) && t_post(t)
                    == *final(self)),
            (r matches Ok(()) ==> forall|j: int|
                old(self).blocks@.len() <= j < final(self).blocks@.len() ==> (#[trigger] final(self).blocks@[j]).sealed),
        decreases instruction, 1int,
    {
        if self.next_value > VALUE_CAP {
            proof {
                lemma_instr_cost_nonneg(*instruction, self.eof_behaviour);
            }
            return Err(BuildError::ValueLimit);
        }
        match instruction {
            Instruction::Debug => {
                proof {
                    lemma_simple_trace(*old(self), *self, *instruction);
                }
                Ok(())
            },
            Instruction::Increment => {
                self.modify_cell(1);
                proof {
                    lemma_simple_trace(*old(self), *self, *instruction);
                }
                Ok(())
            },
            Instruction::Decrement => {
                self.modify_cell(-1);
                proof {
                    lemma_simple_trace(*old(self), *self, *instruction);
                }
                Ok(())
            },
            Instruction::Right => {
                self.move_cursor(1);
                proof {
                    lemma_simple_trace(*old(self), *self, *instruction);
                }
                Ok(())
            },
            Instruction::Left => {
                self.move_cursor(-1);
                proof {
                    lemma_simple_trace(*old(self), *self, *instruction);
                }
                Ok(())
            },
            Instruction::Output => {
                self.emit_output();
                proof {
                    lemma_simple_trace(*old(self), *self, *instruction);
                }
                Ok(())
            },
            Instruction::Input => {
                self.emit_input();
                proof {
                    lemma_simple_trace(*old(self), *self, *instruction);
                }
                Ok(())
            },
            Instruction::Loop(instructions) => self.emit_loop(instructions),
        }
    }

    /// Load the byte under the cursor, add `delta` with wraparound, store
    /// it back. No new blocks.
    fn modify_cell(&mut self, delta: i64)
        requires
            old(self).wf(),
            old(self).cursor_ok(),
            old(self).next_value <= VALUE_CAP,
        ensures
            final(self).wf(),
            final(self).cursor_ok(),
            final(self).frames(old(self)),
            final(self).closes(old(self)),
            lowered_cell(*old(self), *final(self), delta),
    {
        let v = self.alloc_value();
        let w = self.alloc_value();
        self.push_op(Op::LoadByte { dst: v, addr: self.cursor });
        self.push_op(Op::IaddImm { dst: w, src: v, imm: delta });
        self.push_op(Op::StoreByte { val: w, addr: self.cursor });
        proof {
            let c = old(self).current as int;
            assert(self.blocks@[c].ops@ =~= old(self).blocks@[c].ops@ + seq![
                Op::LoadByte { dst: v, addr: old(self).cursor },
                Op::IaddImm { dst: w, src: v, imm: delta },
                Op::StoreByte { val: w, addr: old(self).cursor },
            ]);
        }
    }

    /// The cursor becomes `cursor + delta`: pointer arithmetic on the
    /// byte-granularity tape base. No bounds check is emitted here; the
    /// compiled path trusts the buffer preallocated at function entry.
    fn move_cursor(&mut self, delta: i64)
        requires
            old(self).wf(),
            old(self).cursor_ok(),
            old(self).next_value <= VALUE_CAP,
        ensures
            final(self).wf(),
            final(self).cursor_ok(),
            final(self).frames(old(self)),
            final(self).closes(old(self)),
            lowered_move(*old(self), *final(self), delta),
    {
        let v = self.alloc_value();
        self.push_op(Op::IaddImm { dst: v, src: self.cursor, imm: delta });
        self.cursor = v;
        proof {
            let c = old(self).current as int;
            assert(self.blocks@[c].ops@ =~= old(self).blocks@[c].ops@ + seq![
                Op::IaddImm { dst: v, src: old(self).cursor, imm: delta },
            ]);
        }
    }

    /// Load the byte under the cursor sign-extended and hand it to the
    /// byte-output runtime call.
    fn emit_output(&mut self)
        requires
            old(self).wf(),
            old(self).cursor_ok(),
            old(self).next_value <= VALUE_CAP,
        ensures
            final(self).wf(),
            final(self).cursor_ok(),
            final(self).frames(old(self)),
            final(self).closes(old(self)),
            lowered_output(*old(self), *final(self)),
    {
        let v = self.alloc_value();
        self.push_op(Op::SloadByte { dst: v, addr: self.cursor });
        self.push_op(Op::CallPutChar { arg: v });
        proof {
            let c = old(self).current as int;
            assert(self.blocks@[c].ops@ =~= old(self).blocks@[c].ops@ + seq![
                Op::SloadByte { dst: v, addr: old(self).cursor },
                Op::CallPutChar { arg: v },
            ]);
        }
    }

    /// The canonical three-block fork/merge shape of `Input`: a test in the
    /// current block, an end-of-stream block and a store block, and one
    /// exit block whose single cursor parameter merges both paths.
    fn emit_input(&mut self)
        requires
            old(self).wf(),
            old(self).cursor_ok(),
            old(self).next_value <= VALUE_CAP,
        ensures
            final(self).wf(),
            final(self).cursor_ok(),
            final(self).frames(old(self)),
            final(self).closes(old(self)),
            final(self).blocks@[old(self).current as int].sealed == old(self).blocks@[old(self).current as int].sealed,
            lowered_input(*old(self), *final(self)),
            forall|j: int|
                old(self).blocks@.len() <= j < final(self).blocks@.len() ==> (#[trigger] final(self).blocks@[j]).sealed,
    {
        let v_in = self.alloc_value();
        let v_eof = self.alloc_value();
        let v_cmp = self.alloc_value();
        self.push_op(Op::CallGetChar { dst: v_in });
        self.push_op(Op::Iconst { dst: v_eof, ty: ValType::I32, imm: -1 });
        self.push_op(Op::IcmpEq { dst: v_cmp, a: v_in, b: v_eof });

        let p_eof = self.alloc_value();
        let mut eof_params: Vec<BlockParam> = Vec::new();
        eof_params.push(BlockParam { val: p_eof, ty: ValType::Ptr });
        let eof_block = self.create_block(eof_params);

        let p_store0 = self.alloc_value();
        let p_store1 = self.alloc_value();
        let mut store_params: Vec<BlockParam> = Vec::new();
        store_params.push(BlockParam { val: p_store0, ty: ValType::Ptr });
        store_params.push(BlockParam { val: p_store1, ty: ValType::I32 });
        let store_block = self.create_block(store_params);

        let p_next = self.alloc_value();
        let mut next_params: Vec<BlockParam> = Vec::new();
        next_params.push(BlockParam { val: p_next, ty: ValType::Ptr });
        let next_block = self.create_block(next_params);

        let mut then_args: Vec<usize> = Vec::new();
        then_args.push(self.cursor);
        let mut else_args: Vec<usize> = Vec::new();
        else_args.push(self.cursor);
        else_args.push(v_in);
        let cur = self.current;
        self.set_terminator(
            cur,
            Terminator::BranchNonZero {
                cond: v_cmp,
                then_target: eof_block,
                then_args,
                else_target: store_block,
                else_args,
            },
        );

        // end-of-stream path: carry the cursor on unchanged, or redirect
        // into the store path with a literal zero
        match self.eof_behaviour {
            EofBehaviour::Ignore => {
                let mut args: Vec<usize> = Vec::new();
                args.push(p_eof);
                self.set_terminator(eof_block, Terminator::Jump { target: next_block, args });
            },
            EofBehaviour::Zero => {
                let z = self.alloc_value();
                self.blocks[eof_block].ops.push(Op::Iconst { dst: z, ty: ValType::I32, imm: 0 });
                let mut args: Vec<usize> = Vec::new();
                args.push(p_eof);
                args.push(z);
                proof {
                    assert(args@ =~= seq![p_eof, z]);
                    assert(self.blocks@[eof_block as int].ops@ =~= seq![
                        Op::Iconst { dst: z, ty: ValType::I32, imm: 0i64 },
                    ]);
                }
                self.set_terminator(eof_block, Terminator::Jump { target: store_block, args });
            },
        }
        self.seal_block(eof_block);

        // store path: write the byte, fall through to the exit block
        self.blocks[store_block].ops.push(Op::StoreByte { val: p_store1, addr: p_store0 });
        let mut args: Vec<usize> = Vec::new();
        args.push(p_store0);
        self.set_terminator(store_block, Terminator::Jump { target: next_block, args });
        self.seal_block(store_block);

        self.seal_block(next_block);
        self.current = next_block;
        self.cursor = p_next;
        proof {
            let c = old(self).current as int;
            assert(self.blocks@[c].ops@ =~= old(self).blocks@[c].ops@ + seq![
                Op::CallGetChar { dst: v_in },
                Op::Iconst { dst: v_eof, ty: ValType::I32, imm: -1i64 },
                Op::IcmpEq { dst: v_cmp, a: v_in, b: v_eof },
            ]);
            assert(self.blocks@[eof_block as int].params@ =~= seq![
                BlockParam { val: p_eof, ty: ValType::Ptr },
            ]);
            assert(self.blocks@[store_block as int].params@ =~= seq![
                BlockParam { val: p_store0, ty: ValType::Ptr },
                BlockParam { val: p_store1, ty: ValType::I32 },
            ]);
            assert(self.blocks@[next_block as int].params@ =~= seq![
                BlockParam { val: p_next, ty: ValType::Ptr },
            ]);
            assert(self.blocks@[store_block as int].ops@ =~= seq![
                Op::StoreByte { val: p_store1, addr: p_store0 },
            ]);
            match self.blocks@[eof_block as int].terminator {
                Some(Terminator::Jump { target, args }) => {
                    if old(self).eof_behaviour is Ignore {
                        assert(args@ =~= seq![p_eof]);
                        assert(self.blocks@[eof_block as int].ops@ =~= Seq::<Op>::empty());
                    }
                },
                _ => {},
            }
            match self.blocks@[c].terminator {
                Some(Terminator::BranchNonZero { then_args, else_args, .. }) => {
                    assert(then_args@ =~= seq![old(self).cursor]);
                    assert(else_args@ =~= seq![old(self).cursor, v_in]);
                },
                _ => {},
            }
            match self.blocks@[store_block as int].terminator {
                Some(Terminator::Jump { args, .. }) => {
                    assert(args@ =~= seq![p_store0]);
                },
                _ => {},
            }
        }
    }

    /// The reducible-loop triangle of `Loop`: a test block (the single
    /// merge point of entry and back edge), a body-entry block, and an
    /// exit block, each parameterized by the cursor. The test block stays
    /// pending while the body is lowered and is sealed only after the
    /// trailing back-edge jump is emitted.
    #[verifier::rlimit(80)]
    fn emit_loop(&mut self, instructions: &Vec<Instruction>) -> (r: Result<(), BuildError>)
        requires
            old(self).wf(),
            old(self).cursor_ok(),
            old(self).next_value <= VALUE_CAP,
        ensures
            final(self).wf(),
            final(self).cursor_ok(),
            final(self).frames(old(self)),
            (r matches Ok(()) ==> final(self).closes(old(self))),
            final(self).blocks@[old(self).current as int].sealed == old(self).blocks@[old(self).current as int].sealed,
            old(self).blocks@[old(self).current as int].ops@.is_prefix_of(
                final(self).blocks@[old(self).current as int].ops@,
            ),
            final(self).next_value as int <= old(self).next_value + 4 + seq_cost(
                instructions@,
                old(self).eof_behaviour,
            ),
            (r matches Err(_) ==> final(self).next_value > VALUE_CAP),
            (r matches Ok(()) ==> lowered_loop(*old(self), *final(self))),
            (r matches Ok(()) ==> exists|t: Trace|
                #[trigger] trace_ok(t, Instruction::Loop(*instructions)) && t_pre(t) == *old(
                    self,
                ) && t_post(t) == *final(self)),
            (r matches Ok(()) ==> forall|j: int|
                old(self).blocks@.len() <= j < final(self).blocks@.len() ==> (#[trigger] final(self).blocks@[j]).sealed),
        decreases instructions, 0int,
    {
        let ghost o = *self;
        let p_test = self.alloc_value();
        let v_load = self.alloc_value();
        let p_then = self.alloc_value();
        let p_else = self.alloc_value();

        let mut test_params: Vec<BlockParam> = Vec::new();
        test_params.push(BlockParam { val: p_test, ty: ValType::Ptr });
        let test_block = self.create_block(test_params);
        let mut then_params: Vec<BlockParam> = Vec::new();
        then_params.push(BlockParam { val: p_then, ty: ValType::Ptr });
        let then_block = self.create_block(then_params);
        let mut else_params: Vec<BlockParam> = Vec::new();
        else_params.push(BlockParam { val: p_else, ty: ValType::Ptr });
        let else_block = self.create_block(else_params);

        // enter the test block with the current cursor
        let mut entry_args: Vec<usize> = Vec::new();
        entry_args.push(self.cursor);
        let cur = self.current;
        self.set_terminator(cur, Terminator::Jump { target: test_block, args: entry_args });

        // the test: load the byte under the cursor, branch on it
        self.blocks[test_block].ops.push(Op::LoadByte { dst: v_load, addr: p_test });
        let mut then_args: Vec<usize> = Vec::new();
        then_args.push(p_test);
        let mut else_args: Vec<usize> = Vec::new();
        else_args.push(p_test);
        self.set_terminator(
            test_block,
            Terminator::BranchNonZero {
                cond: v_load,
                then_target: then_block,
                then_args,
                else_target: else_block,
                else_args,
            },
        );
        self.seal_block(then_block);
        self.seal_block(else_block);
        self.current = then_block;
        self.cursor = p_then;

        // the body, recursively, in order; the trace of states it steps
        // through is recorded as it grows
        let ghost s1 = *self;
        let ghost mut traces: Seq<Trace> = Seq::empty();
        proof {
            assert(instructions@.subrange(0, 0) =~= Seq::<Instruction>::empty());
            assert(traces_ok(traces, instructions@.subrange(0, 0), s1, s1));
        }
        let mut idx: usize = 0;
        #[verifier::loop_isolation(false)]
        while idx < instructions.len()
            invariant
                self.wf(),
                self.cursor_ok(),
                0 <= idx <= instructions.len(),
                self.frames(&s1),
                self.closes(&s1),
                traces_ok(traces, instructions@.subrange(0, idx as int), s1, *self),
                self.next_value as int <= s1.next_value + seq_cost(
                    instructions@.subrange(0, idx as int),
                    s1.eof_behaviour,
                ),
                self.blocks@[test_block as int] == s1.blocks@[test_block as int],
                self.blocks@[else_block as int] == s1.blocks@[else_block as int],
                self.blocks@[o.current as int] == s1.blocks@[o.current as int],
                self.current == then_block || self.current as int >= o.blocks@.len() + 3,
                forall|j: int|
                    o.blocks@.len() <= j < self.blocks@.len() && j != test_block as int
                        && (#[trigger] self.blocks@[j].terminator) is None ==> (j
                        == self.current as int || j == else_block as int),
                forall|j: int|
                    o.blocks@.len() <= j < self.blocks@.len() && j != test_block as int
                        ==> (#[trigger] self.blocks@[j]).sealed,
            decreases instructions.len() - idx,
        {
            let ghost mid = *self;
            let r = self.emit(&instructions[idx]);
            proof {
                assert(instructions@.subrange(0, idx as int + 1) =~= instructions@.subrange(
                    0,
                    idx as int,
                ).push(instructions@[idx as int]));
                lemma_seq_cost_push(
                    instructions@.subrange(0, idx as int),
                    instructions@[idx as int],
                    s1.eof_behaviour,
                );
            }
            match r {
                Ok(()) => {},
                Err(e) => {
                    proof {
                        lemma_seq_cost_prefix(instructions@, idx as int + 1, s1.eof_behaviour);
                    }
                    return Err(e);
                },
            }
            proof {
                let ti = choose|t: Trace|
                    #[trigger] trace_ok(t, instructions@[idx as int]) && t_pre(t) == mid
                        && t_post(t) == *self;
                lemma_traces_ok_push(
                    traces,
                    instructions@.subrange(0, idx as int),
                    s1,
                    mid,
                    ti,
                    instructions@[idx as int],
                );
                traces = traces.push(ti);
                assert(instructions@.subrange(0, idx as int + 1) =~= instructions@.subrange(
                    0,
                    idx as int,
                ).push(instructions@[idx as int]));
            }
            idx = idx + 1;
        }

        // the back edge: the single merge point closes only now
        let ghost ee = *self;
        let mut back_args: Vec<usize> = Vec::new();
        back_args.push(self.cursor);
        let cur2 = self.current;
        self.set_terminator(cur2, Terminator::Jump { target: test_block, args: back_args });
        self.seal_block(test_block);
        self.current = else_block;
        self.cursor = p_else;
        proof {
            assert(o.blocks@.len() <= cur2 as int);
            assert((cur2 as int) < self.blocks@.len());
            assert(cur2 as int != test_block as int + 2);
            assert(instructions@.subrange(0, instructions@.len() as int) =~= instructions@);
            assert(traces_ok(traces, instructions@, s1, ee));
            assert(loop_body_entry(o, s1));
            assert(back_args@ =~= seq![ee.cursor]);
            assert(loop_body_exit(o, ee, *self));
            assert(lowered_loop(o, *self));
            let tw = Trace::Loop { pre: o, post: *self, entry: s1, done: ee, body: traces };
            assert(trace_ok(tw, Instruction::Loop(*instructions)));
            assert(t_pre(tw) == o && t_post(tw) == *self);
        }
        Ok(())
    }
}

/// A block stays well formed when values are added, blocks are appended,
/// and no existing block changes its parameter count.
pub proof fn lemma_block_wf_grow(b: Block, nv: int, nv2: int, blocks: Seq<Block>, blocks2: Seq<Block>)
    requires
        block_wf(b, nv, blocks),
        nv <= nv2,
        blocks.len() <= blocks2.len(),
        forall|t: int|
            0 <= t < blocks.len() ==> (#[trigger] blocks2[t].params@).len()
                == blocks[t].params@.len(),
    ensures
        block_wf(b, nv2, blocks2),
{
}

/// A non-loop lowering step is its own trace.
proof fn lemma_simple_trace(o: Emitter, n: Emitter, i: Instruction)
    requires
        !(i matches Instruction::Loop(_)),
        lowered(o, n, i),
    ensures
        exists|t: Trace| #[trigger] trace_ok(t, i) && t_pre(t) == o && t_post(t) == n,
{
    let t = Trace::Simple { pre: o, post: n };
    assert(trace_ok(t, i));
    assert(t_pre(t) == o && t_post(t) == n);
}

/// What lowering one instruction does to the graph, case by case.
pub open spec fn lowered(o: Emitter, n: Emitter, i: Instruction) -> bool {
    match i {
        Instruction::Debug => n == o,
        Instruction::Increment => lowered_cell(o, n, 1i64),
        Instruction::Decrement => lowered_cell(o, n, -1i64),
        Instruction::Right => lowered_move(o, n, 1i64),
        Instruction::Left => lowered_move(o, n, -1i64),
        Instruction::Output => lowered_output(o, n),
        Instruction::Input => lowered_input(o, n),
        Instruction::Loop(body) => lowered_loop(o, n),
    }
}

/// Load, add-immediate with wraparound, store back; no new blocks.
pub open spec fn lowered_cell(o: Emitter, n: Emitter, delta: i64) -> bool {
    let c = o.current as int;
    let v = o.next_value;
    &&& n.blocks@.len() == o.blocks@.len()
    &&& n.current == o.current
    &&& n.cursor == o.cursor
    &&& n.next_value as int == v + 2
    &&& n.blocks@[c].ops@ == o.blocks@[c].ops@ + seq![
        Op::LoadByte { dst: v, addr: o.cursor },
        Op::IaddImm { dst: (v + 1) as usize, src: v, imm: delta },
        Op::StoreByte { val: (v + 1) as usize, addr: o.cursor },
    ]
    &&& n.blocks@[c].terminator is None
}

/// One pointer-add; the cursor moves to the new value; no bounds check.
pub open spec fn lowered_move(o: Emitter, n: Emitter, delta: i64) -> bool {
    let c = o.current as int;
    let v = o.next_value;
    &&& n.blocks@.len() == o.blocks@.len()
    &&& n.current == o.current
    &&& n.cursor == v
    &&& n.next_value as int == v + 1
    &&& n.blocks@[c].ops@ == o.blocks@[c].ops@ + seq![
        Op::IaddImm { dst: v, src: o.cursor, imm: delta },
    ]
    &&& n.blocks@[c].terminator is None
}

/// Sign-extending load, then the byte-output call; no new blocks.
pub open spec fn lowered_output(o: Emitter, n: Emitter) -> bool {
    let c = o.current as int;
    let v = o.next_value;
    &&& n.blocks@.len() == o.blocks@.len()
    &&& n.current == o.current
    &&& n.cursor == o.cursor
    &&& n.next_value as int == v + 1
    &&& n.blocks@[c].ops@ == o.blocks@[c].ops@ + seq![
        Op::SloadByte { dst: v, addr: o.cursor },
        Op::CallPutChar { arg: v },
    ]
    &&& n.blocks@[c].terminator is None
}

/// The three-block fork/merge shape of `Input`: the current block calls
/// the input runtime function and branches on the end-of-stream sentinel;
/// the end-of-stream block carries the cursor on (policy Ignore) or
/// redirects into the store block with a literal zero (policy Zero); the
/// store block writes the byte; the exit block has one cursor parameter
/// merging both incoming paths.
pub open spec fn lowered_input(o: Emitter, n: Emitter) -> bool {
    let c = o.current as int;
    let v = o.next_value;
    let eof_b = o.blocks@.len() as int;
    let store_b = eof_b + 1;
    let next_b = eof_b + 2;
    &&& n.blocks@.len() == o.blocks@.len() + 3
    &&& n.current as int == next_b
    &&& n.blocks@[c].ops@ == o.blocks@[c].ops@ + seq![
        Op::CallGetChar { dst: v },
        Op::Iconst { dst: (v + 1) as usize, ty: ValType::I32, imm: -1i64 },
        Op::IcmpEq { dst: (v + 2) as usize, a: v, b: (v + 1) as usize },
    ]
    &&& (n.blocks@[c].terminator matches Some(Terminator::BranchNonZero {
        cond,
        then_target,
        then_args,
        else_target,
        else_args,
    }) ==> {
        &&& cond == (v + 2) as usize
        &&& then_target as int == eof_b
        &&& then_args@ == seq![o.cursor]
        &&& else_target as int == store_b
        &&& else_args@ == seq![o.cursor, v]
    })
    &&& (n.blocks@[c].terminator matches Some(Terminator::BranchNonZero { cond, .. }))
    &&& n.blocks@[eof_b].params@ == seq![BlockParam { val: (v + 3) as usize, ty: ValType::Ptr }]
    &&& n.blocks@[store_b].params@ == seq![
        BlockParam { val: (v + 4) as usize, ty: ValType::Ptr },
        BlockParam { val: (v + 5) as usize, ty: ValType::I32 },
    ]
    &&& n.blocks@[next_b].params@ == seq![BlockParam { val: (v + 6) as usize, ty: ValType::Ptr }]
    &&& match o.eof_behaviour {
        EofBehaviour::Ignore => {
            &&& n.blocks@[eof_b].ops@ == Seq::<Op>::empty()
            &&& (n.blocks@[eof_b].terminator matches Some(Terminator::Jump { target, args })
                ==> target as int == next_b && args@ == seq![(v + 3) as usize])
            &&& (n.blocks@[eof_b].terminator matches Some(Terminator::Jump { .. }))
            &&& n.next_value as int == v + 7
        },
        EofBehaviour::Zero => {
            &&& n.blocks@[eof_b].ops@ == seq![
                Op::Iconst { dst: (v + 7) as usize, ty: ValType::I32, imm: 0i64 },
            ]
            &&& (n.blocks@[eof_b].terminator matches Some(Terminator::Jump { target, args })
                ==> target as int == store_b && args@ == seq![(v + 3) as usize, (v + 7) as usize])
            &&& (n.blocks@[eof_b].terminator matches Some(Terminator::Jump { .. }))
            &&& n.next_value as int == v + 8
        },
    }
    &&& n.blocks@[store_b].ops@ == seq![
        Op::StoreByte { val: (v + 5) as usize, addr: (v + 4) as usize },
    ]
    &&& (n.blocks@[store_b].terminator matches Some(Terminator::Jump { target, args })
        ==> target as int == next_b && args@ == seq![(v + 4) as usize])
    &&& (n.blocks@[store_b].terminator matches Some(Terminator::Jump { .. }))
    &&& n.cursor as int == v + 6
}

/// The reducible-loop triangle of `Loop`: the old current block jumps to a
/// new test block (the single merge point), the test loads the byte under
/// its cursor parameter and branches into body entry or exit, and after
/// the body the new current block is the exit block. How the body itself
/// is lowered between `loop_body_entry` and `loop_body_exit` is stated by
/// `trace_ok`, which every `Emitter::emit` ensures.
pub open spec fn lowered_loop(o: Emitter, n: Emitter) -> bool {
    let c = o.current as int;
    let test = o.blocks@.len() as int;
    let v = o.next_value;
    &&& n.blocks@.len() >= o.blocks@.len() + 3
    &&& n.blocks@[c].ops@ == o.blocks@[c].ops@
    &&& (n.blocks@[c].terminator matches Some(Terminator::Jump { target, args })
        ==> target as int == test && args@ == seq![o.cursor])
    &&& (n.blocks@[c].terminator matches Some(Terminator::Jump { .. }))
    &&& n.blocks@[test].params@ == seq![BlockParam { val: v, ty: ValType::Ptr }]
    &&& n.blocks@[test].ops@ == seq![Op::LoadByte { dst: (v + 1) as usize, addr: v }]
    &&& (n.blocks@[test].terminator matches Some(Terminator::BranchNonZero {
        cond,
        then_target,
        then_args,
        else_target,
        else_args,
    }) ==> {
        &&& cond == (v + 1) as usize
        &&& then_target as int == test + 1
        &&& then_args@ == seq![v]
        &&& else_target as int == test + 2
        &&& else_args@ == seq![v]
    })
    &&& (n.blocks@[test].terminator matches Some(Terminator::BranchNonZero { .. }))
    &&& n.blocks@[test + 1].params@ == seq![BlockParam { val: (v + 2) as usize, ty: ValType::Ptr }]
    &&& n.blocks@[test + 2].params@ == seq![BlockParam { val: (v + 3) as usize, ty: ValType::Ptr }]
    &&& n.current as int == test + 2
    &&& n.cursor as int == v + 3
}

/// A ghost record of how a lowering ran: the emitter states before and
/// after each instruction, with a loop carrying the states its body
/// stepped through. `trace_ok` pins a trace to its instruction.
pub enum Trace {
    Simple { pre: Emitter, post: Emitter },
    Loop { pre: Emitter, post: Emitter, entry: Emitter, done: Emitter, body: Seq<Trace> },
}

pub open spec fn t_pre(t: Trace) -> Emitter {
    match t {
        Trace::Simple { pre, .. } => pre,
        Trace::Loop { pre, .. } => pre,
    }
}

pub open spec fn t_post(t: Trace) -> Emitter {
    match t {
        Trace::Simple { post, .. } => post,
        Trace::Loop { post, .. } => post,
    }
}

/// The trace records a real lowering of instruction `i`: its endpoints are
/// related by `lowered`, and for a loop the body's instructions were each
/// lowered in order between the body-entry state and the state the back
/// edge then closed (`loop_body_entry`, `traces_ok`, `loop_body_exit`).
pub open spec fn trace_ok(t: Trace, i: Instruction) -> bool
    decreases i, 0int,
{
    match i {
        Instruction::Loop(body) => match t {
            Trace::Loop { pre, post, entry, done, body: body_traces } => {
                &&& lowered_loop(pre, post)
                &&& loop_body_entry(pre, entry)
                &&& traces_ok(body_traces, body@, entry, done)
                &&& loop_body_exit(pre, done, post)
            },
            _ => false,
        },
        _ => match t {
            Trace::Simple { pre, post } => lowered(pre, post, i),
            _ => false,
        },
    }
}

/// The traces record a real lowering of `instrs`, in order, from `pre` to
/// `post`: one trace per instruction, each starting where the previous one
/// ended.
pub open spec fn traces_ok(ts: Seq<Trace>, instrs: Seq<Instruction>, pre: Emitter, post: Emitter) -> bool
    decreases instrs, 1int,
{
    if instrs.len() == 0 {
        ts.len() == 0 && post == pre
    } else {
        &&& ts.len() == instrs.len()
        &&& t_pre(ts[0]) == pre
        &&& trace_ok(ts[0], instrs[0])
        &&& traces_ok(
            ts.subrange(1, ts.len() as int),
            instrs.subrange(1, instrs.len() as int),
            t_post(ts[0]),
            post,
        )
    }
}

/// One more lowered instruction extends the trace sequence.
pub proof fn lemma_traces_ok_push(
    ts: Seq<Trace>,
    instrs: Seq<Instruction>,
    pre: Emitter,
    mid: Emitter,
    t: Trace,
    x: Instruction,
)
    requires
        traces_ok(ts, instrs, pre, mid),
        trace_ok(t, x),
        t_pre(t) == mid,
    ensures
        traces_ok(ts.push(t), instrs.push(x), pre, t_post(t)),
    decreases instrs.len(),
{
    if instrs.len() == 0 {
        assert(ts.push(t)[0] == t);
        assert(instrs.push(x)[0] == x);
        assert(ts.push(t).subrange(1, 1) =~= Seq::<Trace>::empty());
        assert(instrs.push(x).subrange(1, 1) =~= Seq::<Instruction>::empty());
        assert(traces_ok(
            ts.push(t).subrange(1, 1),
            instrs.push(x).subrange(1, 1),
            t_post(t),
            t_post(t),
        ));
    } else {
        lemma_traces_ok_push(
            ts.subrange(1, ts.len() as int),
            instrs.subrange(1, instrs.len() as int),
            t_post(ts[0]),
            mid,
            t,
            x,
        );
        assert(ts.push(t).subrange(1, ts.len() as int + 1) =~= ts.subrange(
            1,
            ts.len() as int,
        ).push(t));
        assert(instrs.push(x).subrange(1, instrs.len() as int + 1) =~= instrs.subrange(
            1,
            instrs.len() as int,
        ).push(x));
        assert(ts.push(t)[0] == ts[0]);
        assert(instrs.push(x)[0] == instrs[0]);
        assert(traces_ok(ts.push(t), instrs.push(x), pre, t_post(t)));
    }
}

/// The state a loop body starts lowering in: three new blocks (test, body
/// entry, exit), the body-entry block current and still empty, its cursor
/// parameter bound as the cursor, and every older block untouched but the
/// one that jumped into the test.
pub open spec fn loop_body_entry(o: Emitter, s: Emitter) -> bool {
    let test = o.blocks@.len() as int;
    let v = o.next_value;
    &&& s.blocks@.len() == o.blocks@.len() + 3
    &&& s.current as int == test + 1
    &&& s.cursor as int == v + 2
    &&& s.next_value as int == v + 4
    &&& s.eof_behaviour == o.eof_behaviour
    &&& s.blocks@[test + 1].ops@ == Seq::<Op>::empty()
    &&& s.blocks@[test + 1].terminator is None
    &&& forall|j: int|
        0 <= j < o.blocks@.len() && j != o.current as int ==> #[trigger] s.blocks@[j]
            == o.blocks@[j]
}

/// The step from the state a loop body ends in to the finished loop: the
/// body's last block gains the back-edge jump into the test block with its
/// final cursor, the test block is sealed, and nothing else changes.
pub open spec fn loop_body_exit(o: Emitter, ee: Emitter, n: Emitter) -> bool {
    let test = o.blocks@.len() as int;
    let bcur = ee.current as int;
    &&& 0 <= bcur < ee.blocks@.len()
    &&& bcur != test
    &&& n.blocks@.len() == ee.blocks@.len()
    &&& forall|j: int|
        0 <= j < ee.blocks@.len() && j != bcur && j != test ==> #[trigger] n.blocks@[j]
            == ee.blocks@[j]
    &&& n.blocks@[bcur].params@ == ee.blocks@[bcur].params@
    &&& n.blocks@[bcur].ops@ == ee.blocks@[bcur].ops@
    &&& (n.blocks@[bcur].terminator matches Some(Terminator::Jump { target, args })
        ==> target as int == test && args@ == seq![ee.cursor])
    &&& (n.blocks@[bcur].terminator matches Some(Terminator::Jump { .. }))
    &&& n.blocks@[test].params@ == ee.blocks@[test].params@
    &&& n.blocks@[test].ops@ == ee.blocks@[test].ops@
    &&& n.blocks@[test].terminator == ee.blocks@[test].terminator
    &&& n.blocks@[test].sealed
    &&& n.next_value == ee.next_value
}

/// The number of fresh value ids lowering one instruction consumes.
pub open spec fn instr_cost(i: Instruction, eof: EofBehaviour) -> int
    decreases i,
{
    match i {
        Instruction::Increment => 2,
        Instruction::Decrement => 2,
        Instruction::Right => 1,
        Instruction::Left => 1,
        Instruction::Output => 1,
        Instruction::Input => if eof == EofBehaviour::Zero {
            8
        } else {
            7
        },
        Instruction::Debug => 0,
        Instruction::Loop(body) => 4 + seq_cost(body@, eof),
    }
}

/// The number of fresh value ids lowering a sequence consumes.
pub open spec fn seq_cost(s: Seq<Instruction>, eof: EofBehaviour) -> int
    decreases s,
{
    if s.len() == 0 {
        0
    } else {
        instr_cost(s[0], eof) + seq_cost(s.subrange(1, s.len() as int), eof)
    }
}

pub proof fn lemma_instr_cost_nonneg(i: Instruction, eof: EofBehaviour)
    ensures
        instr_cost(i, eof) >= 0,
    decreases i,
{
    match i {
        Instruction::Loop(body) => {
            lemma_seq_cost_nonneg(body@, eof);
        },
        _ => {},
    }
}

pub proof fn lemma_seq_cost_nonneg(s: Seq<Instruction>, eof: EofBehaviour)
    ensures
        seq_cost(s, eof) >= 0,
    decreases s,
{
    if s.len() > 0 {
        lemma_instr_cost_nonneg(s[0], eof);
        lemma_seq_cost_nonneg(s.subrange(1, s.len() as int), eof);
    }
}

/// Cost distributes over concatenation.
pub proof fn lemma_seq_cost_concat(a: Seq<Instruction>, b: Seq<Instruction>, eof: EofBehaviour)
    ensures
        seq_cost(a + b, eof) == seq_cost(a, eof) + seq_cost(b, eof),
    decreases a.len(),
{
    if a.len() == 0 {
        assert(a + b =~= b);
    } else {
        assert((a + b).subrange(1, (a + b).len() as int) =~= a.subrange(1, a.len() as int) + b);
        lemma_seq_cost_concat(a.subrange(1, a.len() as int), b, eof);
    }
}

/// Appending an instruction adds its cost.
pub proof fn lemma_seq_cost_push(s: Seq<Instruction>, x: Instruction, eof: EofBehaviour)
    ensures
        seq_cost(s.push(x), eof) == seq_cost(s, eof) + instr_cost(x, eof),
{
    assert(s.push(x) =~= s + seq![x]);
    lemma_seq_cost_concat(s, seq![x], eof);
    assert(seq![x].subrange(1, 1) =~= Seq::<Instruction>::empty());
    assert(seq_cost(seq![x].subrange(1, 1), eof) == 0);
    assert(seq_cost(seq![x], eof) == instr_cost(x, eof));
}

/// A prefix never costs more than the whole sequence.
pub proof fn lemma_seq_cost_prefix(s: Seq<Instruction>, k: int, eof: EofBehaviour)
    requires
        0 <= k <= s.len(),
    ensures
        seq_cost(s.subrange(0, k), eof) <= seq_cost(s, eof),
{
    assert(s =~= s.subrange(0, k) + s.subrange(k, s.len() as int));
    lemma_seq_cost_concat(s.subrange(0, k), s.subrange(k, s.len() as int), eof);
    lemma_seq_cost_nonneg(s.subrange(k, s.len() as int), eof);
}

} // verus!

