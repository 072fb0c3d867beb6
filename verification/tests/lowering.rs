use tapelang::compiler::{Compiler, Symbol};
use tapelang::ir::{Op, Terminator, ValType};
use tapelang::parser::Parser;
use tapelang::program::Program;
use tapelang::EofBehaviour;

fn parse(src: &str) -> Program {
    let mut p = Parser::new(src.as_bytes().to_vec());
    p.parse().expect("program should parse")
}

fn compile(src: &str, max: usize, eof: EofBehaviour) -> tapelang::compiler::CompiledUnit {
    Compiler::new(max, eof).compile(&parse(src)).expect("lowering should succeed")
}

#[test]
fn symbol_table_has_one_export_and_four_imports() {
    let unit = compile("", 30_000, EofBehaviour::Ignore);
    assert_eq!(unit.symbols.len(), 5);
    assert_eq!(unit.symbols[0].symbol, Symbol::Main);
    assert!(unit.symbols[0].export);
    assert_eq!(unit.symbols[0].ret, Some(ValType::I32));
    for decl in &unit.symbols[1..] {
        assert!(!decl.export);
    }
    let names: Vec<&str> = unit.symbols.iter().map(|d| d.symbol.name()).collect();
    assert_eq!(names, vec!["main", "putchar", "getchar", "calloc", "free"]);
}

#[test]
fn entry_allocates_and_exit_frees_the_original_base() {
    let unit = compile("+>.", 4_096, EofBehaviour::Ignore);
    // entry: tape size, unit size, the zero-initializing allocation
    let entry = &unit.blocks[0];
    assert!(matches!(
        entry.ops[0],
        Op::Iconst { dst: 0, ty: ValType::SizeT, imm: 4_096 }
    ));
    assert!(matches!(entry.ops[1], Op::Iconst { dst: 1, ty: ValType::SizeT, imm: 1 }));
    assert!(matches!(entry.ops[2], Op::CallCalloc { dst: 2, count: 0, size: 1 }));
    assert_eq!(unit.base, 2);
    // exit: free the base (even though the cursor advanced), return 0
    let exit = &unit.blocks[unit.exit];
    let n = exit.ops.len();
    assert!(matches!(exit.ops[n - 2], Op::CallFree { arg } if arg == unit.base));
    match exit.terminator {
        Some(Terminator::Return { val }) => {
            assert!(matches!(exit.ops[n - 1], Op::Iconst { dst, ty: ValType::I32, imm: 0 } if dst == val));
        },
        ref other => panic!("expected a return, got {:?}", other),
    }
}

#[test]
fn every_block_is_sealed_and_terminated() {
    let unit = compile("+[>,[-].<]", 30_000, EofBehaviour::Zero);
    for block in &unit.blocks {
        assert!(block.sealed);
        assert!(block.terminator.is_some());
    }
}

#[test]
fn cell_arithmetic_stays_in_one_block() {
    let unit = compile("+-", 16, EofBehaviour::Ignore);
    assert_eq!(unit.blocks.len(), 1);
    let ops = &unit.blocks[0].ops;
    // prologue, load/add/store twice, free, status constant
    assert_eq!(ops.len(), 3 + 3 + 3 + 2);
    assert!(matches!(ops[3], Op::LoadByte { .. }));
    assert!(matches!(ops[4], Op::IaddImm { imm: 1, .. }));
    assert!(matches!(ops[5], Op::StoreByte { .. }));
    assert!(matches!(ops[7], Op::IaddImm { imm: -1, .. }));
}

#[test]
fn moves_are_unchecked_pointer_adds() {
    let unit = compile("><", 16, EofBehaviour::Ignore);
    assert_eq!(unit.blocks.len(), 1);
    let ops = &unit.blocks[0].ops;
    assert!(matches!(ops[3], Op::IaddImm { src: 2, imm: 1, .. }));
    assert!(matches!(ops[4], Op::IaddImm { imm: -1, .. }));
}

#[test]
fn input_lowers_to_the_three_block_fork_merge_shape() {
    let unit = compile(",", 16, EofBehaviour::Ignore);
    // entry plus the end-of-stream, store and exit blocks
    assert_eq!(unit.blocks.len(), 4);
    let entry = &unit.blocks[0];
    assert!(matches!(entry.ops[3], Op::CallGetChar { .. }));
    assert!(matches!(entry.ops[4], Op::Iconst { ty: ValType::I32, imm: -1, .. }));
    assert!(matches!(entry.ops[5], Op::IcmpEq { .. }));
    match &entry.terminator {
        Some(Terminator::BranchNonZero { then_target, then_args, else_target, else_args, .. }) => {
            assert_eq!(*then_target, 1);
            assert_eq!(then_args.len(), 1);
            assert_eq!(*else_target, 2);
            assert_eq!(else_args.len(), 2);
        },
        other => panic!("expected a branch, got {:?}", other),
    }
    // end-of-stream under Ignore: straight to the exit block, no store
    let eof = &unit.blocks[1];
    assert_eq!(eof.params.len(), 1);
    assert!(eof.ops.is_empty());
    assert!(matches!(eof.terminator, Some(Terminator::Jump { target: 3, .. })));
    // the store path writes the byte and joins the same exit block
    let store = &unit.blocks[2];
    assert_eq!(store.params.len(), 2);
    assert!(matches!(store.ops[0], Op::StoreByte { .. }));
    assert!(matches!(store.terminator, Some(Terminator::Jump { target: 3, .. })));
    // the exit block merges both paths into one cursor parameter
    assert_eq!(unit.blocks[3].params.len(), 1);
}

#[test]
fn input_under_zero_policy_redirects_into_the_store_path() {
    let unit = compile(",", 16, EofBehaviour::Zero);
    let eof = &unit.blocks[1];
    assert_eq!(eof.ops.len(), 1);
    assert!(matches!(eof.ops[0], Op::Iconst { ty: ValType::I32, imm: 0, .. }));
    match &eof.terminator {
        Some(Terminator::Jump { target, args }) => {
            assert_eq!(*target, 2);
            assert_eq!(args.len(), 2);
        },
        other => panic!("expected a jump into the store path, got {:?}", other),
    }
}

#[test]
fn loop_lowers_to_the_test_body_exit_triangle() {
    let unit = compile("[-]", 16, EofBehaviour::Ignore);
    // entry, test, body entry, exit
    assert_eq!(unit.blocks.len(), 4);
    assert!(matches!(
        unit.blocks[0].terminator,
        Some(Terminator::Jump { target: 1, .. })
    ));
    let test = &unit.blocks[1];
    assert_eq!(test.params.len(), 1);
    assert_eq!(test.ops.len(), 1);
    assert!(matches!(test.ops[0], Op::LoadByte { .. }));
    assert!(matches!(
        test.terminator,
        Some(Terminator::BranchNonZero { then_target: 2, else_target: 3, .. })
    ));
    // the body jumps back to the test block: the loop's single merge point
    assert!(matches!(
        unit.blocks[2].terminator,
        Some(Terminator::Jump { target: 1, .. })
    ));
    assert_eq!(unit.blocks[3].params.len(), 1);
}

#[test]
fn debug_lowers_to_nothing() {
    let with_debug = compile("#+#", 16, EofBehaviour::Ignore);
    let without = compile("+", 16, EofBehaviour::Ignore);
    assert_eq!(with_debug.blocks.len(), without.blocks.len());
    assert_eq!(with_debug.blocks[0].ops.len(), without.blocks[0].ops.len());
}
